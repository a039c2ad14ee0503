//! Scenario tests for the locators and the serializer.

use croc_look::locate::{get_after_impl, get_ident, loc_function, loc_struct, loc_trait_impl};
use croc_look::ser::stream_to_string;
use croc_look::token::{ident_matches, Delim, Token};

fn id(s: &str) -> Token {
    Token::Ident(s.to_string())
}

fn p(c: char) -> Token {
    Token::Punct(c)
}

fn lit(s: &str) -> Token {
    Token::Literal(s.to_string())
}

fn brace(children: Vec<Token>) -> Token {
    Token::Group(Delim::Brace, children)
}

fn paren(children: Vec<Token>) -> Token {
    Token::Group(Delim::Paren, children)
}

/// `struct Foo { x : Int , }` captured whole, starting at the keyword and
/// ending with the matching closing brace.
#[test]
fn struct_with_body_is_captured_exactly() {
    let code = vec![
        id("struct"),
        id("Foo"),
        brace(vec![id("x"), p(':'), id("Int"), p(',')]),
    ];
    assert_eq!(
        loc_struct("Foo", &code),
        Some("struct Foo { x : Int , }".to_string())
    );
}

/// A nested same-named definition that textually precedes a top-level one
/// wins by the pre-order rule.
#[test]
fn nested_struct_precedes_top_level() {
    let code = vec![
        id("mod"),
        id("M"),
        brace(vec![
            id("struct"),
            id("Foo"),
            brace(vec![id("y"), p(':'), id("Int"), p(',')]),
        ]),
        id("struct"),
        id("Foo"),
        brace(vec![id("z"), p(':'), id("Int"), p(',')]),
    ];
    assert_eq!(
        loc_struct("Foo", &code),
        Some("struct Foo { y : Int , }".to_string())
    );
}

/// A unit-style definition is captured through the `;` and holds no group.
#[test]
fn unit_struct_ends_at_semicolon() {
    let code = vec![
        id("struct"),
        id("Unit"),
        p(';'),
        id("struct"),
        id("Other"),
        brace(vec![]),
    ];
    assert_eq!(loc_struct("Unit", &code), Some("struct Unit ;".to_string()));
}

/// Tokens between the name and the body (generics, qualifiers) are captured.
#[test]
fn struct_with_generics_captures_through_body() {
    let code = vec![
        id("struct"),
        id("Foo"),
        p('<'),
        id("T"),
        p('>'),
        brace(vec![id("x"), p(':'), id("T")]),
    ];
    assert_eq!(
        loc_struct("Foo", &code),
        Some("struct Foo < T > { x : T }".to_string())
    );
}

/// The function capture collects the full signature plus the brace body.
#[test]
fn function_captures_signature_and_body() {
    let code = vec![
        id("fn"),
        id("add"),
        paren(vec![
            id("a"),
            p(':'),
            id("Int"),
            p(','),
            id("b"),
            p(':'),
            id("Int"),
        ]),
        p('-'),
        p('>'),
        id("Int"),
        brace(vec![id("a"), p('+'), id("b")]),
    ];
    assert_eq!(
        loc_function("add", &code),
        Some("fn add ( a : Int , b : Int ) - > Int { a + b }".to_string())
    );
}

/// With an implementing-type filter, the first occurrence is rejected on the
/// type mismatch and the scan resumes and accepts the second.
#[test]
fn impl_filter_rejects_then_accepts() {
    let code = vec![
        id("impl"),
        id("Show"),
        id("for"),
        id("Foo"),
        brace(vec![id("fn"), id("show"), paren(vec![]), brace(vec![])]),
        id("impl"),
        id("Show"),
        id("for"),
        id("Bar"),
        brace(vec![id("fn"), id("show"), paren(vec![]), brace(vec![])]),
    ];
    assert_eq!(
        loc_trait_impl("Show", &code, Some("Bar")),
        Some("impl Show for Bar { fn show ( ) { } }".to_string())
    );
}

/// Without a filter the first occurrence in pre-order wins unconditionally.
#[test]
fn impl_without_filter_takes_first() {
    let code = vec![
        id("impl"),
        id("Show"),
        id("for"),
        id("Foo"),
        brace(vec![lit("1")]),
        id("impl"),
        id("Show"),
        id("for"),
        id("Bar"),
        brace(vec![lit("2")]),
    ];
    assert_eq!(
        loc_trait_impl("Show", &code, None),
        Some("impl Show for Foo { 1 }".to_string())
    );
}

/// A filter that matches no occurrence leaves nothing found.
#[test]
fn impl_filter_with_no_match_is_not_found() {
    let code = vec![
        id("impl"),
        id("Show"),
        id("for"),
        id("Foo"),
        brace(vec![]),
    ];
    assert_eq!(loc_trait_impl("Show", &code, Some("Bar")), None);
}

/// An implementation found inside a nested scope is trimmed to start exactly
/// at the implementation keyword.
#[test]
fn impl_inside_module_starts_at_keyword() {
    let code = vec![
        id("mod"),
        id("m"),
        brace(vec![
            id("fn"),
            id("noise"),
            paren(vec![]),
            brace(vec![]),
            id("impl"),
            id("Show"),
            id("for"),
            id("Foo"),
            brace(vec![]),
        ]),
    ];
    assert_eq!(
        loc_trait_impl("Show", &code, None),
        Some("impl Show for Foo { }".to_string())
    );
}

/// A name absent from the tree is not found by any locator.
#[test]
fn absent_name_is_not_found_by_each_locator() {
    let code = vec![
        id("struct"),
        id("Foo"),
        brace(vec![id("x")]),
        id("fn"),
        id("run"),
        paren(vec![]),
        brace(vec![]),
        id("impl"),
        id("Show"),
        id("for"),
        id("Foo"),
        brace(vec![]),
    ];
    assert_eq!(loc_struct("Missing", &code), None);
    assert_eq!(loc_function("Missing", &code), None);
    assert_eq!(loc_trait_impl("Missing", &code, None), None);
    assert_eq!(loc_trait_impl("Missing", &code, Some("Foo")), None);
}

/// Deep nesting is searched without raising: the target sits under hundreds
/// of nested groups, and a miss walks the same depth.
#[test]
fn deeply_nested_input_is_handled() {
    let mut inner = vec![id("struct"), id("Deep"), brace(vec![])];
    for _ in 0..600 {
        inner = vec![brace(inner)];
    }
    assert_eq!(
        loc_struct("Deep", &inner),
        Some("struct Deep { }".to_string())
    );
    assert_eq!(loc_struct("Missing", &inner), None);
    assert_eq!(loc_function("Missing", &inner), None);
    assert_eq!(loc_trait_impl("Missing", &inner, None), None);
}

/// The keyword must be immediately followed by the requested name.
#[test]
fn keyword_without_adjacent_name_does_not_trigger() {
    let code = vec![
        id("struct"),
        id("Wrong"),
        id("Foo"),
        brace(vec![]),
    ];
    assert_eq!(loc_struct("Foo", &code), None);
}

/// Serialization renders delimiters and joins lexemes with single spaces;
/// invisible delimiters render their children bare.
#[test]
fn stream_to_string_canonical_form() {
    assert_eq!(stream_to_string(&vec![]), "".to_string());
    assert_eq!(stream_to_string(&vec![p(';')]), ";".to_string());
    assert_eq!(
        stream_to_string(&vec![
            id("a"),
            Token::Group(Delim::Bracket, vec![lit("7")]),
            paren(vec![]),
        ]),
        "a [ 7 ] ( )".to_string()
    );
    assert_eq!(
        stream_to_string(&vec![Token::Group(Delim::Invisible, vec![id("a"), id("b")])]),
        "a b".to_string()
    );
}

/// Serialized text re-tokenizes to a structurally equal token sequence
/// (token-level round trip; whitespace is canonical, not original).
#[test]
fn serialize_then_retokenize_is_identity() {
    let code = vec![
        id("fn"),
        id("add"),
        paren(vec![id("a"), p(':'), id("Int")]),
        brace(vec![id("a"), p('+'), lit("1"), p(';'), id("s")]),
        id("struct"),
        id("Foo"),
        brace(vec![id("x"), p(':'), id("Int"), p(',')]),
    ];
    let text = stream_to_string(&code);
    let mut stack: Vec<(char, Vec<Token>)> = Vec::new();
    let mut current: Vec<Token> = Vec::new();
    for lexeme in text.split(' ') {
        let mut chars = lexeme.chars();
        let first = chars.next().expect("no empty lexemes in canonical text");
        let single = chars.next().is_none();
        match first {
            '(' | '{' | '[' if single => {
                stack.push((first, current));
                current = Vec::new();
            }
            ')' | '}' | ']' if single => {
                let (open, mut outer) = stack.pop().expect("balanced");
                let delim = match open {
                    '(' => Delim::Paren,
                    '{' => Delim::Brace,
                    _ => Delim::Bracket,
                };
                outer.push(Token::Group(delim, current));
                current = outer;
            }
            c if single && !c.is_alphanumeric() && c != '_' => current.push(Token::Punct(c)),
            c if c.is_ascii_digit() || c == '"' => current.push(Token::Literal(lexeme.to_string())),
            _ => current.push(Token::Ident(lexeme.to_string())),
        }
    }
    assert!(stack.is_empty());
    assert_eq!(current, code);
}

/// The buffer filter returns everything from the last implementation
/// keyword on, or the whole buffer when none occurs.
#[test]
fn get_after_impl_trims_to_last_keyword() {
    let buf = vec![
        id("noise"),
        id("impl"),
        id("Old"),
        id("impl"),
        id("Show"),
        brace(vec![]),
    ];
    assert_eq!(
        get_after_impl(&buf),
        vec![id("impl"), id("Show"), brace(vec![])]
    );
    let no_impl = vec![id("a"), p(';')];
    assert_eq!(get_after_impl(&no_impl), no_impl);
}

/// Identifier construction and matching are exact and case-sensitive.
#[test]
fn ident_construction_and_matching() {
    let t = get_ident("Foo");
    assert_eq!(t, id("Foo"));
    assert!(ident_matches(&t, "Foo"));
    assert!(!ident_matches(&t, "foo"));
    assert!(!ident_matches(&p(';'), ";"));
    assert!(!ident_matches(&lit("Foo"), "Foo"));
}

/// An invisible-delimiter group is entered like any other scope.
#[test]
fn invisible_group_is_searched() {
    let code = vec![Token::Group(
        Delim::Invisible,
        vec![id("struct"), id("Foo"), brace(vec![id("x")])],
    )];
    assert_eq!(loc_struct("Foo", &code), Some("struct Foo { x }".to_string()));
}

/// The boundary of the final trim: the returned slice starts at the last
/// implementation keyword swept in, so a rejected occurrence is discarded
/// only when a fresh keyword follows it. Where the interface name recurs
/// with no fresh keyword, the rejected tokens stay in the slice.
#[test]
fn trim_keeps_rejected_sweep_without_fresh_keyword() {
    let code = vec![
        id("impl"),
        id("Show"),
        id("for"),
        id("Foo"),
        brace(vec![]),
        id("Show"),
        id("for"),
        id("Bar"),
        brace(vec![lit("2")]),
    ];
    assert_eq!(
        loc_trait_impl("Show", &code, Some("Bar")),
        Some("impl Show for Foo Show for Bar { 2 }".to_string())
    );
}
