//! The declaration locators: given a token tree and a requested name, find
//! the exact token slice of a type definition, a function definition, or an
//! interface-implementation block (optionally filtered by the implementing
//! type). All locators walk the tree pre-order, depth-first, left-to-right:
//! at each position, a group is entered and exhausted before the walk
//! advances to the next sibling, and the first match wins.
//!
//! Every locator here is verified, so it returns a plain result on every
//! input and cannot raise; its only recursion descends into a strictly
//! smaller child group, so the recursion depth never exceeds the lexical
//! nesting depth of the input — deep nesting is bounded by the call stack
//! alone.

use vstd::prelude::*;

use crate::ser::{stream_to_string, text_of};
use crate::token::{
    group_views_of, ident_matches, is_ident_named, lemma_views_of_push, lemma_views_of_subrange,
    views_of, Delim, Token, TokenView,
};

verus! {

broadcast use vstd::seq::group_seq_axioms, vstd::std_specs::vec::group_vec_axioms;

/// Generates an identifier token from a string.
pub fn get_ident(name: &str) -> (r: Token)
    ensures
        r@ == TokenView::Ident(name@),
{
    Token::Ident(name.to_owned())
}

/// The view of an optional filter name.
pub open spec fn filter_view(f: Option<&str>) -> Option<Seq<char>> {
    match f {
        Some(s) => Some(s@),
        None => None,
    }
}

/// Relates an executable search result to its model.
pub open spec fn result_models(r: Option<Vec<Token>>, s: Option<Seq<TokenView>>) -> bool {
    match r {
        Some(v) => s is Some && views_of(v@) == s.unwrap(),
        None => s is None,
    }
}

/// The position at which a type-definition search triggers: the keyword
/// immediately followed by the requested name.
pub open spec fn struct_trigger(name: Seq<char>, ts: Seq<TokenView>, i: int) -> bool {
    &&& 0 <= i
    &&& i + 1 < ts.len()
    &&& is_ident_named(ts[i], "struct"@)
    &&& is_ident_named(ts[i + 1], name)
}

/// The index of the first terminal of a type-definition capture at or after
/// `j`: a group (the field or variant list) or a `;` (a unit-style or
/// alias-style definition), whichever comes first.
pub open spec fn struct_capture_end(ts: Seq<TokenView>, j: int) -> Option<int>
    decreases ts.len() - j,
{
    if j < 0 || j >= ts.len() {
        None
    } else if ts[j] is Group || ts[j] == TokenView::Punct(';') {
        Some(j)
    } else {
        struct_capture_end(ts, j + 1)
    }
}

/// The pre-order type-definition search over a sibling sequence, from
/// position `i`: groups are searched in full before the walk moves on, and a
/// trigger captures from the keyword through the first terminal.
pub open spec fn struct_search(name: Seq<char>, ts: Seq<TokenView>, i: int) -> Option<
    Seq<TokenView>,
>
    decreases ts, ts.len() - i,
{
    if i < 0 || i >= ts.len() {
        None
    } else if ts[i] is Group {
        match struct_search(name, ts[i]->Group_1, 0) {
            Some(r) => Some(r),
            None => struct_search(name, ts, i + 1),
        }
    } else if struct_trigger(name, ts, i) {
        match struct_capture_end(ts, i + 2) {
            Some(j) => Some(ts.subrange(i, j + 1)),
            None => None,
        }
    } else {
        struct_search(name, ts, i + 1)
    }
}

/// The position at which a function search triggers.
pub open spec fn fn_trigger(name: Seq<char>, ts: Seq<TokenView>, i: int) -> bool {
    &&& 0 <= i
    &&& i + 1 < ts.len()
    &&& is_ident_named(ts[i], "fn"@)
    &&& is_ident_named(ts[i + 1], name)
}

/// The index of the first brace-delimited group (the function body) at or
/// after `j`.
pub open spec fn brace_end(ts: Seq<TokenView>, j: int) -> Option<int>
    decreases ts.len() - j,
{
    if j < 0 || j >= ts.len() {
        None
    } else if ts[j] is Group && ts[j]->Group_0 == Delim::Brace {
        Some(j)
    } else {
        brace_end(ts, j + 1)
    }
}

/// The pre-order function search over a sibling sequence, from position `i`.
pub open spec fn fn_search(name: Seq<char>, ts: Seq<TokenView>, i: int) -> Option<Seq<TokenView>>
    decreases ts, ts.len() - i,
{
    if i < 0 || i >= ts.len() {
        None
    } else if ts[i] is Group {
        match fn_search(name, ts[i]->Group_1, 0) {
            Some(r) => Some(r),
            None => fn_search(name, ts, i + 1),
        }
    } else if fn_trigger(name, ts, i) {
        match brace_end(ts, i + 2) {
            Some(j) => Some(ts.subrange(i, j + 1)),
            None => None,
        }
    } else {
        fn_search(name, ts, i + 1)
    }
}

/// The largest index in `[0, k]` holding the implementation keyword, or 0.
pub open spec fn last_impl_index(buf: Seq<TokenView>, k: int) -> int
    decreases k,
{
    if k <= 0 {
        0
    } else if k < buf.len() && is_ident_named(buf[k], "impl"@) {
        k
    } else {
        last_impl_index(buf, k - 1)
    }
}

/// Discards everything before the last occurrence of the implementation
/// keyword in the accumulated buffer, so the returned slice begins exactly at
/// that keyword.
pub open spec fn trim_to_impl(buf: Seq<TokenView>) -> Seq<TokenView> {
    buf.subrange(last_impl_index(buf, buf.len() - 1), buf.len() as int)
}

/// The stage an interface-implementation search is in at a given position of
/// a sibling sequence.
#[derive(Clone, Copy, PartialEq, Eq, Structural, Debug)]
pub enum ImplMode {
    /// Walking siblings, looking for the implementation keyword; groups are
    /// entered and searched in full.
    Walk,
    /// Scanning forward for the requested interface name, accumulating
    /// tokens; groups are still entered, but not accumulated.
    SeekName,
    /// Scanning forward for the keyword that names the implementing type;
    /// everything scanned, groups included, is accumulated.
    SeekFor,
    /// Scanning forward for the brace-delimited implementation body.
    Grab,
}

/// One pre-order interface-implementation search, expressed as a state
/// machine over the position `i`, the stage `mode` and the accumulated
/// buffer `buf`. A filter mismatch rejects the attempt: the scan resumes in
/// `SeekName` from the token immediately after the keyword, with no restart.
pub open spec fn impl_step(
    name: Seq<char>,
    filter: Option<Seq<char>>,
    ts: Seq<TokenView>,
    i: int,
    mode: ImplMode,
    buf: Seq<TokenView>,
) -> Option<Seq<TokenView>>
    decreases ts, ts.len() - i,
{
    if i < 0 || i >= ts.len() {
        None
    } else {
        let t = ts[i];
        match mode {
            ImplMode::Walk => {
                if t is Group {
                    match impl_step(name, filter, t->Group_1, 0, ImplMode::Walk, Seq::empty()) {
                        Some(r) => Some(r),
                        None => impl_step(name, filter, ts, i + 1, ImplMode::Walk, buf),
                    }
                } else if is_ident_named(t, "impl"@) {
                    impl_step(name, filter, ts, i + 1, ImplMode::SeekName, seq![t])
                } else {
                    impl_step(name, filter, ts, i + 1, ImplMode::Walk, buf)
                }
            },
            ImplMode::SeekName => {
                if t is Group {
                    match impl_step(name, filter, t->Group_1, 0, ImplMode::Walk, Seq::empty()) {
                        Some(r) => Some(r),
                        None => impl_step(name, filter, ts, i + 1, ImplMode::SeekName, buf),
                    }
                } else if is_ident_named(t, name) {
                    impl_step(name, filter, ts, i + 1, ImplMode::SeekFor, buf.push(t))
                } else {
                    impl_step(name, filter, ts, i + 1, ImplMode::SeekName, buf.push(t))
                }
            },
            ImplMode::SeekFor => {
                if is_ident_named(t, "for"@) {
                    match filter {
                        Some(f) => {
                            if i + 1 < ts.len() && is_ident_named(ts[i + 1], f) {
                                impl_step(name, filter, ts, i + 1, ImplMode::Grab, buf.push(t))
                            } else {
                                impl_step(name, filter, ts, i + 1, ImplMode::SeekName, buf.push(t))
                            }
                        },
                        None => impl_step(name, filter, ts, i + 1, ImplMode::Grab, buf.push(t)),
                    }
                } else {
                    impl_step(name, filter, ts, i + 1, ImplMode::SeekFor, buf.push(t))
                }
            },
            ImplMode::Grab => {
                if t is Group && t->Group_0 == Delim::Brace {
                    Some(trim_to_impl(buf.push(t)))
                } else {
                    impl_step(name, filter, ts, i + 1, ImplMode::Grab, buf.push(t))
                }
            },
        }
    }
}

/// The pre-order interface-implementation search over a sibling sequence.
pub open spec fn impl_search(
    name: Seq<char>,
    filter: Option<Seq<char>>,
    ts: Seq<TokenView>,
) -> Option<Seq<TokenView>> {
    impl_step(name, filter, ts, 0, ImplMode::Walk, Seq::empty())
}

/// Clones the token range `[from, to)`.
#[verifier::loop_isolation(false)]
fn clone_range(tokens: &Vec<Token>, from: usize, to: usize) -> (r: Vec<Token>)
    requires
        from <= to <= tokens@.len(),
    ensures
        views_of(r@) == views_of(tokens@).subrange(from as int, to as int),
{
    broadcast use group_views_of;

    let mut r: Vec<Token> = Vec::new();
    let mut k: usize = from;
    while k < to
        invariant
            from <= k <= to,
            views_of(r@) =~= views_of(tokens@.subrange(from as int, k as int)),
        decreases to - k,
    {
        r.push(tokens[k].clone());
        proof {
            assert(tokens@.subrange(from as int, k + 1) =~= tokens@.subrange(
                from as int,
                k as int,
            ).push(tokens@[k as int]));
            lemma_views_of_push(tokens@.subrange(from as int, k as int), tokens@[k as int]);
        }
        k += 1;
    }
    proof {
        lemma_views_of_subrange(tokens@, from as int, to as int);
    }
    r
}

/// Filters the accumulated buffer of a locate attempt: looks for the last
/// occurrence of the implementation keyword and returns everything from that
/// keyword on.
#[verifier::loop_isolation(false)]
pub fn get_after_impl(vec: &Vec<Token>) -> (r: Vec<Token>)
    ensures
        views_of(r@) == trim_to_impl(views_of(vec@)),
{
    broadcast use group_views_of;

    let ghost vts = views_of(vec@);
    let mut best: usize = 0;
    let mut k: usize = 0;
    while k < vec.len()
        invariant
            0 <= k <= vec@.len(),
            best as int == last_impl_index(vts, k - 1),
            best == 0 || best < k,
        decreases vec@.len() - k,
    {
        if ident_matches(&vec[k], "impl") {
            best = k;
        }
        proof {
            assert(vts[k as int] == vec@[k as int]@);
        }
        k += 1;
    }
    proof {
        assert(best as int == last_impl_index(vts, vts.len() - 1));
        assert(best <= vec@.len());
    }
    clone_range(vec, best, vec.len())
}

/// The type-definition capture, starting at a trigger position `start`:
/// collects from the keyword through the first group or `;`.
#[verifier::loop_isolation(false)]
fn capture_struct(tokens: &Vec<Token>, start: usize) -> (r: Option<Vec<Token>>)
    requires
        start + 2 <= tokens@.len(),
    ensures
        result_models(
            r,
            match struct_capture_end(views_of(tokens@), start + 2) {
                Some(j) => Some(views_of(tokens@).subrange(start as int, j + 1)),
                None => None,
            },
        ),
{
    broadcast use group_views_of;

    let ghost vts = views_of(tokens@);
    let n: usize = tokens.len();
    let mut j: usize = start + 2;
    while j < n
        invariant
            start + 2 <= j <= tokens@.len(),
            struct_capture_end(vts, j as int) == struct_capture_end(vts, start + 2),
        decreases tokens@.len() - j,
    {
        proof {
            assert(vts[j as int] == tokens@[j as int]@);
        }
        let terminal = match &tokens[j] {
            Token::Group(_, _) => true,
            Token::Punct(c) => *c == ';',
            _ => false,
        };
        if terminal {
            let cap = clone_range(tokens, start, j + 1);
            return Some(cap);
        }
        j += 1;
    }
    None
}

/// The function capture, starting at a trigger position `start`: collects
/// from the keyword through the first brace-delimited group.
#[verifier::loop_isolation(false)]
fn capture_fn(tokens: &Vec<Token>, start: usize) -> (r: Option<Vec<Token>>)
    requires
        start + 2 <= tokens@.len(),
    ensures
        result_models(
            r,
            match brace_end(views_of(tokens@), start + 2) {
                Some(j) => Some(views_of(tokens@).subrange(start as int, j + 1)),
                None => None,
            },
        ),
{
    broadcast use group_views_of;

    let ghost vts = views_of(tokens@);
    let n: usize = tokens.len();
    let mut j: usize = start + 2;
    while j < n
        invariant
            start + 2 <= j <= tokens@.len(),
            brace_end(vts, j as int) == brace_end(vts, start + 2),
        decreases tokens@.len() - j,
    {
        proof {
            assert(vts[j as int] == tokens@[j as int]@);
        }
        let terminal = match &tokens[j] {
            Token::Group(d, _) => matches!(d, Delim::Brace),
            _ => false,
        };
        if terminal {
            let cap = clone_range(tokens, start, j + 1);
            return Some(cap);
        }
        j += 1;
    }
    None
}

/// The pre-order type-definition search over a token sequence.
#[verifier::loop_isolation(false)]
fn search_struct(name: &str, tokens: &Vec<Token>) -> (r: Option<Vec<Token>>)
    ensures
        result_models(r, struct_search(name@, views_of(tokens@), 0)),
    decreases tokens@,
{
    broadcast use group_views_of;

    let ghost vts = views_of(tokens@);
    let mut i: usize = 0;
    while i < tokens.len()
        invariant
            0 <= i <= tokens@.len(),
            struct_search(name@, vts, i as int) == struct_search(name@, vts, 0),
        decreases tokens@.len() - i,
    {
        proof {
            assert(vts[i as int] == tokens@[i as int]@);
        }
        match &tokens[i] {
            Token::Group(_, ch) => {
                proof {
                    assert(tokens@[i as int]->Group_1 == *ch);
                    assert(decreases_to!(tokens@ => tokens@[i as int]));
                    assert(decreases_to!(tokens@[i as int] => tokens@[i as int]->Group_1));
                    assert(decreases_to!(*ch => ch@));
                    assert(vts[i as int]->Group_1 == views_of(ch@));
                }
                let inner = search_struct(name, ch);
                if inner.is_some() {
                    return inner;
                }
            },
            _ => {
                let trig = ident_matches(&tokens[i], "struct") && i + 1 < tokens.len()
                    && ident_matches(&tokens[i + 1], name);
                proof {
                    if i + 1 < tokens@.len() {
                        assert(vts[i + 1] == tokens@[i + 1]@);
                    }
                    assert(trig == struct_trigger(name@, vts, i as int));
                }
                if trig {
                    return capture_struct(tokens, i);
                }
            },
        }
        i += 1;
    }
    None
}

/// The pre-order function search over a token sequence.
#[verifier::loop_isolation(false)]
fn search_fn(name: &str, tokens: &Vec<Token>) -> (r: Option<Vec<Token>>)
    ensures
        result_models(r, fn_search(name@, views_of(tokens@), 0)),
    decreases tokens@,
{
    broadcast use group_views_of;

    let ghost vts = views_of(tokens@);
    let mut i: usize = 0;
    while i < tokens.len()
        invariant
            0 <= i <= tokens@.len(),
            fn_search(name@, vts, i as int) == fn_search(name@, vts, 0),
        decreases tokens@.len() - i,
    {
        proof {
            assert(vts[i as int] == tokens@[i as int]@);
        }
        match &tokens[i] {
            Token::Group(_, ch) => {
                proof {
                    assert(tokens@[i as int]->Group_1 == *ch);
                    assert(decreases_to!(tokens@ => tokens@[i as int]));
                    assert(decreases_to!(tokens@[i as int] => tokens@[i as int]->Group_1));
                    assert(decreases_to!(*ch => ch@));
                    assert(vts[i as int]->Group_1 == views_of(ch@));
                }
                let inner = search_fn(name, ch);
                if inner.is_some() {
                    return inner;
                }
            },
            _ => {
                let trig = ident_matches(&tokens[i], "fn") && i + 1 < tokens.len()
                    && ident_matches(&tokens[i + 1], name);
                proof {
                    if i + 1 < tokens@.len() {
                        assert(vts[i + 1] == tokens@[i + 1]@);
                    }
                    assert(trig == fn_trigger(name@, vts, i as int));
                }
                if trig {
                    return capture_fn(tokens, i);
                }
            },
        }
        i += 1;
    }
    None
}

/// The pre-order interface-implementation search over a token sequence.
#[verifier::loop_isolation(false)]
fn search_impl(name: &str, filter: Option<&str>, tokens: &Vec<Token>) -> (r: Option<Vec<Token>>)
    ensures
        result_models(r, impl_search(name@, filter_view(filter), views_of(tokens@))),
    decreases tokens@,
{
    broadcast use group_views_of;

    let ghost vts = views_of(tokens@);
    let ghost fv = filter_view(filter);
    let mut mode = ImplMode::Walk;
    let mut buf: Vec<Token> = Vec::new();
    let mut i: usize = 0;
    while i < tokens.len()
        invariant
            0 <= i <= tokens@.len(),
            impl_step(name@, fv, vts, i as int, mode, views_of(buf@)) == impl_search(
                name@,
                fv,
                vts,
            ),
        decreases tokens@.len() - i,
    {
        proof {
            assert(vts[i as int] == tokens@[i as int]@);
        }
        let ghost buf0 = views_of(buf@);
        match mode {
            ImplMode::Walk | ImplMode::SeekName => {
                match &tokens[i] {
                    Token::Group(_, ch) => {
                        proof {
                            assert(tokens@[i as int]->Group_1 == *ch);
                            assert(decreases_to!(tokens@ => tokens@[i as int]));
                            assert(decreases_to!(
                                tokens@[i as int] => tokens@[i as int]->Group_1));
                            assert(decreases_to!(*ch => ch@));
                            assert(vts[i as int]->Group_1 == views_of(ch@));
                        }
                        let inner = search_impl(name, filter, ch);
                        if inner.is_some() {
                            return inner;
                        }
                    },
                    _ => {
                        let is_walk = matches!(mode, ImplMode::Walk);
                        if is_walk {
                            if ident_matches(&tokens[i], "impl") {
                                buf = Vec::new();
                                buf.push(tokens[i].clone());
                                mode = ImplMode::SeekName;
                                proof {
                                    assert(views_of(buf@) =~= seq![vts[i as int]]);
                                }
                            }
                        } else {
                            let hit = ident_matches(&tokens[i], name);
                            buf.push(tokens[i].clone());
                            proof {
                                lemma_views_of_push(buf@.drop_last(), buf@.last());
                                assert(views_of(buf@) =~= buf0.push(vts[i as int]));
                            }
                            if hit {
                                mode = ImplMode::SeekFor;
                            }
                        }
                    },
                }
            },
            ImplMode::SeekFor => {
                let is_for = ident_matches(&tokens[i], "for");
                let mut next_mode = ImplMode::SeekFor;
                if is_for {
                    match filter {
                        Some(f) => {
                            let ok = i + 1 < tokens.len() && ident_matches(&tokens[i + 1], f);
                            proof {
                                if i + 1 < tokens@.len() {
                                    assert(vts[i + 1] == tokens@[i + 1]@);
                                }
                            }
                            if ok {
                                next_mode = ImplMode::Grab;
                            } else {
                                next_mode = ImplMode::SeekName;
                            }
                        },
                        None => {
                            next_mode = ImplMode::Grab;
                        },
                    }
                }
                buf.push(tokens[i].clone());
                proof {
                    lemma_views_of_push(buf@.drop_last(), buf@.last());
                    assert(views_of(buf@) =~= buf0.push(vts[i as int]));
                }
                mode = next_mode;
            },
            ImplMode::Grab => {
                let is_brace = match &tokens[i] {
                    Token::Group(d, _) => matches!(d, Delim::Brace),
                    _ => false,
                };
                buf.push(tokens[i].clone());
                proof {
                    lemma_views_of_push(buf@.drop_last(), buf@.last());
                    assert(views_of(buf@) =~= buf0.push(vts[i as int]));
                }
                if is_brace {
                    let trimmed = get_after_impl(&buf);
                    return Some(trimmed);
                }
            },
        }
        i += 1;
    }
    None
}

/// Locates the interface implementation named `name`; when `impl_for` is
/// given, only a block applying to that implementing type is accepted, and a
/// mismatch makes the scan resume just past the rejected occurrence. The
/// match is returned as canonical text.
pub fn loc_trait_impl(name: &str, code: &Vec<Token>, impl_for: Option<&str>) -> (r: Option<String>)
    ensures
        r is Some <==> impl_search(name@, filter_view(impl_for), views_of(code@)) is Some,
        r matches Some(text) ==> text@ == text_of(
            impl_search(name@, filter_view(impl_for), views_of(code@)).unwrap(),
        ),
{
    match search_impl(name, impl_for, code) {
        Some(v) => Some(stream_to_string(&v)),
        None => None,
    }
}

/// Locates the type definition named `name` and returns it as canonical
/// text: the definition keyword, the name, and everything through the first
/// group (the field or variant list) or a `;`, whichever comes first.
pub fn loc_struct(name: &str, code: &Vec<Token>) -> (r: Option<String>)
    ensures
        r is Some <==> struct_search(name@, views_of(code@), 0) is Some,
        r matches Some(text) ==> text@ == text_of(struct_search(name@, views_of(code@), 0).unwrap()),
{
    match search_struct(name, code) {
        Some(v) => Some(stream_to_string(&v)),
        None => None,
    }
}

/// Locates the function definition named `name` and returns it as canonical
/// text: the keyword, the name, and everything through the first
/// brace-delimited group (the body).
pub fn loc_function(name: &str, code: &Vec<Token>) -> (r: Option<String>)
    ensures
        r is Some <==> fn_search(name@, views_of(code@), 0) is Some,
        r matches Some(text) ==> text@ == text_of(fn_search(name@, views_of(code@), 0).unwrap()),
{
    match search_fn(name, code) {
        Some(v) => Some(stream_to_string(&v)),
        None => None,
    }
}

} // verus!
