//! Token-sequence-to-text serialization: renders an ordered token sequence
//! back to text in a canonical form (lexemes joined by single spaces, groups
//! rendered with their delimiter pair). Original inter-token whitespace is not
//! preserved; only token-level fidelity is guaranteed.

use vstd::prelude::*;
use vstd::string::StringExecFns;

use crate::token::{token_view, views_of, Delim, Token, TokenView};
use crate::token::{group_views_of, lemma_views_of_push};

verus! {

broadcast use vstd::seq::group_seq_axioms, vstd::std_specs::vec::group_vec_axioms;

/// The lexeme that opens a group with delimiter `d`, if any.
pub open spec fn open_lexemes(d: Delim) -> Seq<Seq<char>> {
    match d {
        Delim::Paren => seq![seq!['(']],
        Delim::Brace => seq![seq!['{']],
        Delim::Bracket => seq![seq!['[']],
        Delim::Invisible => Seq::empty(),
    }
}

/// The lexeme that closes a group with delimiter `d`, if any.
pub open spec fn close_lexemes(d: Delim) -> Seq<Seq<char>> {
    match d {
        Delim::Paren => seq![seq![')']],
        Delim::Brace => seq![seq!['}']],
        Delim::Bracket => seq![seq![']']],
        Delim::Invisible => Seq::empty(),
    }
}

/// The flat list of lexemes one token renders to; a group contributes its
/// opening delimiter, its children's lexemes, and its closing delimiter.
pub open spec fn lexemes_of(t: TokenView) -> Seq<Seq<char>>
    decreases t,
{
    match t {
        TokenView::Ident(s) => seq![s],
        TokenView::Punct(c) => seq![seq![c]],
        TokenView::Literal(s) => seq![s],
        TokenView::Group(d, ch) => open_lexemes(d) + seq_lexemes(ch) + close_lexemes(d),
    }
}

/// The concatenated lexemes of a token sequence.
pub open spec fn seq_lexemes(ts: Seq<TokenView>) -> Seq<Seq<char>>
    decreases ts,
{
    if ts.len() == 0 {
        Seq::empty()
    } else {
        seq_lexemes(ts.drop_last()) + lexemes_of(ts.last())
    }
}

/// Lexemes joined by single spaces.
pub open spec fn joined(ls: Seq<Seq<char>>) -> Seq<char>
    decreases ls,
{
    if ls.len() == 0 {
        Seq::empty()
    } else if ls.len() == 1 {
        ls[0]
    } else {
        joined(ls.drop_last()) + seq![' '] + ls.last()
    }
}

/// The canonical text of a token sequence.
pub open spec fn text_of(ts: Seq<TokenView>) -> Seq<char> {
    joined(seq_lexemes(ts))
}

/// Views of a sequence of strings, elementwise.
pub open spec fn str_views(ss: Seq<String>) -> Seq<Seq<char>>
    decreases ss,
{
    if ss.len() == 0 {
        Seq::empty()
    } else {
        str_views(ss.drop_last()).push(ss.last()@)
    }
}

pub broadcast proof fn lemma_str_views_len(ss: Seq<String>)
    ensures
        (#[trigger] str_views(ss)).len() == ss.len(),
    decreases ss,
{
    if ss.len() > 0 {
        lemma_str_views_len(ss.drop_last());
    }
}

pub broadcast proof fn lemma_str_views_index(ss: Seq<String>, i: int)
    requires
        0 <= i < ss.len(),
    ensures
        #[trigger] str_views(ss)[i] == ss[i]@,
    decreases ss,
{
    lemma_str_views_len(ss);
    if ss.len() > 0 && i < ss.len() - 1 {
        lemma_str_views_index(ss.drop_last(), i);
    }
}

pub broadcast proof fn lemma_str_views_push(ss: Seq<String>, x: String)
    ensures
        #[trigger] str_views(ss.push(x)) == str_views(ss).push(x@),
{
    assert(ss.push(x).drop_last() =~= ss);
}

pub broadcast group group_str_views {
    lemma_str_views_len,
    lemma_str_views_index,
    lemma_str_views_push,
}

/// Appending one token's lexemes on the right.
pub broadcast proof fn lemma_seq_lexemes_push(ts: Seq<TokenView>, t: TokenView)
    ensures
        #[trigger] seq_lexemes(ts.push(t)) == seq_lexemes(ts) + lexemes_of(t),
{
    assert(ts.push(t).drop_last() =~= ts);
}

/// Relies on `String::from` for `char`: the result is a string holding
/// exactly the one given character.
#[verifier::external_body]
fn char_string(c: char) -> (r: String)
    ensures
        r@ == seq![c],
{
    String::from(c)
}

/// Appends the lexemes of `t`, as fresh strings, to `out`.
#[verifier::loop_isolation(false)]
fn push_lexemes(t: &Token, out: &mut Vec<String>)
    ensures
        str_views(final(out)@) == str_views(old(out)@) + lexemes_of(t@),
    decreases *t,
{
    broadcast use group_str_views, group_views_of;

    match t {
        Token::Ident(s) => {
            out.push(s.clone());
            proof {
                assert(str_views(out@) =~= str_views(old(out)@) + lexemes_of(t@));
            }
        }
        Token::Punct(c) => {
            out.push(char_string(*c));
            proof {
                assert(str_views(out@) =~= str_views(old(out)@) + lexemes_of(t@));
            }
        }
        Token::Literal(s) => {
            out.push(s.clone());
            proof {
                assert(str_views(out@) =~= str_views(old(out)@) + lexemes_of(t@));
            }
        }
        Token::Group(d, ch) => {
            let ghost base = str_views(old(out)@);
            match d {
                Delim::Paren => out.push(char_string('(')),
                Delim::Brace => out.push(char_string('{')),
                Delim::Bracket => out.push(char_string('[')),
                Delim::Invisible => (),
            }
            proof {
                assert(str_views(out@) =~= base + open_lexemes(*d));
            }
            let mut i: usize = 0;
            while i < ch.len()
                invariant
                    0 <= i <= ch@.len(),
                    str_views(out@) =~= base + open_lexemes(*d) + seq_lexemes(
                        views_of(ch@.subrange(0, i as int)),
                    ),
                decreases ch@.len() - i,
            {
                proof {
                    assert((*t)->Group_1 == *ch);
                    assert(decreases_to!(*t => (*t)->Group_1));
                    assert(decreases_to!(*ch => ch@));
                    assert(decreases_to!(ch@ => ch@[i as int]));
                }
                push_lexemes(&ch[i], out);
                proof {
                    assert(ch@.subrange(0, i + 1) =~= ch@.subrange(0, i as int).push(
                        ch@[i as int],
                    ));
                    lemma_views_of_push(ch@.subrange(0, i as int), ch@[i as int]);
                    let prev = views_of(ch@.subrange(0, i as int));
                    let cur = views_of(ch@.subrange(0, i + 1));
                    assert(cur == prev.push(token_view(ch@[i as int])));
                    lemma_seq_lexemes_push(prev, token_view(ch@[i as int]));
                    assert(seq_lexemes(cur) == seq_lexemes(prev) + lexemes_of(ch@[i as int]@));
                    assert(str_views(out@) =~= base + open_lexemes(*d) + seq_lexemes(cur));
                }
                i += 1;
            }
            proof {
                assert(ch@.subrange(0, ch@.len() as int) =~= ch@);
            }
            let ghost mid = out@;
            match d {
                Delim::Paren => out.push(char_string(')')),
                Delim::Brace => out.push(char_string('}')),
                Delim::Bracket => out.push(char_string(']')),
                Delim::Invisible => (),
            }
            proof {
                if !(d is Invisible) {
                    assert(out@ == mid.push(out@.last()));
                }
                assert(str_views(out@) =~= base + (open_lexemes(*d) + seq_lexemes(views_of(ch@))
                    + close_lexemes(*d)));
            }
        }
    }
}

/// Joins the given lexeme strings with single spaces.
#[verifier::loop_isolation(false)]
fn join_lexemes(parts: &Vec<String>) -> (r: String)
    ensures
        r@ == joined(str_views(parts@)),
{
    broadcast use group_str_views;

    let mut r = String::new();
    let mut i: usize = 0;
    while i < parts.len()
        invariant
            0 <= i <= parts@.len(),
            r@ == joined(str_views(parts@).subrange(0, i as int)),
        decreases parts@.len() - i,
    {
        if i > 0 {
            r.append(" ");
            proof {
                reveal_strlit(" ");
                assert(" "@ =~= seq![' ']);
            }
        }
        r.append(parts[i].as_str());
        proof {
            let all = str_views(parts@);
            let cur = all.subrange(0, i + 1 as int);
            assert(cur.drop_last() =~= all.subrange(0, i as int));
            assert(cur.last() == parts@[i as int]@);
            if i == 0 {
                assert(joined(cur) == parts@[0]@);
            }
        }
        i += 1;
    }
    proof {
        assert(str_views(parts@).subrange(0, parts@.len() as int) =~= str_views(parts@));
    }
    r
}

/// Maps a token sequence to its canonical text. Re-tokenizing the result
/// yields a sequence of tokens structurally equal to the input; the original
/// formatting is not reconstructed.
pub fn stream_to_string(tokens: &Vec<Token>) -> (r: String)
    ensures
        r@ == text_of(views_of(tokens@)),
{
    broadcast use group_views_of;

    let mut parts: Vec<String> = Vec::new();
    let mut i: usize = 0;
    while i < tokens.len()
        invariant
            0 <= i <= tokens@.len(),
            str_views(parts@) =~= seq_lexemes(views_of(tokens@.subrange(0, i as int))),
        decreases tokens@.len() - i,
    {
        push_lexemes(&tokens[i], &mut parts);
        proof {
            assert(tokens@.subrange(0, i + 1) =~= tokens@.subrange(0, i as int).push(
                tokens@[i as int],
            ));
            lemma_views_of_push(tokens@.subrange(0, i as int), tokens@[i as int]);
            let prev = views_of(tokens@.subrange(0, i as int));
            let cur = views_of(tokens@.subrange(0, i + 1));
            assert(cur == prev.push(token_view(tokens@[i as int])));
            lemma_seq_lexemes_push(prev, token_view(tokens@[i as int]));
            assert(seq_lexemes(cur) == seq_lexemes(prev) + lexemes_of(tokens@[i as int]@));
        }
        i += 1;
    }
    proof {
        assert(tokens@.subrange(0, tokens@.len() as int) =~= tokens@);
    }
    join_lexemes(&parts)
}

/// A lexeme that survives the space-joined rendering: nonempty and free of
/// spaces.
pub open spec fn lexeme_ok(l: Seq<char>) -> bool {
    l.len() > 0 && forall|i: int| 0 <= i < l.len() ==> l[i] != ' '
}

/// Every lexeme of the list survives the rendering.
pub open spec fn lexemes_ok(ls: Seq<Seq<char>>) -> bool {
    forall|i: int| 0 <= i < ls.len() ==> lexeme_ok(#[trigger] ls[i])
}

/// The first character of an identifier: a letter or an underscore.
pub open spec fn is_ident_start(c: char) -> bool {
    (97 <= c as u32 && c as u32 <= 122) || (65 <= c as u32 && c as u32 <= 90) || c == '_'
}

/// A decimal digit.
pub open spec fn is_digit_char(c: char) -> bool {
    48 <= c as u32 && c as u32 <= 57
}

/// The first character of a literal: a digit or a double quote.
pub open spec fn is_lit_start(c: char) -> bool {
    is_digit_char(c) || c == '"'
}

/// A group delimiter character.
pub open spec fn is_delim_char(c: char) -> bool {
    c == '(' || c == ')' || c == '{' || c == '}' || c == '[' || c == ']'
}

/// A character a punctuation token may carry: a separator, not a space, not
/// a delimiter, and not the start of an identifier or a literal.
pub open spec fn is_punct_char(c: char) -> bool {
    &&& c != ' '
    &&& !is_delim_char(c)
    &&& !is_ident_start(c)
    &&& !is_lit_start(c)
}

/// A well-formed token, shaped as a tokenizer builds it: an identifier is a
/// nonempty space-free text opening with a letter or underscore, a literal
/// opens with a digit or a quote, a punctuation character is a separator,
/// and a group carries a visible delimiter.
pub open spec fn wf_token(t: TokenView) -> bool
    decreases t,
{
    match t {
        TokenView::Ident(s) => lexeme_ok(s) && is_ident_start(s[0]),
        TokenView::Punct(c) => is_punct_char(c),
        TokenView::Literal(s) => lexeme_ok(s) && is_lit_start(s[0]),
        TokenView::Group(d, ch) => d != Delim::Invisible && wf_forest(ch),
    }
}

/// A well-formed forest: every token in it is well formed.
pub open spec fn wf_forest(ts: Seq<TokenView>) -> bool
    decreases ts,
{
    if ts.len() == 0 {
        true
    } else {
        wf_forest(ts.drop_last()) && wf_token(ts.last())
    }
}

/// The index of the first space at or after `j`.
pub open spec fn first_space(s: Seq<char>, j: int) -> Option<int>
    decreases s.len() - j,
{
    if j < 0 || j >= s.len() {
        None
    } else if s[j] == ' ' {
        Some(j)
    } else {
        first_space(s, j + 1)
    }
}

/// Splitting a text on single spaces, the way the canonical rendering is
/// read back into lexemes.
pub open spec fn split_spaces(s: Seq<char>) -> Seq<Seq<char>>
    decreases s.len(),
{
    if s.len() == 0 {
        Seq::empty()
    } else {
        match first_space(s, 0) {
            None => seq![s],
            Some(k) => if 0 <= k < s.len() {
                seq![s.subrange(0, k)] + split_spaces(s.subrange(k + 1, s.len() as int))
            } else {
                seq![s]
            },
        }
    }
}

proof fn lemma_first_space_at(s: Seq<char>, j: int, k: int)
    requires
        0 <= j <= k < s.len(),
        s[k] == ' ',
        forall|m: int| j <= m < k ==> s[m] != ' ',
    ensures
        first_space(s, j) == Some(k),
    decreases k - j,
{
    if j < k {
        lemma_first_space_at(s, j + 1, k);
    }
}

proof fn lemma_first_space_none(s: Seq<char>, j: int)
    requires
        0 <= j,
        forall|m: int| j <= m < s.len() ==> s[m] != ' ',
    ensures
        first_space(s, j) is None,
    decreases s.len() - j,
{
    if j < s.len() {
        lemma_first_space_none(s, j + 1);
    }
}

proof fn lemma_joined_front(ls: Seq<Seq<char>>)
    requires
        ls.len() >= 2,
    ensures
        joined(ls) == ls[0] + seq![' '] + joined(ls.drop_first()),
    decreases ls.len(),
{
    let dl = ls.drop_last();
    let df = ls.drop_first();
    if ls.len() == 2 {
        assert(dl =~= seq![ls[0]]);
        assert(df =~= seq![ls[1]]);
        assert(joined(ls) =~= ls[0] + seq![' '] + joined(df));
    } else {
        lemma_joined_front(dl);
        assert(df.drop_last() =~= dl.drop_first());
        assert(joined(ls) == joined(dl) + seq![' '] + ls.last());
        assert(joined(dl) == ls[0] + seq![' '] + joined(df.drop_last()));
        assert(joined(df) == joined(df.drop_last()) + seq![' '] + df.last());
        assert(df.last() == ls.last());
        assert(joined(ls) =~= ls[0] + seq![' '] + joined(df));
    }
}

proof fn lemma_split_joined(ls: Seq<Seq<char>>)
    requires
        lexemes_ok(ls),
    ensures
        split_spaces(joined(ls)) == ls,
    decreases ls.len(),
{
    if ls.len() == 0 {
        assert(split_spaces(joined(ls)) =~= ls);
    } else if ls.len() == 1 {
        let s = joined(ls);
        assert(lexeme_ok(ls[0]));
        lemma_first_space_none(s, 0);
        assert(split_spaces(s) =~= ls);
    } else {
        lemma_joined_front(ls);
        let s = joined(ls);
        let df = ls.drop_first();
        let k = ls[0].len() as int;
        assert(lexeme_ok(ls[0]));
        assert(s[k] == ' ');
        assert forall|m: int| 0 <= m < k implies s[m] != ' ' by {
            assert(s[m] == ls[0][m]);
        }
        lemma_first_space_at(s, 0, k);
        assert(s.subrange(0, k) =~= ls[0]);
        assert(s.subrange(k + 1, s.len() as int) =~= joined(df));
        lemma_split_joined(df);
        assert(split_spaces(s) =~= ls);
    }
}

proof fn lemma_wf_token_lexemes(t: TokenView)
    requires
        wf_token(t),
    ensures
        lexemes_ok(lexemes_of(t)),
    decreases t,
{
    match t {
        TokenView::Group(d, ch) => {
            lemma_wf_forest_lexemes(ch);
            assert forall|i: int| 0 <= i < lexemes_of(t).len() implies lexeme_ok(
                #[trigger] lexemes_of(t)[i],
            ) by {
                let o = open_lexemes(d);
                let m = seq_lexemes(ch);
                if i < o.len() {
                    assert(lexemes_of(t)[i] == o[i]);
                } else if i < o.len() + m.len() {
                    assert(lexemes_of(t)[i] == m[i - o.len()]);
                } else {
                    assert(lexemes_of(t)[i] == close_lexemes(d)[i - o.len() - m.len()]);
                }
            }
        },
        _ => {},
    }
}

proof fn lemma_wf_forest_lexemes(ts: Seq<TokenView>)
    requires
        wf_forest(ts),
    ensures
        lexemes_ok(seq_lexemes(ts)),
    decreases ts,
{
    if ts.len() > 0 {
        lemma_wf_forest_lexemes(ts.drop_last());
        lemma_wf_token_lexemes(ts.last());
        assert forall|i: int| 0 <= i < seq_lexemes(ts).len() implies lexeme_ok(
            #[trigger] seq_lexemes(ts)[i],
        ) by {
            let a = seq_lexemes(ts.drop_last());
            let b = lexemes_of(ts.last());
            if i < a.len() {
                assert(seq_lexemes(ts)[i] == a[i]);
            } else {
                assert(seq_lexemes(ts)[i] == b[i - a.len()]);
            }
        }
    }
}

/// The token-level fidelity of the rendering, at the character level: the
/// canonical text of a well-formed forest, read back by splitting on the
/// single joining spaces, yields exactly the forest's lexeme sequence — the
/// rendering loses no lexeme and invents none, so a tokenizer of the
/// canonical form sees precisely the serialized lexemes.
pub proof fn lemma_text_recovers_lexemes(ts: Seq<TokenView>)
    requires
        wf_forest(ts),
    ensures
        split_spaces(text_of(ts)) == seq_lexemes(ts),
{
    lemma_wf_forest_lexemes(ts);
    lemma_split_joined(seq_lexemes(ts));
}

/// The canonical text of a well-formed forest, read back as lexemes, has
/// balanced delimiters: every rendered capture closes each brace, bracket
/// and parenthesis it opens.
pub proof fn lemma_text_balanced(ts: Seq<TokenView>)
    requires
        wf_forest(ts),
    ensures
        balanced(split_spaces(text_of(ts))),
{
    lemma_text_recovers_lexemes(ts);
    lemma_forest_lexemes_balanced(ts);
}

/// The lexeme that opens or closes a group, recognized by its whole text.
pub open spec fn is_open_lexeme(l: Seq<char>) -> bool {
    l == seq!['('] || l == seq!['{'] || l == seq!['[']
}

/// The lexeme that closes a group.
pub open spec fn is_close_lexeme(l: Seq<char>) -> bool {
    l == seq![')'] || l == seq!['}'] || l == seq![']']
}

/// What a lexeme contributes to the delimiter balance.
pub open spec fn lex_delta(l: Seq<char>) -> int {
    if is_open_lexeme(l) {
        1
    } else if is_close_lexeme(l) {
        -1
    } else {
        0
    }
}

/// The delimiter balance of the first `i` lexemes.
pub open spec fn balance(ls: Seq<Seq<char>>, i: int) -> int
    decreases i,
{
    if i <= 0 {
        0
    } else {
        balance(ls, i - 1) + lex_delta(ls[i - 1])
    }
}

/// A balanced lexeme list: the whole list closes everything it opens, and no
/// prefix closes more than it has opened.
pub open spec fn balanced(ls: Seq<Seq<char>>) -> bool {
    balance(ls, ls.len() as int) == 0 && forall|i: int| 0 <= i <= ls.len() ==> balance(ls, i) >= 0
}

proof fn lemma_balance_prefix(a: Seq<Seq<char>>, b: Seq<Seq<char>>, i: int)
    requires
        0 <= i <= a.len(),
    ensures
        balance(a + b, i) == balance(a, i),
    decreases i,
{
    if i > 0 {
        lemma_balance_prefix(a, b, i - 1);
        assert((a + b)[i - 1] == a[i - 1]);
    }
}

proof fn lemma_balance_concat(a: Seq<Seq<char>>, b: Seq<Seq<char>>, k: int)
    requires
        0 <= k <= b.len(),
    ensures
        balance(a + b, a.len() + k) == balance(a, a.len() as int) + balance(b, k),
    decreases k,
{
    if k == 0 {
        lemma_balance_prefix(a, b, a.len() as int);
    } else {
        lemma_balance_concat(a, b, k - 1);
        assert((a + b)[a.len() + k - 1] == b[k - 1]);
    }
}

proof fn lemma_balanced_concat(a: Seq<Seq<char>>, b: Seq<Seq<char>>)
    requires
        balanced(a),
        balanced(b),
    ensures
        balanced(a + b),
{
    lemma_balance_concat(a, b, b.len() as int);
    assert forall|i: int| 0 <= i <= (a + b).len() implies balance(a + b, i) >= 0 by {
        if i <= a.len() {
            lemma_balance_prefix(a, b, i);
        } else {
            lemma_balance_concat(a, b, i - a.len());
        }
    }
}

proof fn lemma_delim_lexeme_chars()
    ensures
        seq!['('][0] == '(' && seq![')'][0] == ')',
        seq!['{'][0] == '{' && seq!['}'][0] == '}',
        seq!['['][0] == '[' && seq![']'][0] == ']',
{
}

/// A lexeme that does not open with a delimiter character leaves the balance
/// alone.
proof fn lemma_plain_delta(l: Seq<char>)
    requires
        l.len() > 0,
        !is_delim_char(l[0]),
    ensures
        lex_delta(l) == 0,
{
    lemma_delim_lexeme_chars();
}

/// A closing lexeme lowers the balance.
proof fn lemma_close_delta(l: Seq<char>)
    requires
        is_close_lexeme(l),
    ensures
        lex_delta(l) == -1,
{
    lemma_delim_lexeme_chars();
}

/// The delimiter lexemes of a visible delimiter, and what they contribute.
proof fn lemma_delim_delta(d: Delim)
    requires
        d != Delim::Invisible,
    ensures
        open_lexemes(d).len() == 1,
        close_lexemes(d).len() == 1,
        lex_delta(open_lexemes(d)[0]) == 1,
        lex_delta(close_lexemes(d)[0]) == -1,
        is_close_lexeme(close_lexemes(d)[0]),
        is_open_lexeme(open_lexemes(d)[0]),
{
    lemma_delim_lexeme_chars();
    match d {
        Delim::Paren => {
            assert(open_lexemes(d)[0] == seq!['(']);
            assert(close_lexemes(d)[0] == seq![')']);
        },
        Delim::Brace => {
            assert(open_lexemes(d)[0] == seq!['{']);
            assert(close_lexemes(d)[0] == seq!['}']);
        },
        Delim::Bracket => {
            assert(open_lexemes(d)[0] == seq!['[']);
            assert(close_lexemes(d)[0] == seq![']']);
        },
        Delim::Invisible => {},
    }
}

/// The lexemes of one well-formed token open and close their delimiters in
/// matched pairs.
pub proof fn lemma_token_lexemes_balanced(t: TokenView)
    requires
        wf_token(t),
    ensures
        balanced(lexemes_of(t)),
    decreases t,
{
    match t {
        TokenView::Group(d, ch) => {
            lemma_forest_lexemes_balanced(ch);
            lemma_delim_delta(d);
            let o = open_lexemes(d);
            let m = seq_lexemes(ch);
            let cl = close_lexemes(d);
            assert(balance(o, 0) == 0);
            assert(balance(o, 1) == 1);
            assert forall|i: int| 0 <= i <= (o + m).len() implies balance(o + m, i) >= 0 by {
                if i == 0 {
                    assert(balance(o + m, 0) == 0);
                } else if i == 1 {
                    lemma_balance_concat(o, m, 0);
                    assert(balance(o + m, 1) == 1);
                } else {
                    lemma_balance_concat(o, m, i - 1);
                }
            }
            lemma_balance_concat(o, m, m.len() as int);
            assert(balance(o + m, (o + m).len() as int) == 1);
            assert forall|i: int| 0 <= i <= (o + m + cl).len() implies balance(o + m + cl, i)
                >= 0 by {
                if i <= (o + m).len() {
                    lemma_balance_prefix(o + m, cl, i);
                } else {
                    lemma_balance_concat(o + m, cl, i - (o + m).len());
                    assert(balance(cl, 0) == 0);
                    assert(balance(cl, 1) == -1);
                }
            }
            lemma_balance_concat(o + m, cl, 1);
            assert(balance(cl, 0) == 0);
            assert(balance(cl, 1) == -1);
            assert(balance(o + m + cl, (o + m + cl).len() as int) == 0);
            assert(lexemes_of(t) == o + m + cl);
        },
        TokenView::Ident(s) => {
            assert(!is_delim_char(s[0]));
            lemma_plain_delta(s);
            assert(balance(lexemes_of(t), 0) == 0);
            assert(balance(lexemes_of(t), 1) == 0);
        },
        TokenView::Punct(ch) => {
            assert(seq![ch][0] == ch);
            assert(!is_delim_char(ch));
            lemma_plain_delta(seq![ch]);
            assert(balance(lexemes_of(t), 0) == 0);
            assert(balance(lexemes_of(t), 1) == 0);
        },
        TokenView::Literal(s) => {
            assert(!is_delim_char(s[0]));
            lemma_plain_delta(s);
            assert(balance(lexemes_of(t), 0) == 0);
            assert(balance(lexemes_of(t), 1) == 0);
        },
    }
}

/// The lexemes of a well-formed forest are balanced: the whole sequence
/// closes every delimiter it opens, and no prefix closes more than it has
/// opened.
pub proof fn lemma_forest_lexemes_balanced(ts: Seq<TokenView>)
    requires
        wf_forest(ts),
    ensures
        balanced(seq_lexemes(ts)),
    decreases ts,
{
    if ts.len() == 0 {
    } else {
        lemma_forest_lexemes_balanced(ts.drop_last());
        lemma_token_lexemes_balanced(ts.last());
        lemma_balanced_concat(seq_lexemes(ts.drop_last()), lexemes_of(ts.last()));
    }
}

proof fn lemma_close_not_shorter(
    a: Seq<Seq<char>>,
    b: Seq<Seq<char>>,
    x: Seq<char>,
    ra: Seq<Seq<char>>,
    y: Seq<char>,
    rb: Seq<Seq<char>>,
)
    requires
        a + seq![x] + ra == b + seq![y] + rb,
        balanced(a),
        balanced(b),
        is_close_lexeme(x),
    ensures
        a.len() >= b.len(),
{
    if a.len() < b.len() {
        let whole = a + seq![x] + ra;
        assert(whole =~= a + (seq![x] + ra));
        lemma_balance_concat(a, seq![x] + ra, 1);
        assert((seq![x] + ra)[0] == x);
        lemma_close_delta(x);
        assert(balance(seq![x] + ra, 0) == 0);
        assert(balance(seq![x] + ra, 1) == -1);
        assert(balance(a + (seq![x] + ra), a.len() + 1int) == -1);
        assert(balance(whole, a.len() + 1int) == -1);
        lemma_balance_prefix(b, seq![y] + rb, a.len() + 1int);
        assert(whole =~= b + (seq![y] + rb));
        assert(balance(whole, a.len() + 1int) == balance(b, a.len() + 1int));
        assert(false);
    }
}

proof fn lemma_unique_close_split(
    a: Seq<Seq<char>>,
    b: Seq<Seq<char>>,
    x: Seq<char>,
    ra: Seq<Seq<char>>,
    y: Seq<char>,
    rb: Seq<Seq<char>>,
)
    requires
        a + seq![x] + ra == b + seq![y] + rb,
        balanced(a),
        balanced(b),
        is_close_lexeme(x),
        is_close_lexeme(y),
    ensures
        a == b,
        x == y,
        ra == rb,
{
    lemma_close_not_shorter(a, b, x, ra, y, rb);
    lemma_close_not_shorter(b, a, y, rb, x, ra);
    {
        let la = a + seq![x] + ra;
        let lb = b + seq![y] + rb;
        assert forall|i: int| 0 <= i < a.len() implies a[i] == b[i] by {
            assert(la[i] == a[i]);
            assert(lb[i] == b[i]);
        }
        assert(a =~= b);
        assert(la[a.len() as int] == x);
        assert(lb[a.len() as int] == y);
        assert(la.len() == a.len() + 1 + ra.len());
        assert(lb.len() == b.len() + 1 + rb.len());
        assert(ra.len() == rb.len());
        assert forall|i: int| 0 <= i < ra.len() implies ra[i] == rb[i] by {
            assert(la[a.len() + 1 + i] == ra[i]);
            assert(lb[a.len() + 1 + i] == rb[i]);
        }
        assert(ra =~= rb);
    }
}

proof fn lemma_seq_lexemes_front(ts: Seq<TokenView>)
    requires
        ts.len() > 0,
    ensures
        seq_lexemes(ts) == lexemes_of(ts[0]) + seq_lexemes(ts.drop_first()),
    decreases ts.len(),
{
    let dl = ts.drop_last();
    let df = ts.drop_first();
    if ts.len() == 1 {
        assert(seq_lexemes(ts.drop_last()) =~= Seq::<Seq<char>>::empty());
        assert(seq_lexemes(df) =~= Seq::<Seq<char>>::empty());
        assert(ts.last() == ts[0]);
        assert(seq_lexemes(ts) =~= lexemes_of(ts[0]) + seq_lexemes(df));
    } else {
        lemma_seq_lexemes_front(dl);
        assert(df.drop_last() =~= dl.drop_first());
        assert(seq_lexemes(ts) == seq_lexemes(dl) + lexemes_of(ts.last()));
        assert(seq_lexemes(dl) == lexemes_of(ts[0]) + seq_lexemes(df.drop_last()));
        assert(seq_lexemes(df) == seq_lexemes(df.drop_last()) + lexemes_of(df.last()));
        assert(df.last() == ts.last());
        assert(seq_lexemes(ts) =~= lexemes_of(ts[0]) + seq_lexemes(df));
    }
}

proof fn lemma_wf_forest_front(ts: Seq<TokenView>)
    requires
        ts.len() > 0,
        wf_forest(ts),
    ensures
        wf_token(ts[0]),
        wf_forest(ts.drop_first()),
    decreases ts.len(),
{
    let dl = ts.drop_last();
    let df = ts.drop_first();
    if ts.len() == 1 {
        assert(wf_forest(df));
    } else {
        lemma_wf_forest_front(dl);
        assert(dl[0] == ts[0]);
        assert(df.drop_last() =~= dl.drop_first());
        assert(df.last() == ts.last());
        assert(wf_forest(df));
    }
}

proof fn lemma_wf_token_lexemes_nonempty(t: TokenView)
    requires
        wf_token(t),
    ensures
        lexemes_of(t).len() > 0,
{
}

proof fn lemma_token_lexemes_inj(ta: TokenView, tb: TokenView, ra: Seq<Seq<char>>, rb: Seq<
    Seq<char>,
>)
    requires
        wf_token(ta),
        wf_token(tb),
        lexemes_of(ta) + ra == lexemes_of(tb) + rb,
    ensures
        ta == tb,
        ra == rb,
    decreases ta,
{
    let la = lexemes_of(ta);
    let lb = lexemes_of(tb);
    lemma_wf_token_lexemes_nonempty(ta);
    lemma_wf_token_lexemes_nonempty(tb);
    let l0 = (la + ra)[0];
    assert(l0 == la[0]);
    assert(l0 == lb[0]);
    match ta {
        TokenView::Group(da, cha) => {
            assert(la[0] == open_lexemes(da)[0]);
            match tb {
                TokenView::Group(db, chb) => {
                    assert(lb[0] == open_lexemes(db)[0]);
                    if da != db {
                        assert(open_lexemes(da)[0][0] != open_lexemes(db)[0][0]);
                    }
                    assert(da == db);
                    lemma_token_lexemes_balanced(ta);
                    lemma_token_lexemes_balanced(tb);
                    lemma_forest_lexemes_balanced(cha);
                    lemma_forest_lexemes_balanced(chb);
                    let ma = seq_lexemes(cha);
                    let mb = seq_lexemes(chb);
                    let close = close_lexemes(da)[0];
                    assert(la + ra =~= seq![l0] + (ma + seq![close] + ra));
                    assert(lb + rb =~= seq![l0] + (mb + seq![close] + rb));
                    assert forall|i: int| 0 <= i < (ma + seq![close] + ra).len() implies (ma
                        + seq![close] + ra)[i] == (mb + seq![close] + rb)[i] by {
                        assert((seq![l0] + (ma + seq![close] + ra))[i + 1] == (ma + seq![close]
                            + ra)[i]);
                        assert((seq![l0] + (mb + seq![close] + rb))[i + 1] == (mb + seq![close]
                            + rb)[i]);
                    }
                    assert(ma + seq![close] + ra =~= mb + seq![close] + rb);
                    assert(is_close_lexeme(close));
                    lemma_unique_close_split(ma, mb, close, ra, close, rb);
                    assert(decreases_to!(ta => cha));
                    lemma_forest_lexemes_inj(cha, chb);
                    assert(ta == tb);
                },
                TokenView::Ident(sb) => {
                    assert(is_ident_start(sb[0]));
                    assert(l0[0] == sb[0]);
                    assert(false);
                },
                TokenView::Punct(cb) => {
                    assert(l0 == seq![cb]);
                    assert(is_delim_char(l0[0]));
                    assert(false);
                },
                TokenView::Literal(sb) => {
                    assert(is_lit_start(sb[0]));
                    assert(l0[0] == sb[0]);
                    assert(false);
                },
            }
        },
        TokenView::Ident(sa) => {
            match tb {
                TokenView::Ident(sb) => {
                    assert(sa == l0 && sb == l0);
                    assert((la + ra).len() == la.len() + ra.len());
                    assert((lb + rb).len() == lb.len() + rb.len());
                    assert(ra.len() == rb.len());
                    assert forall|i: int| 0 <= i < ra.len() implies ra[i] == rb[i] by {
                        assert((la + ra)[1 + i] == ra[i]);
                        assert((lb + rb)[1 + i] == rb[i]);
                    }
                    assert(ra =~= rb);
                },
                TokenView::Group(db, chb) => {
                    assert(l0 == open_lexemes(db)[0]);
                    assert(is_delim_char(l0[0]));
                    assert(is_ident_start(sa[0]));
                    assert(false);
                },
                TokenView::Punct(cb) => {
                    assert(l0 == seq![cb]);
                    assert(is_punct_char(l0[0]));
                    assert(is_ident_start(sa[0]));
                    assert(false);
                },
                TokenView::Literal(sb) => {
                    assert(is_lit_start(sb[0]));
                    assert(is_ident_start(sa[0]));
                    assert(false);
                },
            }
        },
        TokenView::Punct(ca) => {
            match tb {
                TokenView::Punct(cb) => {
                    assert(seq![ca] == l0 && seq![cb] == l0);
                    assert(ca == l0[0] && cb == l0[0]);
                    assert((la + ra).len() == la.len() + ra.len());
                    assert((lb + rb).len() == lb.len() + rb.len());
                    assert(ra.len() == rb.len());
                    assert forall|i: int| 0 <= i < ra.len() implies ra[i] == rb[i] by {
                        assert((la + ra)[1 + i] == ra[i]);
                        assert((lb + rb)[1 + i] == rb[i]);
                    }
                    assert(ra =~= rb);
                },
                TokenView::Group(db, chb) => {
                    assert(l0 == open_lexemes(db)[0]);
                    assert(is_delim_char(l0[0]));
                    assert(is_punct_char(ca) && ca == l0[0]);
                    assert(false);
                },
                TokenView::Ident(sb) => {
                    assert(is_ident_start(sb[0]) && sb == l0);
                    assert(is_punct_char(ca) && ca == l0[0]);
                    assert(false);
                },
                TokenView::Literal(sb) => {
                    assert(is_lit_start(sb[0]) && sb == l0);
                    assert(is_punct_char(ca) && ca == l0[0]);
                    assert(false);
                },
            }
        },
        TokenView::Literal(sa) => {
            match tb {
                TokenView::Literal(sb) => {
                    assert(sa == l0 && sb == l0);
                    assert((la + ra).len() == la.len() + ra.len());
                    assert((lb + rb).len() == lb.len() + rb.len());
                    assert(ra.len() == rb.len());
                    assert forall|i: int| 0 <= i < ra.len() implies ra[i] == rb[i] by {
                        assert((la + ra)[1 + i] == ra[i]);
                        assert((lb + rb)[1 + i] == rb[i]);
                    }
                    assert(ra =~= rb);
                },
                TokenView::Group(db, chb) => {
                    assert(l0 == open_lexemes(db)[0]);
                    assert(is_delim_char(l0[0]));
                    assert(is_lit_start(sa[0]));
                    assert(false);
                },
                TokenView::Ident(sb) => {
                    assert(is_ident_start(sb[0]));
                    assert(is_lit_start(sa[0]));
                    assert(false);
                },
                TokenView::Punct(cb) => {
                    assert(l0 == seq![cb]);
                    assert(is_punct_char(l0[0]));
                    assert(is_lit_start(sa[0]));
                    assert(false);
                },
            }
        },
    }
}

proof fn lemma_forest_lexemes_inj(a: Seq<TokenView>, b: Seq<TokenView>)
    requires
        wf_forest(a),
        wf_forest(b),
        seq_lexemes(a) == seq_lexemes(b),
    ensures
        a == b,
    decreases a,
{
    if a.len() == 0 {
        if b.len() > 0 {
            lemma_wf_forest_front(b);
            lemma_seq_lexemes_front(b);
            lemma_wf_token_lexemes_nonempty(b[0]);
        }
        assert(a =~= b);
    } else {
        lemma_wf_forest_front(a);
        lemma_seq_lexemes_front(a);
        if b.len() == 0 {
            lemma_wf_token_lexemes_nonempty(a[0]);
        }
        lemma_wf_forest_front(b);
        lemma_seq_lexemes_front(b);
        assert(decreases_to!(a => a[0]));
        lemma_token_lexemes_inj(a[0], b[0], seq_lexemes(a.drop_first()), seq_lexemes(
            b.drop_first(),
        ));
        assert(decreases_to!(a => a.drop_first()));
        lemma_forest_lexemes_inj(a.drop_first(), b.drop_first());
        assert(a.len() == b.len());
        assert forall|i: int| 0 <= i < a.len() implies a[i] == b[i] by {
            if i > 0 {
                assert(a.drop_first()[i - 1] == a[i]);
                assert(b.drop_first()[i - 1] == b[i]);
            }
        }
        assert(a =~= b);
    }
}

/// Token-level fidelity of the rendering, at the tree level: two well-formed
/// forests with the same canonical text are the same forest. Serialization
/// loses no structure, so re-tokenizing a rendered slice can only rebuild the
/// very tokens that were captured.
pub proof fn lemma_text_identifies_forest(a: Seq<TokenView>, b: Seq<TokenView>)
    requires
        wf_forest(a),
        wf_forest(b),
        text_of(a) == text_of(b),
    ensures
        a == b,
{
    lemma_text_recovers_lexemes(a);
    lemma_text_recovers_lexemes(b);
    lemma_forest_lexemes_inj(a, b);
}

proof fn lemma_wf_forest_last(ts: Seq<TokenView>, i: int)
    requires
        wf_forest(ts),
        0 <= i < ts.len(),
    ensures
        wf_token(ts[i]),
    decreases ts,
{
    if i < ts.len() - 1 {
        lemma_wf_forest_last(ts.drop_last(), i);
    }
}

proof fn lemma_wf_forest_build(ts: Seq<TokenView>)
    requires
        forall|i: int| 0 <= i < ts.len() ==> wf_token(#[trigger] ts[i]),
    ensures
        wf_forest(ts),
    decreases ts,
{
    if ts.len() > 0 {
        lemma_wf_forest_build(ts.drop_last());
    }
}

/// A forest is well formed exactly when each of its tokens is: the form in
/// which well-formedness carries over to every slice a locator captures.
pub proof fn lemma_wf_forest_iff(ts: Seq<TokenView>)
    ensures
        wf_forest(ts) <==> (forall|i: int| 0 <= i < ts.len() ==> wf_token(#[trigger] ts[i])),
{
    if wf_forest(ts) {
        assert forall|i: int| 0 <= i < ts.len() implies wf_token(#[trigger] ts[i]) by {
            lemma_wf_forest_last(ts, i);
        }
    }
    if forall|i: int| 0 <= i < ts.len() ==> wf_token(#[trigger] ts[i]) {
        lemma_wf_forest_build(ts);
    }
}

/// A slice of a well-formed forest is well formed; in particular every
/// capture the locators cut out of a well-formed sibling sequence is.
pub proof fn lemma_wf_subrange(ts: Seq<TokenView>, a: int, b: int)
    requires
        wf_forest(ts),
        0 <= a <= b <= ts.len(),
    ensures
        wf_forest(ts.subrange(a, b)),
{
    lemma_wf_forest_iff(ts);
    lemma_wf_forest_iff(ts.subrange(a, b));
}

} // verus!
