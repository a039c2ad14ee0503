//! The general laws of the locators: what every search returns when the
//! requested name is absent, the exact shape of every capture, the pre-order
//! precedence of nested matches, and the resume-after-rejection rule of the
//! filtered interface-implementation search.

use vstd::prelude::*;

use crate::locate::{
    brace_end, fn_search, fn_trigger, impl_search, impl_step, last_impl_index, struct_capture_end,
    struct_search, struct_trigger, trim_to_impl, ImplMode,
};
use crate::ser::{balanced, lemma_text_balanced, lemma_wf_forest_iff, lemma_wf_subrange, split_spaces, text_of, wf_forest, wf_token};
use crate::token::{is_ident_named, Delim, TokenView};

verus! {

broadcast use vstd::seq::group_seq_axioms;

/// True iff an identifier with this exact text occurs anywhere in the tree.
pub open spec fn token_mentions(t: TokenView, name: Seq<char>) -> bool
    decreases t,
{
    match t {
        TokenView::Ident(s) => s == name,
        TokenView::Group(d, ch) => mentions(ch, name),
        _ => false,
    }
}

/// True iff an identifier with this exact text occurs anywhere in the forest.
pub open spec fn mentions(ts: Seq<TokenView>, name: Seq<char>) -> bool
    decreases ts,
{
    if ts.len() == 0 {
        false
    } else {
        mentions(ts.drop_last(), name) || token_mentions(ts.last(), name)
    }
}

proof fn lemma_mentions_at(ts: Seq<TokenView>, name: Seq<char>, i: int)
    requires
        0 <= i < ts.len(),
        !mentions(ts, name),
    ensures
        !token_mentions(ts[i], name),
    decreases ts,
{
    if i < ts.len() - 1 {
        lemma_mentions_at(ts.drop_last(), name, i);
    }
}

proof fn lemma_absent_struct(name: Seq<char>, ts: Seq<TokenView>, i: int)
    requires
        !mentions(ts, name),
    ensures
        struct_search(name, ts, i) is None,
    decreases ts, ts.len() - i,
{
    if 0 <= i < ts.len() {
        lemma_mentions_at(ts, name, i);
        if ts[i] is Group {
            assert(decreases_to!(ts => ts[i]));
            assert(decreases_to!(ts[i] => ts[i]->Group_1));
            lemma_absent_struct(name, ts[i]->Group_1, 0);
            lemma_absent_struct(name, ts, i + 1);
        } else if struct_trigger(name, ts, i) {
            lemma_mentions_at(ts, name, i + 1);
            assert(false);
        } else {
            lemma_absent_struct(name, ts, i + 1);
        }
    }
}

proof fn lemma_absent_fn(name: Seq<char>, ts: Seq<TokenView>, i: int)
    requires
        !mentions(ts, name),
    ensures
        fn_search(name, ts, i) is None,
    decreases ts, ts.len() - i,
{
    if 0 <= i < ts.len() {
        lemma_mentions_at(ts, name, i);
        if ts[i] is Group {
            assert(decreases_to!(ts => ts[i]));
            assert(decreases_to!(ts[i] => ts[i]->Group_1));
            lemma_absent_fn(name, ts[i]->Group_1, 0);
            lemma_absent_fn(name, ts, i + 1);
        } else if fn_trigger(name, ts, i) {
            lemma_mentions_at(ts, name, i + 1);
            assert(false);
        } else {
            lemma_absent_fn(name, ts, i + 1);
        }
    }
}

proof fn lemma_absent_impl(
    name: Seq<char>,
    filter: Option<Seq<char>>,
    ts: Seq<TokenView>,
    i: int,
    mode: ImplMode,
    buf: Seq<TokenView>,
)
    requires
        !mentions(ts, name),
        mode == ImplMode::Walk || mode == ImplMode::SeekName,
    ensures
        impl_step(name, filter, ts, i, mode, buf) is None,
    decreases ts, ts.len() - i,
{
    if 0 <= i < ts.len() {
        lemma_mentions_at(ts, name, i);
        if ts[i] is Group {
            assert(decreases_to!(ts => ts[i]));
            assert(decreases_to!(ts[i] => ts[i]->Group_1));
            lemma_absent_impl(name, filter, ts[i]->Group_1, 0, ImplMode::Walk, Seq::empty());
            lemma_absent_impl(name, filter, ts, i + 1, mode, buf);
        } else if mode == ImplMode::Walk {
            if is_ident_named(ts[i], "impl"@) {
                lemma_absent_impl(name, filter, ts, i + 1, ImplMode::SeekName, seq![ts[i]]);
            } else {
                lemma_absent_impl(name, filter, ts, i + 1, ImplMode::Walk, buf);
            }
        } else {
            assert(!is_ident_named(ts[i], name));
            lemma_absent_impl(name, filter, ts, i + 1, ImplMode::SeekName, buf.push(ts[i]));
        }
    }
}

/// For any well-formed token forest and any name absent from it, each locator
/// reports that nothing was found.
pub proof fn lemma_absent_name_not_found(
    name: Seq<char>,
    filter: Option<Seq<char>>,
    ts: Seq<TokenView>,
)
    requires
        !mentions(ts, name),
    ensures
        struct_search(name, ts, 0) is None,
        fn_search(name, ts, 0) is None,
        impl_search(name, filter, ts) is None,
{
    lemma_absent_struct(name, ts, 0);
    lemma_absent_fn(name, ts, 0);
    lemma_absent_impl(name, filter, ts, 0, ImplMode::Walk, Seq::empty());
}

proof fn lemma_struct_capture_end_props(ts: Seq<TokenView>, j0: int, j: int)
    requires
        struct_capture_end(ts, j0) == Some(j),
    ensures
        j0 <= j < ts.len(),
        ts[j] is Group || ts[j] == TokenView::Punct(';'),
        forall|k: int|
            j0 <= k < j ==> !(#[trigger] ts[k] is Group) && ts[k] != TokenView::Punct(';'),
    decreases ts.len() - j0,
{
    if 0 <= j0 < ts.len() {
        if ts[j0] is Group || ts[j0] == TokenView::Punct(';') {
        } else {
            lemma_struct_capture_end_props(ts, j0 + 1, j);
        }
    }
}

/// The shape of every type-definition capture: it starts with the keyword
/// and the requested name, it ends with the field or variant list or with a
/// `;`, and no group stands before that terminal (so a `;`-terminated
/// capture contains no group at all).
pub proof fn lemma_struct_capture_shape(name: Seq<char>, ts: Seq<TokenView>, i: int, r: Seq<
    TokenView,
>)
    requires
        struct_search(name, ts, i) == Some(r),
    ensures
        r.len() >= 3,
        is_ident_named(r[0], "struct"@),
        is_ident_named(r[1], name),
        r.last() is Group || r.last() == TokenView::Punct(';'),
        forall|k: int| 0 <= k < r.len() - 1 ==> !(#[trigger] r[k] is Group),
    decreases ts, ts.len() - i,
{
    if 0 <= i < ts.len() {
        if ts[i] is Group {
            assert(decreases_to!(ts => ts[i]));
            assert(decreases_to!(ts[i] => ts[i]->Group_1));
            if struct_search(name, ts[i]->Group_1, 0) is Some {
                lemma_struct_capture_shape(name, ts[i]->Group_1, 0, r);
            } else {
                lemma_struct_capture_shape(name, ts, i + 1, r);
            }
        } else if struct_trigger(name, ts, i) {
            let j = struct_capture_end(ts, i + 2).unwrap();
            lemma_struct_capture_end_props(ts, i + 2, j);
            assert forall|k: int| 0 <= k < r.len() - 1 implies !(#[trigger] r[k] is Group) by {
                assert(r[k] == ts[i + k]);
            }
        } else {
            lemma_struct_capture_shape(name, ts, i + 1, r);
        }
    }
}

proof fn lemma_brace_end_props(ts: Seq<TokenView>, j0: int, j: int)
    requires
        brace_end(ts, j0) == Some(j),
    ensures
        j0 <= j < ts.len(),
        ts[j] is Group && ts[j]->Group_0 == Delim::Brace,
        forall|k: int|
            j0 <= k < j ==> !((#[trigger] ts[k] is Group) && ts[k]->Group_0 == Delim::Brace),
    decreases ts.len() - j0,
{
    if 0 <= j0 < ts.len() {
        if ts[j0] is Group && ts[j0]->Group_0 == Delim::Brace {
        } else {
            lemma_brace_end_props(ts, j0 + 1, j);
        }
    }
}

/// The shape of every function capture: it starts with the keyword and the
/// requested name, collects everything up to the body, and ends with the
/// first brace-delimited group.
pub proof fn lemma_fn_capture_shape(name: Seq<char>, ts: Seq<TokenView>, i: int, r: Seq<TokenView>)
    requires
        fn_search(name, ts, i) == Some(r),
    ensures
        r.len() >= 3,
        is_ident_named(r[0], "fn"@),
        is_ident_named(r[1], name),
        r.last() is Group && r.last()->Group_0 == Delim::Brace,
        forall|k: int|
            0 <= k < r.len() - 1 ==> !((#[trigger] r[k] is Group) && r[k]->Group_0 == Delim::Brace),
    decreases ts, ts.len() - i,
{
    if 0 <= i < ts.len() {
        if ts[i] is Group {
            assert(decreases_to!(ts => ts[i]));
            assert(decreases_to!(ts[i] => ts[i]->Group_1));
            if fn_search(name, ts[i]->Group_1, 0) is Some {
                lemma_fn_capture_shape(name, ts[i]->Group_1, 0, r);
            } else {
                lemma_fn_capture_shape(name, ts, i + 1, r);
            }
        } else if fn_trigger(name, ts, i) {
            let j = brace_end(ts, i + 2).unwrap();
            lemma_brace_end_props(ts, i + 2, j);
            assert forall|k: int| 0 <= k < r.len() - 1 implies !((#[trigger] r[k] is Group)
                && r[k]->Group_0 == Delim::Brace) by {
                assert(r[k] == ts[i + k]);
            }
        } else {
            lemma_fn_capture_shape(name, ts, i + 1, r);
        }
    }
}

proof fn lemma_last_impl_props(b: Seq<TokenView>, k: int)
    requires
        0 <= k < b.len(),
        is_ident_named(b[0], "impl"@),
    ensures
        0 <= last_impl_index(b, k) <= k,
        is_ident_named(b[last_impl_index(b, k)], "impl"@),
    decreases k,
{
    if k > 0 && !is_ident_named(b[k], "impl"@) {
        lemma_last_impl_props(b, k - 1);
    }
}

proof fn lemma_impl_step_shape(
    name: Seq<char>,
    filter: Option<Seq<char>>,
    ts: Seq<TokenView>,
    i: int,
    mode: ImplMode,
    buf: Seq<TokenView>,
    r: Seq<TokenView>,
)
    requires
        impl_step(name, filter, ts, i, mode, buf) == Some(r),
        mode != ImplMode::Walk ==> buf.len() > 0 && is_ident_named(buf[0], "impl"@),
    ensures
        r.len() >= 2,
        is_ident_named(r[0], "impl"@),
        r.last() is Group && r.last()->Group_0 == Delim::Brace,
    decreases ts, ts.len() - i,
{
    if 0 <= i < ts.len() {
        let t = ts[i];
        match mode {
            ImplMode::Walk => {
                if t is Group {
                    assert(decreases_to!(ts => ts[i]));
                    assert(decreases_to!(ts[i] => ts[i]->Group_1));
                    if impl_step(name, filter, t->Group_1, 0, ImplMode::Walk, Seq::empty())
                        is Some {
                        lemma_impl_step_shape(
                            name,
                            filter,
                            t->Group_1,
                            0,
                            ImplMode::Walk,
                            Seq::empty(),
                            r,
                        );
                    } else {
                        lemma_impl_step_shape(name, filter, ts, i + 1, ImplMode::Walk, buf, r);
                    }
                } else if is_ident_named(t, "impl"@) {
                    lemma_impl_step_shape(name, filter, ts, i + 1, ImplMode::SeekName, seq![t], r);
                } else {
                    lemma_impl_step_shape(name, filter, ts, i + 1, ImplMode::Walk, buf, r);
                }
            },
            ImplMode::SeekName => {
                if t is Group {
                    assert(decreases_to!(ts => ts[i]));
                    assert(decreases_to!(ts[i] => ts[i]->Group_1));
                    if impl_step(name, filter, t->Group_1, 0, ImplMode::Walk, Seq::empty())
                        is Some {
                        lemma_impl_step_shape(
                            name,
                            filter,
                            t->Group_1,
                            0,
                            ImplMode::Walk,
                            Seq::empty(),
                            r,
                        );
                    } else {
                        lemma_impl_step_shape(name, filter, ts, i + 1, ImplMode::SeekName, buf, r);
                    }
                } else if is_ident_named(t, name) {
                    lemma_impl_step_shape(
                        name,
                        filter,
                        ts,
                        i + 1,
                        ImplMode::SeekFor,
                        buf.push(t),
                        r,
                    );
                } else {
                    lemma_impl_step_shape(
                        name,
                        filter,
                        ts,
                        i + 1,
                        ImplMode::SeekName,
                        buf.push(t),
                        r,
                    );
                }
            },
            ImplMode::SeekFor => {
                if is_ident_named(t, "for"@) {
                    match filter {
                        Some(f) => {
                            if i + 1 < ts.len() && is_ident_named(ts[i + 1], f) {
                                lemma_impl_step_shape(
                                    name,
                                    filter,
                                    ts,
                                    i + 1,
                                    ImplMode::Grab,
                                    buf.push(t),
                                    r,
                                );
                            } else {
                                lemma_impl_step_shape(
                                    name,
                                    filter,
                                    ts,
                                    i + 1,
                                    ImplMode::SeekName,
                                    buf.push(t),
                                    r,
                                );
                            }
                        },
                        None => {
                            lemma_impl_step_shape(
                                name,
                                filter,
                                ts,
                                i + 1,
                                ImplMode::Grab,
                                buf.push(t),
                                r,
                            );
                        },
                    }
                } else {
                    lemma_impl_step_shape(name, filter, ts, i + 1, ImplMode::SeekFor, buf.push(t), r);
                }
            },
            ImplMode::Grab => {
                if t is Group && t->Group_0 == Delim::Brace {
                    let b = buf.push(t);
                    assert(b[0] == buf[0]);
                    lemma_last_impl_props(b, b.len() - 1);
                    let li = last_impl_index(b, b.len() - 1);
                    assert(li != b.len() - 1);
                    assert(r == b.subrange(li, b.len() as int));
                    assert(r[0] == b[li]);
                    assert(r.last() == b.last());
                } else {
                    lemma_impl_step_shape(name, filter, ts, i + 1, ImplMode::Grab, buf.push(t), r);
                }
            },
        }
    }
}

/// The shape of every interface-implementation capture: after the final
/// trim, the returned slice begins exactly at the implementation keyword and
/// ends with the brace-delimited implementation body.
pub proof fn lemma_impl_capture_shape(
    name: Seq<char>,
    filter: Option<Seq<char>>,
    ts: Seq<TokenView>,
    r: Seq<TokenView>,
)
    requires
        impl_search(name, filter, ts) == Some(r),
    ensures
        r.len() >= 2,
        is_ident_named(r[0], "impl"@),
        r.last() is Group && r.last()->Group_0 == Delim::Brace,
{
    lemma_impl_step_shape(name, filter, ts, 0, ImplMode::Walk, Seq::empty(), r);
}

/// Pre-order precedence: when a group at position `i` holds a match and no
/// earlier sibling is a group or a trigger, the search returns that nested
/// match, whatever stands after position `i` — in particular, a same-named
/// top-level definition later in the stream loses to the nested one.
pub proof fn lemma_nested_match_wins(name: Seq<char>, ts: Seq<TokenView>, i: int, r: Seq<TokenView>)
    requires
        0 <= i < ts.len(),
        ts[i] is Group,
        struct_search(name, ts[i]->Group_1, 0) == Some(r),
        forall|j: int|
            0 <= j < i ==> !(#[trigger] ts[j] is Group) && !struct_trigger(name, ts, j),
    ensures
        struct_search(name, ts, 0) == Some(r),
{
    lemma_nested_match_wins_from(name, ts, 0, i, r);
}

proof fn lemma_nested_match_wins_from(
    name: Seq<char>,
    ts: Seq<TokenView>,
    from: int,
    i: int,
    r: Seq<TokenView>,
)
    requires
        0 <= from <= i < ts.len(),
        ts[i] is Group,
        struct_search(name, ts[i]->Group_1, 0) == Some(r),
        forall|j: int|
            from <= j < i ==> !(#[trigger] ts[j] is Group) && !struct_trigger(name, ts, j),
    ensures
        struct_search(name, ts, from) == Some(r),
    decreases i - from,
{
    if from == i {
    } else {
        lemma_nested_match_wins_from(name, ts, from + 1, i, r);
    }
}

/// The rejection-resume rule: with an implementing-type filter, an interface
/// occurrence whose following-type token differs from the filter is rejected,
/// and the scan resumes from the token immediately after the keyword — it
/// does not restart from the top of the tree.
pub proof fn lemma_filter_mismatch_resumes(
    name: Seq<char>,
    f: Seq<char>,
    ts: Seq<TokenView>,
    i: int,
    buf: Seq<TokenView>,
)
    requires
        0 <= i < ts.len(),
        is_ident_named(ts[i], "for"@),
        !(i + 1 < ts.len() && is_ident_named(ts[i + 1], f)),
    ensures
        impl_step(name, Some(f), ts, i, ImplMode::SeekFor, buf) == impl_step(
            name,
            Some(f),
            ts,
            i + 1,
            ImplMode::SeekName,
            buf.push(ts[i]),
        ),
{
}

proof fn lemma_wf_push(b: Seq<TokenView>, t: TokenView)
    requires
        wf_forest(b),
        wf_token(t),
    ensures
        wf_forest(b.push(t)),
{
    assert(b.push(t).drop_last() =~= b);
}

proof fn lemma_wf_single(t: TokenView)
    requires
        wf_token(t),
    ensures
        wf_forest(seq![t]),
{
    assert(seq![t].drop_last() =~= Seq::<TokenView>::empty());
    assert(wf_forest(Seq::<TokenView>::empty()));
}

proof fn lemma_last_impl_bounds(b: Seq<TokenView>, k: int)
    requires
        0 <= k,
    ensures
        0 <= last_impl_index(b, k) <= k,
    decreases k,
{
    if k > 0 && !(k < b.len() && is_ident_named(b[k], "impl"@)) {
        lemma_last_impl_bounds(b, k - 1);
    }
}

/// A type-definition capture cut out of a well-formed tree is well formed,
/// so its canonical text identifies it among all well-formed forests.
pub proof fn lemma_struct_capture_wf(name: Seq<char>, ts: Seq<TokenView>, i: int, r: Seq<
    TokenView,
>)
    requires
        wf_forest(ts),
        struct_search(name, ts, i) == Some(r),
    ensures
        wf_forest(r),
    decreases ts, ts.len() - i,
{
    if 0 <= i < ts.len() {
        lemma_wf_forest_iff(ts);
        if ts[i] is Group {
            assert(decreases_to!(ts => ts[i]));
            assert(decreases_to!(ts[i] => ts[i]->Group_1));
            if struct_search(name, ts[i]->Group_1, 0) is Some {
                lemma_struct_capture_wf(name, ts[i]->Group_1, 0, r);
            } else {
                lemma_struct_capture_wf(name, ts, i + 1, r);
            }
        } else if struct_trigger(name, ts, i) {
            let j = struct_capture_end(ts, i + 2).unwrap();
            lemma_struct_capture_end_props(ts, i + 2, j);
            lemma_wf_subrange(ts, i, j + 1);
        } else {
            lemma_struct_capture_wf(name, ts, i + 1, r);
        }
    }
}

/// A function capture cut out of a well-formed tree is well formed.
pub proof fn lemma_fn_capture_wf(name: Seq<char>, ts: Seq<TokenView>, i: int, r: Seq<TokenView>)
    requires
        wf_forest(ts),
        fn_search(name, ts, i) == Some(r),
    ensures
        wf_forest(r),
    decreases ts, ts.len() - i,
{
    if 0 <= i < ts.len() {
        lemma_wf_forest_iff(ts);
        if ts[i] is Group {
            assert(decreases_to!(ts => ts[i]));
            assert(decreases_to!(ts[i] => ts[i]->Group_1));
            if fn_search(name, ts[i]->Group_1, 0) is Some {
                lemma_fn_capture_wf(name, ts[i]->Group_1, 0, r);
            } else {
                lemma_fn_capture_wf(name, ts, i + 1, r);
            }
        } else if fn_trigger(name, ts, i) {
            let j = brace_end(ts, i + 2).unwrap();
            lemma_brace_end_props(ts, i + 2, j);
            lemma_wf_subrange(ts, i, j + 1);
        } else {
            lemma_fn_capture_wf(name, ts, i + 1, r);
        }
    }
}

proof fn lemma_impl_step_wf(
    name: Seq<char>,
    filter: Option<Seq<char>>,
    ts: Seq<TokenView>,
    i: int,
    mode: ImplMode,
    buf: Seq<TokenView>,
    r: Seq<TokenView>,
)
    requires
        wf_forest(ts),
        wf_forest(buf),
        impl_step(name, filter, ts, i, mode, buf) == Some(r),
    ensures
        wf_forest(r),
    decreases ts, ts.len() - i,
{
    if 0 <= i < ts.len() {
        lemma_wf_forest_iff(ts);
        let t = ts[i];
        assert(wf_token(t));
        if (mode == ImplMode::Walk || mode == ImplMode::SeekName) && t is Group {
            assert(decreases_to!(ts => ts[i]));
            assert(decreases_to!(ts[i] => ts[i]->Group_1));
            assert(wf_forest(Seq::<TokenView>::empty()));
            if impl_step(name, filter, t->Group_1, 0, ImplMode::Walk, Seq::empty()) is Some {
                lemma_impl_step_wf(
                    name,
                    filter,
                    t->Group_1,
                    0,
                    ImplMode::Walk,
                    Seq::empty(),
                    r,
                );
            } else {
                lemma_impl_step_wf(name, filter, ts, i + 1, mode, buf, r);
            }
        } else {
            lemma_wf_push(buf, t);
            match mode {
                ImplMode::Walk => {
                    if is_ident_named(t, "impl"@) {
                        lemma_wf_single(t);
                        lemma_impl_step_wf(name, filter, ts, i + 1, ImplMode::SeekName, seq![t], r);
                    } else {
                        lemma_impl_step_wf(name, filter, ts, i + 1, ImplMode::Walk, buf, r);
                    }
                },
                ImplMode::SeekName => {
                    if is_ident_named(t, name) {
                        lemma_impl_step_wf(
                            name,
                            filter,
                            ts,
                            i + 1,
                            ImplMode::SeekFor,
                            buf.push(t),
                            r,
                        );
                    } else {
                        lemma_impl_step_wf(
                            name,
                            filter,
                            ts,
                            i + 1,
                            ImplMode::SeekName,
                            buf.push(t),
                            r,
                        );
                    }
                },
                ImplMode::SeekFor => {
                    if is_ident_named(t, "for"@) {
                        match filter {
                            Some(f) => {
                                if i + 1 < ts.len() && is_ident_named(ts[i + 1], f) {
                                    lemma_impl_step_wf(
                                        name,
                                        filter,
                                        ts,
                                        i + 1,
                                        ImplMode::Grab,
                                        buf.push(t),
                                        r,
                                    );
                                } else {
                                    lemma_impl_step_wf(
                                        name,
                                        filter,
                                        ts,
                                        i + 1,
                                        ImplMode::SeekName,
                                        buf.push(t),
                                        r,
                                    );
                                }
                            },
                            None => {
                                lemma_impl_step_wf(
                                    name,
                                    filter,
                                    ts,
                                    i + 1,
                                    ImplMode::Grab,
                                    buf.push(t),
                                    r,
                                );
                            },
                        }
                    } else {
                        lemma_impl_step_wf(
                            name,
                            filter,
                            ts,
                            i + 1,
                            ImplMode::SeekFor,
                            buf.push(t),
                            r,
                        );
                    }
                },
                ImplMode::Grab => {
                    if t is Group && t->Group_0 == Delim::Brace {
                        let b = buf.push(t);
                        lemma_last_impl_bounds(b, b.len() - 1);
                        lemma_wf_subrange(b, last_impl_index(b, b.len() - 1), b.len() as int);
                    } else {
                        lemma_impl_step_wf(
                            name,
                            filter,
                            ts,
                            i + 1,
                            ImplMode::Grab,
                            buf.push(t),
                            r,
                        );
                    }
                },
            }
        }
    }
}

/// An interface-implementation capture cut out of a well-formed tree is well
/// formed.
pub proof fn lemma_impl_capture_wf(
    name: Seq<char>,
    filter: Option<Seq<char>>,
    ts: Seq<TokenView>,
    r: Seq<TokenView>,
)
    requires
        wf_forest(ts),
        impl_search(name, filter, ts) == Some(r),
    ensures
        wf_forest(r),
{
    assert(wf_forest(Seq::<TokenView>::empty()));
    lemma_impl_step_wf(name, filter, ts, 0, ImplMode::Walk, Seq::empty(), r);
}

/// The text-level half of the type-definition capture shape: the canonical
/// rendering of a capture cut from a well-formed tree has balanced
/// delimiters, brace bodies included.
pub proof fn lemma_struct_capture_text_balanced(name: Seq<char>, ts: Seq<TokenView>, i: int, r: Seq<
    TokenView,
>)
    requires
        wf_forest(ts),
        struct_search(name, ts, i) == Some(r),
    ensures
        balanced(split_spaces(text_of(r))),
{
    lemma_struct_capture_wf(name, ts, i, r);
    lemma_text_balanced(r);
}

/// The trim keeps nothing that stands before an implementation keyword in
/// the accumulated buffer: where a fresh keyword follows a rejected attempt,
/// everything the rejected attempt swept in is discarded from the returned
/// slice.
pub proof fn lemma_trim_discards_before_keyword(buf: Seq<TokenView>, k: int)
    requires
        0 <= k < buf.len(),
        is_ident_named(buf[k], "impl"@),
    ensures
        last_impl_index(buf, buf.len() - 1) >= k,
        trim_to_impl(buf).len() <= buf.len() - k,
{
    lemma_last_impl_at_least(buf, k, buf.len() - 1);
    lemma_last_impl_bounds(buf, buf.len() - 1);
    assert(trim_to_impl(buf).len() == buf.len() - last_impl_index(buf, buf.len() - 1));
}

proof fn lemma_last_impl_at_least(buf: Seq<TokenView>, k: int, m: int)
    requires
        0 <= k <= m,
        k < buf.len(),
        is_ident_named(buf[k], "impl"@),
    ensures
        last_impl_index(buf, m) >= k,
    decreases m,
{
    if m > k && !(m < buf.len() && is_ident_named(buf[m], "impl"@)) {
        lemma_last_impl_at_least(buf, k, m - 1);
    }
}

} // verus!
