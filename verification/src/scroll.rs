//! Scroll state for the code view, and the line metrics that size it: the
//! number of lines of a code block and the widest line's scrollable width.

use vstd::prelude::*;

verus! {

broadcast use vstd::seq::group_seq_axioms, vstd::std_specs::vec::group_vec_axioms;

/// The larger of two naturals.
pub open spec fn nat_max(a: nat, b: nat) -> nat {
    if a >= b {
        a
    } else {
        b
    }
}

/// The index of the first line feed at or after `j`.
pub open spec fn first_nl(s: Seq<u8>, j: int) -> Option<int>
    decreases s.len() - j,
{
    if j < 0 || j >= s.len() {
        None
    } else if s[j] == 10 {
        Some(j)
    } else {
        first_nl(s, j + 1)
    }
}

/// A line with one trailing carriage return removed.
pub open spec fn trim_cr(line: Seq<u8>) -> Seq<u8> {
    if line.len() > 0 && line.last() == 13 {
        line.drop_last()
    } else {
        line
    }
}

/// The lines of `s` from position `pos` on: maximal line-feed-free segments,
/// each with a trailing carriage return removed; a trailing line feed ends
/// the last line rather than opening an empty one.
pub open spec fn lines_from(s: Seq<u8>, pos: int) -> Seq<Seq<u8>>
    decreases s.len() - pos,
{
    if pos < 0 || pos >= s.len() {
        Seq::empty()
    } else {
        match first_nl(s, pos) {
            None => seq![trim_cr(s.subrange(pos, s.len() as int))],
            Some(k) => if pos <= k < s.len() {
                seq![trim_cr(s.subrange(pos, k))] + lines_from(s, k + 1)
            } else {
                Seq::empty()
            },
        }
    }
}

/// All lines of a code block.
pub open spec fn lines_of(s: Seq<u8>) -> Seq<Seq<u8>> {
    lines_from(s, 0)
}

/// The scrollable width a line contributes: its length less one, zero for an
/// empty line.
pub open spec fn line_metric(line: Seq<u8>) -> nat {
    if line.len() > 0 {
        (line.len() - 1) as nat
    } else {
        0
    }
}

/// The widest line's metric.
pub open spec fn max_metric(ls: Seq<Seq<u8>>) -> nat
    decreases ls,
{
    if ls.len() == 0 {
        0
    } else {
        nat_max(line_metric(ls[0]), max_metric(ls.drop_first()))
    }
}

/// Counts the lines of a code block and measures the widest one: the sizes a
/// scroll state is created from.
#[verifier::loop_isolation(false)]
pub fn line_metrics(code: &Vec<u8>) -> (r: (usize, usize))
    ensures
        r.0 == lines_of(code@).len(),
        r.1 == max_metric(lines_of(code@)),
{
    let n: usize = code.len();
    let mut pos: usize = 0;
    let mut lines: usize = 0;
    let mut widest: usize = 0;
    while pos < n
        invariant
            0 <= pos <= n,
            lines <= pos,
            lines_of(code@).len() == lines + lines_from(code@, pos as int).len(),
            max_metric(lines_of(code@)) == nat_max(
                widest as nat,
                max_metric(lines_from(code@, pos as int)),
            ),
            widest <= n,
        decreases n - pos,
    {
        let mut k: usize = pos;
        while k < n && code[k] != 10
            invariant
                pos <= k <= n,
                first_nl(code@, pos as int) == first_nl(code@, k as int),
            decreases n - k,
        {
            k += 1;
        }
        let ghost rest = lines_from(code@, pos as int);
        let ghost seg = if k < n {
            code@.subrange(pos as int, k as int)
        } else {
            code@.subrange(pos as int, n as int)
        };
        proof {
            if k < n {
                assert(first_nl(code@, pos as int) == Some(k as int));
                assert(rest == seq![trim_cr(seg)] + lines_from(code@, k + 1));
            } else {
                assert(first_nl(code@, pos as int) is None);
                assert(rest == seq![trim_cr(seg)]);
                assert(lines_from(code@, n as int) =~= Seq::<Seq<u8>>::empty());
            }
            assert(rest[0] == trim_cr(seg));
            assert(rest.drop_first() =~= if k < n {
                lines_from(code@, k + 1)
            } else {
                Seq::<Seq<u8>>::empty()
            });
        }
        // the segment's metric, with one trailing carriage return removed
        let mut seg_len: usize = k - pos;
        if seg_len > 0 && code[k - 1] == 13 {
            seg_len = seg_len - 1;
        }
        let m: usize = if seg_len > 0 {
            seg_len - 1
        } else {
            0
        };
        proof {
            assert(m == line_metric(trim_cr(seg)));
        }
        if m > widest {
            widest = m;
        }
        lines += 1;
        if k < n {
            pos = k + 1;
        } else {
            pos = n;
        }
    }
    proof {
        assert(lines_from(code@, n as int) =~= Seq::<Seq<u8>>::empty());
    }
    (lines, widest)
}

/// Scroll state: the sizes of the scrolled content and the current vertical
/// and horizontal offsets.
#[derive(Debug)]
pub struct Scroll {
    vs: usize,
    vs_state: u16,
    hs: usize,
    hs_state: u16,
}

impl Scroll {
    /// The number of lines the view can scroll over.
    pub closed spec fn v_limit(&self) -> nat {
        self.vs as nat
    }

    /// The widest line's scrollable width.
    pub closed spec fn h_limit(&self) -> nat {
        self.hs as nat
    }

    /// The current vertical offset.
    pub closed spec fn v_pos(&self) -> nat {
        self.vs_state as nat
    }

    /// The current horizontal offset.
    pub closed spec fn h_pos(&self) -> nat {
        self.hs_state as nat
    }

    /// Whether one more step to the right is allowed on a screen of the
    /// given width: the content must be wider than the screen, and the
    /// offset within the overflow plus some extra room for readability.
    pub open spec fn can_scroll_right(&self, screen_width: u16) -> bool {
        &&& (screen_width as nat) < self.h_limit()
        &&& self.h_pos() <= self.h_limit() - (screen_width as nat) + 10
        &&& self.h_pos() < u16::MAX as nat
    }

    /// Whether one more step up is allowed.
    pub open spec fn can_scroll_up(&self) -> bool {
        self.v_pos() < self.v_limit() && self.v_pos() < u16::MAX as nat
    }

    /// A scroll state at the origin, for content of `vs` lines whose widest
    /// line has scrollable width `hs`.
    pub fn new(vs: usize, hs: usize) -> (r: Self)
        ensures
            r.v_limit() == vs,
            r.h_limit() == hs,
            r.v_pos() == 0,
            r.h_pos() == 0,
    {
        Self { vs, vs_state: 0, hs, hs_state: 0 }
    }

    /// One step up, stopping at the line count.
    pub fn scroll_up(&mut self)
        ensures
            final(self).v_limit() == old(self).v_limit(),
            final(self).h_limit() == old(self).h_limit(),
            final(self).h_pos() == old(self).h_pos(),
            final(self).v_pos() == if old(self).can_scroll_up() {
                old(self).v_pos() + 1
            } else {
                old(self).v_pos()
            },
    {
        if (self.vs_state as usize) < self.vs && self.vs_state < u16::MAX {
            self.vs_state = self.vs_state + 1;
        }
    }

    /// One step right, stopping a little past the widest line's overflow on
    /// the given screen width.
    pub fn scroll_right(&mut self, screen_width: u16)
        ensures
            final(self).v_limit() == old(self).v_limit(),
            final(self).h_limit() == old(self).h_limit(),
            final(self).v_pos() == old(self).v_pos(),
            final(self).h_pos() == if old(self).can_scroll_right(screen_width) {
                old(self).h_pos() + 1
            } else {
                old(self).h_pos()
            },
    {
        let width = screen_width as usize;
        if width < self.hs {
            let over = self.hs - width;
            // the extra room for readability, kept within the machine range
            let room = if over <= usize::MAX - 10 {
                over + 10
            } else {
                usize::MAX
            };
            if (self.hs_state as usize) <= room && self.hs_state < u16::MAX {
                self.hs_state = self.hs_state + 1;
            }
        }
    }

    /// One step down, stopping at the top.
    pub fn scroll_down(&mut self)
        ensures
            final(self).v_limit() == old(self).v_limit(),
            final(self).h_limit() == old(self).h_limit(),
            final(self).h_pos() == old(self).h_pos(),
            final(self).v_pos() == if old(self).v_pos() > 0 {
                (old(self).v_pos() - 1) as nat
            } else {
                0nat
            },
    {
        if self.vs_state > 0 {
            self.vs_state = self.vs_state - 1;
        }
    }

    /// One step left, stopping at the margin.
    pub fn scroll_left(&mut self)
        ensures
            final(self).v_limit() == old(self).v_limit(),
            final(self).h_limit() == old(self).h_limit(),
            final(self).v_pos() == old(self).v_pos(),
            final(self).h_pos() == if old(self).h_pos() > 0 {
                (old(self).h_pos() - 1) as nat
            } else {
                0nat
            },
    {
        if self.hs_state > 0 {
            self.hs_state = self.hs_state - 1;
        }
    }

    /// The current offset pair, vertical then horizontal.
    pub fn offset(&self) -> (r: (u16, u16))
        ensures
            r.0 == self.v_pos(),
            r.1 == self.h_pos(),
    {
        (self.vs_state, self.hs_state)
    }
}

} // verus!
