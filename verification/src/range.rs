//! Range algebra: the five shapes of index reference and their
//! resolution against a sequence of captured groups.
//!
//! Indices are 1-based and inclusive; negative indices count from the
//! end (`-1` is the last group).  Resolution degrades each shape to a
//! simpler one at its boundary conditions, so that joined and split
//! addressing stay consistent.

use vstd::prelude::*;

verus! {

/// An index reference inside a field: a single group, a bounded range,
/// a range open at the left or at the right, or the full range.
#[derive(Clone, Copy, Debug)]
pub enum Range {
    Single(i32),
    Both(i32, i32),
    LeftInf(i32),
    RightInf(i32),
    Inf,
}

/// Remap a possibly negative 1-based index against a group count:
/// a negative index counts from the end, and the result is clamped
/// below at zero.
pub open spec fn spec_translate(idx: int, len: nat) -> int {
    let shifted = if idx < 0 { idx + len + 1 } else { idx };
    if shifted < 0 {
        0
    } else {
        shifted
    }
}

/// Recursion measure for the degrade cascade: `Both` degrades to a
/// one-bound shape, a one-bound shape degrades to `Inf`.
pub open spec fn range_measure(r: Range) -> nat {
    match r {
        Range::Both(_, _) => 2,
        Range::Single(_) => 1,
        Range::LeftInf(_) => 1,
        Range::RightInf(_) => 1,
        Range::Inf => 0,
    }
}

/// The groups of a span joined with a separator: empty for no group,
/// the group itself for one, otherwise separator-interleaved.
pub open spec fn spec_join(gs: Seq<Seq<char>>, sep: Seq<char>) -> Seq<char>
    decreases gs.len(),
{
    if gs.len() == 0 {
        Seq::empty()
    } else if gs.len() == 1 {
        gs[0]
    } else {
        gs[0] + sep + spec_join(gs.drop_first(), sep)
    }
}

/// Resolve a range to at most one string: the joined text of the groups
/// it addresses, `whole` for index zero, or nothing where the range
/// cannot be resolved.
pub open spec fn spec_resolve_joined(
    r: Range,
    whole: Option<Seq<char>>,
    groups: Seq<Seq<char>>,
    sep: Seq<char>,
) -> Option<Seq<char>>
    decreases range_measure(r),
{
    let len = groups.len();
    match r {
        Range::Single(n) => {
            let t = spec_translate(n as int, len);
            if t == 0 {
                whole
            } else if t > len {
                None
            } else {
                Some(groups[t - 1])
            }
        },
        Range::Both(l, rr) => {
            let tl = spec_translate(l as int, len);
            let tr = spec_translate(rr as int, len);
            if tl == 0 {
                spec_resolve_joined(Range::LeftInf(rr), whole, groups, sep)
            } else if tr > len {
                spec_resolve_joined(Range::RightInf(l), whole, groups, sep)
            } else if tl == tr {
                spec_resolve_joined(Range::Single(l), whole, groups, sep)
            } else if tl - 1 <= tr {
                Some(spec_join(groups.subrange(tl - 1, tr), sep))
            } else {
                None
            }
        },
        Range::LeftInf(rr) => {
            let t = spec_translate(rr as int, len);
            if t > len {
                spec_resolve_joined(Range::Inf, whole, groups, sep)
            } else {
                Some(spec_join(groups.subrange(0, t), sep))
            }
        },
        Range::RightInf(l) => {
            let t = spec_translate(l as int, len);
            if t == 0 {
                spec_resolve_joined(Range::Inf, whole, groups, sep)
            } else if t - 1 <= len {
                Some(spec_join(groups.subrange(t - 1, len as int), sep))
            } else {
                None
            }
        },
        Range::Inf => Some(spec_join(groups, sep)),
    }
}

/// Resolve a range to the unjoined sequence of the groups it addresses,
/// through the same degrade cascade as `spec_resolve_joined`: empty
/// where the joined form is absent, a single element for `Single`.
pub open spec fn spec_resolve_split(
    r: Range,
    whole: Option<Seq<char>>,
    groups: Seq<Seq<char>>,
) -> Seq<Seq<char>>
    decreases range_measure(r),
{
    let len = groups.len();
    match r {
        Range::Single(n) => {
            let t = spec_translate(n as int, len);
            if t == 0 {
                match whole {
                    Some(w) => seq![w],
                    None => Seq::empty(),
                }
            } else if t > len {
                Seq::empty()
            } else {
                seq![groups[t - 1]]
            }
        },
        Range::Both(l, rr) => {
            let tl = spec_translate(l as int, len);
            let tr = spec_translate(rr as int, len);
            if tl == 0 {
                spec_resolve_split(Range::LeftInf(rr), whole, groups)
            } else if tr > len {
                spec_resolve_split(Range::RightInf(l), whole, groups)
            } else if tl == tr {
                spec_resolve_split(Range::Single(l), whole, groups)
            } else if tl - 1 <= tr {
                groups.subrange(tl - 1, tr)
            } else {
                Seq::empty()
            }
        },
        Range::LeftInf(rr) => {
            let t = spec_translate(rr as int, len);
            if t > len {
                spec_resolve_split(Range::Inf, whole, groups)
            } else {
                groups.subrange(0, t)
            }
        },
        Range::RightInf(l) => {
            let t = spec_translate(l as int, len);
            if t == 0 {
                spec_resolve_split(Range::Inf, whole, groups)
            } else if t - 1 <= len {
                groups.subrange(t - 1, len as int)
            } else {
                Seq::empty()
            }
        },
        Range::Inf => groups,
    }
}

} // verus!
