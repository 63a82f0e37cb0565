//! Laws of the range algebra and the expander: the agreements between
//! joined and split resolution, the collapse and full-range
//! equivalences, negative-index translation, and plain-text templates.

use vstd::prelude::*;

use crate::combine::{spec_expand, spec_group, spec_group_rec, spec_group_step, spec_join_comb,
    spec_join_item, CombView, JoinView};
use crate::context::CtxView;
use crate::field::FragView;
use crate::range::{spec_resolve_joined, spec_resolve_split, spec_translate, Range};
use crate::template::{next_token, spec_template};

verus! {

/// For a non-negative single index within the group count, joined and
/// split resolution agree: the split form holds exactly the joined
/// string, and is empty where the joined form is absent.
pub proof fn lemma_single_join_split_agree(
    n: i32,
    whole: Option<Seq<char>>,
    groups: Seq<Seq<char>>,
    sep: Seq<char>,
)
    requires
        0 <= n <= groups.len(),
    ensures
        match spec_resolve_joined(Range::Single(n), whole, groups, sep) {
            Some(v) => spec_resolve_split(Range::Single(n), whole, groups) == seq![v],
            None => spec_resolve_split(Range::Single(n), whole, groups) == Seq::<
                Seq<char>,
            >::empty(),
        },
{
}

/// A bounded range with equal ends behaves exactly as the single
/// index, joined and split alike, as long as the translated index
/// lies within the group count.
pub proof fn lemma_bounded_collapse(
    l: i32,
    whole: Option<Seq<char>>,
    groups: Seq<Seq<char>>,
    sep: Seq<char>,
)
    requires
        1 <= spec_translate(l as int, groups.len()) <= groups.len(),
    ensures
        spec_resolve_joined(Range::Both(l, l), whole, groups, sep) == spec_resolve_joined(
            Range::Single(l),
            whole,
            groups,
            sep,
        ),
        spec_resolve_split(Range::Both(l, l), whole, groups) == spec_resolve_split(
            Range::Single(l),
            whole,
            groups,
        ),
{
}

/// The full range, the right-open range from the first group, and the
/// left-open range to the last group all resolve alike, for any group
/// count.
pub proof fn lemma_full_range_forms(whole: Option<Seq<char>>, groups: Seq<Seq<char>>, sep: Seq<
    char,
>)
    ensures
        spec_resolve_joined(Range::RightInf(1), whole, groups, sep) == spec_resolve_joined(
            Range::Inf,
            whole,
            groups,
            sep,
        ),
        spec_resolve_joined(Range::LeftInf(-1i32), whole, groups, sep) == spec_resolve_joined(
            Range::Inf,
            whole,
            groups,
            sep,
        ),
        spec_resolve_split(Range::RightInf(1), whole, groups) == spec_resolve_split(
            Range::Inf,
            whole,
            groups,
        ),
        spec_resolve_split(Range::LeftInf(-1i32), whole, groups) == spec_resolve_split(
            Range::Inf,
            whole,
            groups,
        ),
{
    assert(groups.subrange(0, groups.len() as int) =~= groups);
}

/// Negative indices count from the end: `-1` names the last group,
/// `-k` the first, for a group count of `k`.
pub proof fn lemma_translate_neg_round_trip(k: nat)
    ensures
        spec_translate(-1, k) == k,
        k >= 1 ==> spec_translate(-(k as int), k) == 1,
{
}

proof fn lemma_no_brace_no_token(s: Seq<char>, i: int)
    requires
        0 <= i <= s.len(),
        forall|j: int| i <= j < s.len() ==> #[trigger] s[j] != '{',
    ensures
        next_token(s, i) is None,
    decreases s.len() - i,
{
    if i < s.len() {
        lemma_no_brace_no_token(s, i + 1);
    }
}

/// A non-empty template without field syntax expands to exactly one
/// argument, the literal text itself, whatever the context.
pub proof fn lemma_plain_template(s: Seq<char>, ctx: CtxView)
    requires
        s.len() > 0,
        forall|i: int| 0 <= i < s.len() ==> #[trigger] s[i] != '{',
    ensures
        spec_expand(spec_group(spec_template(s)), ctx) == seq![s],
{
    lemma_no_brace_no_token(s, 0);
    assert(s.subrange(0, s.len() as int) =~= s);
    let frags = spec_template(s);
    assert(frags =~= seq![FragView::Literal(s)]);
    let step = spec_group_step(Seq::empty(), FragView::Literal(s));
    assert(step =~= seq![CombView::Join(seq![JoinView::Literal(s)])]);
    assert(frags.drop_first() =~= Seq::<FragView>::empty());
    assert(spec_group(frags) == spec_group_rec(step, frags.drop_first()));
    let combs = spec_group(frags);
    assert(combs =~= seq![CombView::Join(seq![JoinView::Literal(s)])]);
    let js = seq![JoinView::Literal(s)];
    assert(js.drop_first() =~= Seq::<JoinView>::empty());
    assert(spec_join_comb(js.drop_first(), ctx) == Seq::<char>::empty());
    assert(js[0] == JoinView::Literal(s));
    assert(spec_join_item(js[0], ctx) == s);
    assert(spec_join_comb(js, ctx) =~= s);
    assert(combs.drop_first() =~= Seq::<CombView>::empty());
    assert(spec_expand(combs.drop_first(), ctx) == Seq::<Seq<char>>::empty());
    assert(combs[0] == CombView::Join(js));
    assert(spec_expand(combs, ctx) =~= seq![s]);
}

} // verus!
