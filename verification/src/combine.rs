//! Combination grouping and expansion: fold a fragment sequence into
//! join units (each producing exactly one argument) and split units
//! (each producing zero or more), then resolve them against one
//! line's capture context.

use vstd::prelude::*;

use crate::context::{lookup, spec_sep, spec_whole, CtxView, RegexContext};
use crate::field::{ArgFragment, FragView};
use crate::range::{spec_resolve_joined, spec_resolve_split, Range};
use crate::template::ArgTemplate;

verus! {

/// One sub-field of a join unit.
#[derive(Debug)]
pub enum Join {
    Literal(String),
    NamedGroup(String),
    RangeGroup(Range, Option<String>),
}

/// Mathematical model of a join sub-field.
pub enum JoinView {
    Literal(Seq<char>),
    NamedGroup(Seq<char>),
    RangeGroup(Range, Option<Seq<char>>),
}

impl View for Join {
    type V = JoinView;

    open spec fn view(&self) -> JoinView {
        match self {
            Join::Literal(s) => JoinView::Literal(s@),
            Join::NamedGroup(s) => JoinView::NamedGroup(s@),
            Join::RangeGroup(r, sep) => JoinView::RangeGroup(
                *r,
                match sep {
                    Some(s) => Some(s@),
                    None => None,
                },
            ),
        }
    }
}

impl DeepView for Join {
    type V = JoinView;

    open spec fn deep_view(&self) -> JoinView {
        self.view()
    }
}

/// A standalone split unit.
#[derive(Debug)]
pub struct Split(pub Range);

/// One output unit: a join producing exactly one argument, or a split
/// producing zero or more.
#[derive(Debug)]
pub enum Combination {
    Join(Vec<Join>),
    Split(Split),
}

/// Mathematical model of an output unit.
pub enum CombView {
    Join(Seq<JoinView>),
    Split(Range),
}

impl View for Combination {
    type V = CombView;

    open spec fn view(&self) -> CombView {
        match self {
            Combination::Join(js) => CombView::Join(js.deep_view()),
            Combination::Split(sp) => CombView::Split(sp.0),
        }
    }
}

impl DeepView for Combination {
    type V = CombView;

    open spec fn deep_view(&self) -> CombView {
        self.view()
    }
}

/// Merging one join sub-field: into an open join unit at the tail, or
/// as a fresh join unit, or nowhere when a fresh unit is declined (an
/// empty literal).
pub open spec fn spec_merge(accv: Seq<CombView>, j: JoinView, skip_new: bool) -> Seq<CombView> {
    if accv.len() > 0 && accv.last() is Join {
        accv.update(accv.len() - 1, CombView::Join(accv.last()->Join_0.push(j)))
    } else if skip_new {
        accv
    } else {
        accv.push(CombView::Join(seq![j]))
    }
}

/// One step of the grouping fold: a split fragment always stands
/// alone; other fragments merge into an open join unit, or open a new
/// one; an empty literal never opens a unit of its own.
pub open spec fn spec_group_step(acc: Seq<CombView>, f: FragView) -> Seq<CombView> {
    match f {
        FragView::SplitRangeGroup(r) => acc.push(CombView::Split(r)),
        FragView::Literal(s) => spec_merge(acc, JoinView::Literal(s), s.len() == 0),
        FragView::NamedGroup(s) => spec_merge(acc, JoinView::NamedGroup(s), false),
        FragView::RangeGroup(r, sep) => spec_merge(acc, JoinView::RangeGroup(r, sep), false),
    }
}

pub open spec fn spec_group_rec(acc: Seq<CombView>, frags: Seq<FragView>) -> Seq<CombView>
    decreases frags.len(),
{
    if frags.len() == 0 {
        acc
    } else {
        spec_group_rec(spec_group_step(acc, frags[0]), frags.drop_first())
    }
}

/// The grouping of a whole fragment sequence.
pub open spec fn spec_group(frags: Seq<FragView>) -> Seq<CombView> {
    spec_group_rec(Seq::empty(), frags)
}

/// Merge one join sub-field into the open tail join unit, or start a
/// new unit unless `skip_new` declines that.
fn merge_join_item(acc: &mut Vec<Combination>, item: Join, skip_new: bool)
    ensures
        final (acc).deep_view() == spec_merge(old(acc).deep_view(), item@, skip_new),
{
    let ghost pre = acc.deep_view();
    let ghost jv = item@;
    if acc.len() > 0 {
        let ghost lastv = pre.last();
        let last = acc.pop().unwrap();
        proof {
            assert(acc.deep_view() =~= pre.drop_last());
            assert(last.deep_view() == lastv);
        }
        match last {
            Combination::Join(mut js) => {
                let ghost js0 = js.deep_view();
                js.push(item);
                proof {
                    assert(js.deep_view() =~= js0.push(jv));
                    assert(lastv == CombView::Join(js0));
                }
                acc.push(Combination::Join(js));
                proof {
                    assert(acc.deep_view() =~= pre.drop_last().push(
                        CombView::Join(js0.push(jv)),
                    ));
                    assert(pre.update(pre.len() - 1, CombView::Join(js0.push(jv)))
                        =~= pre.drop_last().push(CombView::Join(js0.push(jv))));
                }
                return ;
            },
            Combination::Split(sp) => {
                acc.push(Combination::Split(sp));
                proof {
                    assert(acc.deep_view() =~= pre);
                }
            },
        }
    }
    if !skip_new {
        let ghost cur = acc.deep_view();
        let mut unit: Vec<Join> = Vec::new();
        unit.push(item);
        proof {
            assert(unit.deep_view() =~= seq![jv]);
        }
        acc.push(Combination::Join(unit));
        proof {
            assert(acc.deep_view() =~= cur.push(CombView::Join(seq![jv])));
        }
    }
}

/// Group the fragments by whether they should be split or joined in
/// the output.
pub fn group_combinations(fragments: &Vec<ArgFragment>) -> (r: Vec<Combination>)
    ensures
        r.deep_view() == spec_group(fragments.deep_view()),
{
    let ghost frags = fragments.deep_view();
    let mut acc: Vec<Combination> = Vec::new();
    let mut i: usize = 0;
    proof {
        assert(acc.deep_view() =~= Seq::<CombView>::empty());
        assert(frags.skip(0) =~= frags);
    }
    while i < fragments.len()
        invariant
            i <= fragments.len(),
            frags == fragments.deep_view(),
            spec_group(frags) == spec_group_rec(acc.deep_view(), frags.skip(i as int)),
        decreases fragments.len() - i,
    {
        let ghost pre = acc.deep_view();
        let ghost f = frags[i as int];
        match &fragments[i] {
            ArgFragment::SplitRangeGroup(r) => {
                acc.push(Combination::Split(Split(*r)));
                proof {
                    assert(acc.deep_view() =~= pre.push(CombView::Split(f->SplitRangeGroup_0)));
                }
            },
            ArgFragment::Literal(s) => {
                let skip_new = s.unicode_len() == 0;
                merge_join_item(&mut acc, Join::Literal(s.clone()), skip_new);
            },
            ArgFragment::NamedGroup(s) => {
                merge_join_item(&mut acc, Join::NamedGroup(s.clone()), false);
            },
            ArgFragment::RangeGroup(r, sep) => {
                let sep2: Option<String> = match sep {
                    Some(s) => Some(s.clone()),
                    None => None,
                };
                merge_join_item(&mut acc, Join::RangeGroup(*r, sep2), false);
            },
        }
        proof {
            assert(acc.deep_view() == spec_group_step(pre, f));
            assert(frags.skip(i as int).drop_first() =~= frags.skip(i as int + 1));
            assert(frags.skip(i as int)[0] == f);
        }
        i = i + 1;
    }
    proof {
        assert(frags.skip(fragments.len() as int) =~= Seq::<FragView>::empty());
    }
    acc
}

/// The text one join sub-field contributes: literal text, a named
/// lookup, or a resolved range, with an absent value contributing the
/// empty string.
pub open spec fn spec_join_item(j: JoinView, ctx: CtxView) -> Seq<char> {
    match j {
        JoinView::Literal(s) => s,
        JoinView::NamedGroup(nm) => match lookup(ctx.entries, nm) {
            Some(v) => v,
            None => Seq::empty(),
        },
        JoinView::RangeGroup(r, sep) => match spec_resolve_joined(
            r,
            spec_whole(ctx),
            ctx.groups,
            spec_sep(ctx, sep),
        ) {
            Some(v) => v,
            None => Seq::empty(),
        },
    }
}

/// The single argument a join unit produces: its sub-fields'
/// contributions concatenated in order.
pub open spec fn spec_join_comb(js: Seq<JoinView>, ctx: CtxView) -> Seq<char>
    decreases js.len(),
{
    if js.len() == 0 {
        Seq::empty()
    } else {
        spec_join_item(js[0], ctx) + spec_join_comb(js.drop_first(), ctx)
    }
}

/// The arguments a combination sequence produces, in order.
pub open spec fn spec_expand(cs: Seq<CombView>, ctx: CtxView) -> Seq<Seq<char>>
    decreases cs.len(),
{
    if cs.len() == 0 {
        Seq::empty()
    } else {
        (match cs[0] {
            CombView::Join(js) => seq![spec_join_comb(js, ctx)],
            CombView::Split(r) => spec_resolve_split(r, spec_whole(ctx), ctx.groups),
        }) + spec_expand(cs.drop_first(), ctx)
    }
}

proof fn lemma_join_comb_push(js: Seq<JoinView>, x: JoinView, ctx: CtxView)
    ensures
        spec_join_comb(js.push(x), ctx) == spec_join_comb(js, ctx) + spec_join_item(x, ctx),
    decreases js.len(),
{
    let p = js.push(x);
    assert(p[0] == if js.len() == 0 {
        x
    } else {
        js[0]
    });
    if js.len() == 0 {
        assert(p.drop_first() =~= Seq::<JoinView>::empty());
        assert(spec_join_comb(p.drop_first(), ctx) == Seq::<char>::empty());
        assert(spec_join_comb(p, ctx) =~= spec_join_item(x, ctx));
        assert(spec_join_comb(js, ctx) == Seq::<char>::empty());
        assert(spec_join_comb(js, ctx) + spec_join_item(x, ctx) =~= spec_join_item(x, ctx));
    } else {
        lemma_join_comb_push(js.drop_first(), x, ctx);
        assert(p.drop_first() =~= js.drop_first().push(x));
        assert(spec_join_comb(p, ctx) == spec_join_item(js[0], ctx) + (spec_join_comb(
            js.drop_first(),
            ctx,
        ) + spec_join_item(x, ctx)));
        assert(spec_join_item(js[0], ctx) + (spec_join_comb(js.drop_first(), ctx)
            + spec_join_item(x, ctx)) =~= (spec_join_item(js[0], ctx) + spec_join_comb(
            js.drop_first(),
            ctx,
        )) + spec_join_item(x, ctx));
    }
}

proof fn lemma_expand_push(cs: Seq<CombView>, c: CombView, ctx: CtxView)
    ensures
        spec_expand(cs.push(c), ctx) == spec_expand(cs, ctx) + spec_expand(seq![c], ctx),
    decreases cs.len(),
{
    let p = cs.push(c);
    let single = seq![c];
    assert(single[0] == c);
    assert(single.drop_first() =~= Seq::<CombView>::empty());
    assert(spec_expand(single.drop_first(), ctx) == Seq::<Seq<char>>::empty());
    let chead = match c {
        CombView::Join(js) => seq![spec_join_comb(js, ctx)],
        CombView::Split(r) => spec_resolve_split(r, spec_whole(ctx), ctx.groups),
    };
    assert(spec_expand(single, ctx) =~= chead);
    if cs.len() == 0 {
        assert(p[0] == c);
        assert(p.drop_first() =~= Seq::<CombView>::empty());
        assert(spec_expand(p.drop_first(), ctx) == Seq::<Seq<char>>::empty());
        assert(spec_expand(p, ctx) =~= chead);
        assert(spec_expand(cs, ctx) == Seq::<Seq<char>>::empty());
        assert(spec_expand(cs, ctx) + chead =~= chead);
    } else {
        lemma_expand_push(cs.drop_first(), c, ctx);
        assert(p[0] == cs[0]);
        assert(p.drop_first() =~= cs.drop_first().push(c));
        let head = match cs[0] {
            CombView::Join(js) => seq![spec_join_comb(js, ctx)],
            CombView::Split(r) => spec_resolve_split(r, spec_whole(ctx), ctx.groups),
        };
        assert(spec_expand(p, ctx) == head + (spec_expand(cs.drop_first(), ctx) + chead));
        assert(head + (spec_expand(cs.drop_first(), ctx) + chead) =~= (head + spec_expand(
            cs.drop_first(),
            ctx,
        )) + chead);
    }
}

/// Resolve one join unit to its single argument.
fn resolve_join(context: &RegexContext, js: &Vec<Join>) -> (r: String)
    ensures
        r@ == spec_join_comb(js.deep_view(), context@),
{
    let ghost jv = js.deep_view();
    let mut r = String::new();
    let mut i: usize = 0;
    proof {
        assert(jv.take(0) =~= Seq::<JoinView>::empty());
    }
    while i < js.len()
        invariant
            i <= js.len(),
            jv == js.deep_view(),
            r@ == spec_join_comb(jv.take(i as int), context@),
        decreases js.len() - i,
    {
        match &js[i] {
            Join::Literal(s) => {
                r.append(s.as_str());
            },
            Join::NamedGroup(nm) => {
                match context.get_by_name(nm.as_str()) {
                    Some(v) => {
                        r.append(v.as_str());
                    },
                    None => {},
                }
            },
            Join::RangeGroup(rng, sep) => {
                let sep_ref: Option<&str> = match sep {
                    Some(s) => Some(s.as_str()),
                    None => None,
                };
                match context.get_by_range(rng, sep_ref) {
                    Some(v) => {
                        r.append(v.as_str());
                    },
                    None => {},
                }
            },
        }
        proof {
            lemma_join_comb_push(jv.take(i as int), jv[i as int], context@);
            assert(jv.take(i as int).push(jv[i as int]) =~= jv.take(i as int + 1));
            assert(r@ == spec_join_comb(jv.take(i as int + 1), context@));
        }
        i = i + 1;
    }
    proof {
        assert(jv.take(js.len() as int) =~= jv);
    }
    r
}

/// Combine elements, splitting or joining the arguments as needed.
pub fn combine_with_context(context: &RegexContext, combinations: &Vec<Combination>) -> (r: Vec<
    String,
>)
    ensures
        r.deep_view() == spec_expand(combinations.deep_view(), context@),
{
    let ghost cv = combinations.deep_view();
    let mut r: Vec<String> = Vec::new();
    let mut i: usize = 0;
    proof {
        assert(cv.take(0) =~= Seq::<CombView>::empty());
        assert(r.deep_view() =~= Seq::<Seq<char>>::empty());
    }
    while i < combinations.len()
        invariant
            i <= combinations.len(),
            cv == combinations.deep_view(),
            r.deep_view() == spec_expand(cv.take(i as int), context@),
        decreases combinations.len() - i,
    {
        let ghost pre = r.deep_view();
        let ghost c = cv[i as int];
        let ghost single = seq![c];
        proof {
            assert(single[0] == c);
            assert(single.drop_first() =~= Seq::<CombView>::empty());
            assert(spec_expand(single.drop_first(), context@) == Seq::<Seq<char>>::empty());
        }
        match &combinations[i] {
            Combination::Join(js) => {
                let joined = resolve_join(context, js);
                r.push(joined);
                proof {
                    assert(c == CombView::Join(js.deep_view()));
                    assert(spec_expand(single, context@) =~= seq![
                        spec_join_comb(js.deep_view(), context@),
                    ]);
                    assert(r.deep_view() =~= pre + spec_expand(single, context@));
                }
            },
            Combination::Split(sp) => {
                let vs = context.get_by_split_range(&sp.0);
                let ghost vsv = vs.deep_view();
                let mut k: usize = 0;
                proof {
                    assert(pre + vsv.take(0) =~= pre);
                }
                while k < vs.len()
                    invariant
                        k <= vs.len(),
                        vsv == vs.deep_view(),
                        r.deep_view() == pre + vsv.take(k as int),
                    decreases vs.len() - k,
                {
                    let ghost rpre = r.deep_view();
                    let v = vs[k].clone();
                    r.push(v);
                    proof {
                        assert(r.deep_view() =~= rpre.push(vsv[k as int]));
                        assert(rpre.push(vsv[k as int]) =~= pre + vsv.take(k as int + 1));
                    }
                    k = k + 1;
                }
                proof {
                    assert(vsv.take(vs.len() as int) =~= vsv);
                    assert(c == CombView::Split(sp.0));
                    assert(spec_expand(single, context@) =~= vsv);
                    assert(r.deep_view() =~= pre + spec_expand(single, context@));
                }
            },
        }
        proof {
            lemma_expand_push(cv.take(i as int), c, context@);
            assert(cv.take(i as int).push(c) =~= cv.take(i as int + 1));
        }
        i = i + 1;
    }
    proof {
        assert(cv.take(combinations.len() as int) =~= cv);
    }
    r
}

impl ArgTemplate {
    /// Expand this template against one line's context: group the
    /// fragments, then resolve each unit in order.
    pub fn apply_context(&self, context: &RegexContext) -> (r: Vec<String>)
        ensures
            r.deep_view() == spec_expand(spec_group(self@), context@),
    {
        let combinations = group_combinations(&self.fragments);
        combine_with_context(context, &combinations)
    }
}

} // verus!
