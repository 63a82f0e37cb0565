//! The capture context built for one input line: an ordered list of
//! name/value entries with last-write-wins lookup, the flat ordered
//! sequence of every captured group, and a default separator for
//! ranged fields.

use vstd::prelude::*;

use crate::field::is_digit_char;
use crate::range::{spec_join, spec_resolve_joined, spec_resolve_split, spec_translate, Range};

verus! {

/// Mathematical model of a capture context.
#[verifier::ext_equal]
pub struct CtxView {
    pub entries: Seq<(Seq<char>, Seq<char>)>,
    pub groups: Seq<Seq<char>>,
    pub default_sep: Seq<char>,
}

/// Name lookup over the entry list: the latest entry with the key wins.
pub open spec fn lookup(entries: Seq<(Seq<char>, Seq<char>)>, name: Seq<char>) -> Option<
    Seq<char>,
>
    decreases entries.len(),
{
    if entries.len() == 0 {
        None
    } else if entries.last().0 == name {
        Some(entries.last().1)
    } else {
        lookup(entries.drop_last(), name)
    }
}

pub open spec fn entries_view(es: Seq<(String, String)>) -> Seq<(Seq<char>, Seq<char>)> {
    es.map(|i: int, e: (String, String)| (e.0@, e.1@))
}

/// The context parsed from one input line.  For the line `2018-10-21`
/// and the pattern `^(?P<year>\d{4})-(\d{2})-(\d{2})$`, `{}` and `{0}`
/// give the whole line, `{1}` and `{year}` give `2018`, `{2}` gives
/// `10`, `{3}` gives `21`.
pub struct RegexContext {
    pub entries: Vec<(String, String)>,
    pub groups: Vec<String>,
    pub default_sep: String,
}

impl View for RegexContext {
    type V = CtxView;

    open spec fn view(&self) -> CtxView {
        CtxView {
            entries: entries_view(self.entries@),
            groups: self.groups.deep_view(),
            default_sep: self.default_sep@,
        }
    }
}

/// The string addressed by index zero: the whole-match entry.
pub open spec fn spec_whole(ctx: CtxView) -> Option<Seq<char>> {
    lookup(ctx.entries, Seq::empty())
}

/// The separator a ranged field uses: its own override, or the
/// context's default.
pub open spec fn spec_sep(ctx: CtxView, over: Option<Seq<char>>) -> Seq<char> {
    match over {
        Some(s) => s,
        None => ctx.default_sep,
    }
}

impl RegexContext {
    /// Replace the default separator (builder step).
    pub fn default_sep(self, default_sep: String) -> (r: Self)
        ensures
            r@.entries == self@.entries,
            r@.groups == self@.groups,
            r@.default_sep == default_sep@,
    {
        RegexContext { default_sep, ..self }
    }

    /// Add one entry; it overrides earlier entries with the same key.
    pub fn put(self, key: &str, value: String) -> (r: Self)
        ensures
            r@.entries == self@.entries.push((key@, value@)),
            r@.groups == self@.groups,
            r@.default_sep == self@.default_sep,
    {
        let mut entries = self.entries;
        let k = String::from_str(key);
        entries.push((k, value));
        let r = RegexContext { entries, groups: self.groups, default_sep: self.default_sep };
        proof {
            assert(r@.entries =~= self@.entries.push((key@, value@)));
        }
        r
    }

    /// Finish building (builder step; the value is already complete).
    pub fn build(self) -> (r: Self)
        ensures
            r@ == self@,
    {
        self
    }

    /// Remap a possibly negative 1-based index against the number of
    /// captured groups.
    pub fn translate_neg_index(&self, idx: i32) -> (r: usize)
        ensures
            r == spec_translate(idx as int, self@.groups.len()),
    {
        let len = self.groups.len();
        if idx < 0 {
            let shifted: i128 = idx as i128 + len as i128 + 1;
            if shifted < 0 {
                0
            } else {
                shifted as usize
            }
        } else {
            idx as usize
        }
    }

    /// Look a name up among the entries; the latest entry wins.
    pub fn get_by_name(&self, group_name: &str) -> (r: Option<String>)
        ensures
            r.deep_view() == lookup(self@.entries, group_name@),
    {
        let needle = String::from_str(group_name);
        let mut i: usize = self.entries.len();
        proof {
            assert(self@.entries.take(self.entries.len() as int) =~= self@.entries);
        }
        while i > 0
            invariant
                i <= self.entries.len(),
                needle@ == group_name@,
                lookup(self@.entries, group_name@) == lookup(
                    self@.entries.take(i as int),
                    group_name@,
                ),
            decreases i,
        {
            i = i - 1;
            if self.entries[i].0 == needle {
                proof {
                    assert(self@.entries.take(i as int + 1).last() == (
                    self.entries@[i as int].0@,
                    self.entries@[i as int].1@,
                    ));
                }
                return Some(self.entries[i].1.clone());
            }
            proof {
                assert(self@.entries.take(i as int + 1).drop_last() =~= self@.entries.take(
                    i as int,
                ));
                assert(self@.entries.take(i as int + 1).last() == (
                self.entries@[i as int].0@,
                self.entries@[i as int].1@,
                ));
            }
        }
        proof {
            assert(self@.entries.take(0) =~= Seq::<(Seq<char>, Seq<char>)>::empty());
        }
        None
    }

    /// Join the groups in `[lo, hi)` with the separator.
    fn join_range(&self, lo: usize, hi: usize, sep: &str) -> (r: String)
        requires
            lo <= hi <= self.groups.len(),
        ensures
            r@ == spec_join(self@.groups.subrange(lo as int, hi as int), sep@),
    {
        let mut r = String::new();
        if lo < hi {
            r.append(self.groups[lo].as_str());
            let mut k: usize = lo + 1;
            while k < hi
                invariant
                    lo < hi <= self.groups.len(),
                    lo < k <= hi,
                    r@ == spec_join(self@.groups.subrange(lo as int, k as int), sep@),
                decreases hi - k,
            {
                r.append(sep);
                r.append(self.groups[k].as_str());
                proof {
                    lemma_join_push(
                        self@.groups.subrange(lo as int, k as int),
                        sep@,
                        self@.groups[k as int],
                    );
                    assert(self@.groups.subrange(lo as int, k as int).push(
                        self@.groups[k as int],
                    ) =~= self@.groups.subrange(lo as int, k as int + 1));
                }
                k = k + 1;
            }
        } else {
            proof {
                assert(self@.groups.subrange(lo as int, hi as int) =~= Seq::<Seq<char>>::empty());
            }
        }
        r
    }

    /// Resolve a range to at most one joined string, degrading through
    /// the cascade of boundary cases.
    pub fn get_by_range(&self, range: &Range, sep: Option<&str>) -> (r: Option<String>)
        ensures
            r.deep_view() == spec_resolve_joined(
                *range,
                spec_whole(self@),
                self@.groups,
                spec_sep(self@, sep.deep_view()),
            ),
        decreases crate::range::range_measure(*range),
    {
        let len = self.groups.len();
        match *range {
            Range::Single(num) => {
                let t = self.translate_neg_index(num);
                if t == 0 {
                    let r = self.get_by_name("");
                    proof {
                        reveal_strlit("");
                        assert(""@ =~= Seq::<char>::empty());
                    }
                    r
                } else if t > len {
                    None
                } else {
                    Some(self.groups[t - 1].clone())
                }
            },
            Range::Both(left, right) => {
                let tl = self.translate_neg_index(left);
                let tr = self.translate_neg_index(right);
                if tl == 0 {
                    self.get_by_range(&Range::LeftInf(right), sep)
                } else if tr > len {
                    self.get_by_range(&Range::RightInf(left), sep)
                } else if tl == tr {
                    self.get_by_range(&Range::Single(left), sep)
                } else if tl - 1 <= tr {
                    let s = match sep {
                        Some(s) => s,
                        None => self.default_sep.as_str(),
                    };
                    Some(self.join_range(tl - 1, tr, s))
                } else {
                    None
                }
            },
            Range::LeftInf(right) => {
                let t = self.translate_neg_index(right);
                if t > len {
                    self.get_by_range(&Range::Inf, sep)
                } else {
                    let s = match sep {
                        Some(s) => s,
                        None => self.default_sep.as_str(),
                    };
                    Some(self.join_range(0, t, s))
                }
            },
            Range::RightInf(left) => {
                let t = self.translate_neg_index(left);
                if t == 0 {
                    self.get_by_range(&Range::Inf, sep)
                } else if t - 1 <= len {
                    let s = match sep {
                        Some(s) => s,
                        None => self.default_sep.as_str(),
                    };
                    Some(self.join_range(t - 1, len, s))
                } else {
                    None
                }
            },
            Range::Inf => {
                let s = match sep {
                    Some(s) => s,
                    None => self.default_sep.as_str(),
                };
                proof {
                    assert(self@.groups.subrange(0, self.groups.len() as int) =~= self@.groups);
                }
                Some(self.join_range(0, len, s))
            },
        }
    }

    /// Resolve a range to the unjoined sequence of the groups it
    /// addresses, through the same cascade as `get_by_range`.
    pub fn get_by_split_range(&self, range: &Range) -> (r: Vec<String>)
        ensures
            r.deep_view() == spec_resolve_split(*range, spec_whole(self@), self@.groups),
        decreases crate::range::range_measure(*range),
    {
        let len = self.groups.len();
        match *range {
            Range::Single(num) => {
                let t = self.translate_neg_index(num);
                proof {
                    reveal_strlit("");
                    assert(""@ =~= Seq::<char>::empty());
                }
                if t == 0 {
                    match self.get_by_name("") {
                        Some(w) => {
                            let mut r: Vec<String> = Vec::new();
                            r.push(w);
                            proof {
                                assert(r.deep_view() =~= spec_resolve_split(
                                    *range,
                                    spec_whole(self@),
                                    self@.groups,
                                ));
                            }
                            r
                        },
                        None => {
                            let r: Vec<String> = Vec::new();
                            proof {
                                assert(r.deep_view() =~= Seq::<Seq<char>>::empty());
                            }
                            r
                        },
                    }
                } else if t > len {
                    let r: Vec<String> = Vec::new();
                    proof {
                        assert(r.deep_view() =~= Seq::<Seq<char>>::empty());
                    }
                    r
                } else {
                    let mut r: Vec<String> = Vec::new();
                    r.push(self.groups[t - 1].clone());
                    proof {
                        assert(r.deep_view() =~= seq![self@.groups[t - 1]]);
                    }
                    r
                }
            },
            Range::Both(left, right) => {
                let tl = self.translate_neg_index(left);
                let tr = self.translate_neg_index(right);
                if tl == 0 {
                    self.get_by_split_range(&Range::LeftInf(right))
                } else if tr > len {
                    self.get_by_split_range(&Range::RightInf(left))
                } else if tl == tr {
                    self.get_by_split_range(&Range::Single(left))
                } else if tl - 1 <= tr {
                    self.slice_range(tl - 1, tr)
                } else {
                    let r: Vec<String> = Vec::new();
                    proof {
                        assert(r.deep_view() =~= Seq::<Seq<char>>::empty());
                    }
                    r
                }
            },
            Range::LeftInf(right) => {
                let t = self.translate_neg_index(right);
                if t > len {
                    self.get_by_split_range(&Range::Inf)
                } else {
                    self.slice_range(0, t)
                }
            },
            Range::RightInf(left) => {
                let t = self.translate_neg_index(left);
                if t == 0 {
                    self.get_by_split_range(&Range::Inf)
                } else if t - 1 <= len {
                    self.slice_range(t - 1, len)
                } else {
                    let r: Vec<String> = Vec::new();
                    proof {
                        assert(r.deep_view() =~= Seq::<Seq<char>>::empty());
                    }
                    r
                }
            },
            Range::Inf => {
                let r = self.slice_range(0, len);
                proof {
                    assert(self@.groups.subrange(0, self.groups.len() as int) =~= self@.groups);
                }
                r
            },
        }
    }

    /// Copy the groups in `[lo, hi)` into a fresh vector.
    fn slice_range(&self, lo: usize, hi: usize) -> (r: Vec<String>)
        requires
            lo <= hi <= self.groups.len(),
        ensures
            r.deep_view() == self@.groups.subrange(lo as int, hi as int),
    {
        let mut r: Vec<String> = Vec::new();
        let mut k: usize = lo;
        while k < hi
            invariant
                lo <= k <= hi <= self.groups.len(),
                r@.len() == k - lo,
                forall|j: int| 0 <= j < r@.len() ==> r@[j] == self.groups@[lo + j],
            decreases hi - k,
        {
            r.push(self.groups[k].clone());
            k = k + 1;
        }
        proof {
            assert(r.deep_view() =~= self@.groups.subrange(lo as int, hi as int));
        }
        r
    }
}


/// The texts of the slots from `j` on that participated in one match.
pub open spec fn match_texts_from(slots: Seq<Option<Seq<char>>>, j: int) -> Seq<Seq<char>>
    decreases slots.len() - j when 0 <= j
{
    if j >= slots.len() {
        Seq::empty()
    } else {
        (match slots[j] {
            Some(t) => seq![t],
            None => Seq::empty(),
        }) + match_texts_from(slots, j + 1)
    }
}

/// Every captured group of every match from match `m` on, in
/// encounter order, skipping the whole-match slot.
pub open spec fn all_groups_from(texts: Seq<Seq<Option<Seq<char>>>>, m: int) -> Seq<Seq<char>>
    decreases texts.len() - m when 0 <= m
{
    if m >= texts.len() {
        Seq::empty()
    } else {
        match_texts_from(texts[m], 1) + all_groups_from(texts, m + 1)
    }
}

/// The name/text pairs of one match from slot `j` on: a pair for each
/// named slot that participated.
pub open spec fn match_named_from(
    names: Seq<Option<Seq<char>>>,
    slots: Seq<Option<Seq<char>>>,
    j: int,
) -> Seq<(Seq<char>, Seq<char>)>
    decreases slots.len() - j when 0 <= j
{
    if j >= slots.len() || j >= names.len() {
        Seq::empty()
    } else {
        (match (names[j], slots[j]) {
            (Some(nm), Some(t)) => seq![(nm, t)],
            _ => Seq::empty(),
        }) + match_named_from(names, slots, j + 1)
    }
}

/// The name/text pairs of every match from match `m` on, in encounter
/// order, skipping the whole-match slot.
pub open spec fn all_named_from(
    names: Seq<Option<Seq<char>>>,
    texts: Seq<Seq<Option<Seq<char>>>>,
    m: int,
) -> Seq<(Seq<char>, Seq<char>)>
    decreases texts.len() - m when 0 <= m
{
    if m >= texts.len() {
        Seq::empty()
    } else {
        match_named_from(names, texts[m], 1) + all_named_from(names, texts, m + 1)
    }
}

/// The two entries every context starts from: the whole line under
/// the empty name and under the name `0`.
pub open spec fn base_entries(content: Seq<char>) -> Seq<(Seq<char>, Seq<char>)> {
    seq![(Seq::<char>::empty(), content), ("0"@, content)]
}

/// The context built from one line's captures: the base entries
/// followed by every named capture in encounter order (so that the
/// last match of a name wins), the flat group sequence, and a single
/// space as the default separator.
pub open spec fn built_ctx(
    content: Seq<char>,
    names: Seq<Option<Seq<char>>>,
    texts: Seq<Seq<Option<Seq<char>>>>,
) -> CtxView {
    CtxView {
        entries: base_entries(content) + all_named_from(names, texts, 0),
        groups: all_groups_from(texts, 0),
        default_sep: " "@,
    }
}


/// Well-formed capture-name lists: a present name is never empty and
/// never starts with a digit (the regex parser guarantees this).
pub open spec fn names_wf(names: Seq<Option<Seq<char>>>) -> bool {
    forall|i: int|
        0 <= i < names.len() ==> match #[trigger] names[i] {
            Some(nm) => nm.len() > 0 && !is_digit_char(nm[0]),
            None => true,
        }
}

/// Entry lists whose keys are well-formed capture names.
pub open spec fn keys_wf(es: Seq<(Seq<char>, Seq<char>)>) -> bool {
    forall|p: int|
        0 <= p < es.len() ==> ((#[trigger] es[p]).0.len() > 0 && !is_digit_char(es[p].0[0]))
}

proof fn lemma_keys_wf_concat(a: Seq<(Seq<char>, Seq<char>)>, b: Seq<(Seq<char>, Seq<char>)>)
    requires
        keys_wf(a),
        keys_wf(b),
    ensures
        keys_wf(a + b),
{
    assert forall|p: int| 0 <= p < (a + b).len() implies ((#[trigger] (a + b)[p]).0.len() > 0
        && !is_digit_char((a + b)[p].0[0])) by {
        if p < a.len() {
            assert((a + b)[p] == a[p]);
        } else {
            assert((a + b)[p] == b[p - a.len()]);
        }
    }
}

proof fn lemma_match_named_keys_wf(
    names: Seq<Option<Seq<char>>>,
    slots: Seq<Option<Seq<char>>>,
    j: int,
)
    requires
        0 <= j,
        names_wf(names),
    ensures
        keys_wf(match_named_from(names, slots, j)),
    decreases slots.len() - j,
{
    if j < slots.len() && j < names.len() {
        lemma_match_named_keys_wf(names, slots, j + 1);
        let head = match (names[j], slots[j]) {
            (Some(nm), Some(t)) => seq![(nm, t)],
            _ => Seq::<(Seq<char>, Seq<char>)>::empty(),
        };
        assert(keys_wf(head));
        lemma_keys_wf_concat(head, match_named_from(names, slots, j + 1));
    }
}

/// Every entry the named captures contribute carries a well-formed
/// capture name as its key.
proof fn lemma_all_named_keys_wf(
    names: Seq<Option<Seq<char>>>,
    texts: Seq<Seq<Option<Seq<char>>>>,
    m: int,
)
    requires
        0 <= m,
        names_wf(names),
    ensures
        keys_wf(all_named_from(names, texts, m)),
    decreases texts.len() - m,
{
    if m < texts.len() {
        lemma_match_named_keys_wf(names, texts[m], 1);
        lemma_all_named_keys_wf(names, texts, m + 1);
        lemma_keys_wf_concat(
            match_named_from(names, texts[m], 1),
            all_named_from(names, texts, m + 1),
        );
    }
}

/// Looking a name up past appended entries whose keys all differ from
/// it falls through to the earlier entries.
proof fn lemma_lookup_append_miss(
    base: Seq<(Seq<char>, Seq<char>)>,
    more: Seq<(Seq<char>, Seq<char>)>,
    name: Seq<char>,
)
    requires
        forall|p: int| 0 <= p < more.len() ==> (#[trigger] more[p]).0 != name,
    ensures
        lookup(base + more, name) == lookup(base, name),
    decreases more.len(),
{
    if more.len() > 0 {
        assert((base + more).last() == more.last());
        assert((base + more).drop_last() =~= base + more.drop_last());
        assert(forall|p: int|
            0 <= p < more.drop_last().len() ==> (#[trigger] more.drop_last()[p]).0 != name);
        lemma_lookup_append_miss(base, more.drop_last(), name);
    } else {
        assert(base + more =~= base);
    }
}

impl RegexContext {
    /// Build the context of one line from its extracted captures:
    /// `names` holds the pattern's group names by slot, `texts` the
    /// participating slots' texts for each match in order.
    pub fn from_captures(
        content: &str,
        names: &Vec<Option<String>>,
        texts: &Vec<Vec<Option<String>>>,
    ) -> (ctx: RegexContext)
        ensures
            ctx@ == built_ctx(content@, names.deep_view(), texts.deep_view()),
    {
        let ghost nd = names.deep_view();
        let ghost td = texts.deep_view();
        let mut entries: Vec<(String, String)> = Vec::new();
        entries.push((String::new(), String::from_str(content)));
        entries.push((String::from_str("0"), String::from_str(content)));
        proof {
            assert(entries_view(entries@) =~= base_entries(content@));
        }
        let mut groups: Vec<String> = Vec::new();
        let mut m: usize = 0;
        proof {
            assert(groups.deep_view() =~= Seq::<Seq<char>>::empty());
            assert(groups.deep_view() + all_groups_from(td, 0) =~= all_groups_from(td, 0));
            assert(entries_view(entries@) + all_named_from(nd, td, 0) =~= base_entries(content@)
                + all_named_from(nd, td, 0));
        }
        while m < texts.len()
            invariant
                m <= texts.len(),
                nd == names.deep_view(),
                td == texts.deep_view(),
                all_groups_from(td, 0) == groups.deep_view() + all_groups_from(td, m as int),
                base_entries(content@) + all_named_from(nd, td, 0) == entries_view(entries@)
                    + all_named_from(nd, td, m as int),
            decreases texts.len() - m,
        {
            let row = &texts[m];
            let ghost rowd = td[m as int];
            proof {
                assert(rowd == row.deep_view());
                assert(all_groups_from(td, m as int) == match_texts_from(rowd, 1)
                    + all_groups_from(td, m as int + 1));
                assert(groups.deep_view() + (match_texts_from(rowd, 1) + all_groups_from(
                    td,
                    m as int + 1,
                )) =~= (groups.deep_view() + match_texts_from(rowd, 1)) + all_groups_from(
                    td,
                    m as int + 1,
                ));
                assert(all_named_from(nd, td, m as int) == match_named_from(nd, rowd, 1)
                    + all_named_from(nd, td, m as int + 1));
                assert(entries_view(entries@) + (match_named_from(nd, rowd, 1) + all_named_from(
                    nd,
                    td,
                    m as int + 1,
                )) =~= (entries_view(entries@) + match_named_from(nd, rowd, 1)) + all_named_from(
                    nd,
                    td,
                    m as int + 1,
                ));
            }
            let mut j: usize = 1;
            while j < row.len()
                invariant
                    1 <= j,
                    j <= row.len() || j == 1,
                    nd == names.deep_view(),
                    rowd == row.deep_view(),
                    all_groups_from(td, 0) == (groups.deep_view() + match_texts_from(
                        rowd,
                        j as int,
                    )) + all_groups_from(td, m as int + 1),
                    base_entries(content@) + all_named_from(nd, td, 0) == (entries_view(entries@)
                        + match_named_from(nd, rowd, j as int)) + all_named_from(
                        nd,
                        td,
                        m as int + 1,
                    ),
                decreases row.len() - j,
            {
                let ghost gpre = groups.deep_view();
                let ghost epre = entries_view(entries@);
                let ghost head = match rowd[j as int] {
                    Some(t) => seq![t],
                    None => Seq::<Seq<char>>::empty(),
                };
                match &row[j] {
                    Some(t) => {
                        groups.push(t.clone());
                        proof {
                            assert(rowd[j as int] == Some(t@));
                            assert(groups.deep_view() =~= gpre.push(t@));
                            assert(gpre.push(t@) + match_texts_from(rowd, j as int + 1) =~= gpre
                                + match_texts_from(rowd, j as int));
                        }
                    },
                    None => {
                        proof {
                            assert(rowd[j as int] is None);
                            assert(gpre + match_texts_from(rowd, j as int + 1) =~= gpre
                                + match_texts_from(rowd, j as int));
                        }
                    },
                }
                if j < names.len() {
                    let mut pushed: bool = false;
                    match (&names[j], &row[j]) {
                        (Some(nm), Some(t)) => {
                            entries.push((nm.clone(), t.clone()));
                            pushed = true;
                            proof {
                                assert(nd[j as int] == Some(nm@));
                                assert(rowd[j as int] == Some(t@));
                                assert(entries_view(entries@) =~= epre.push((nm@, t@)));
                                assert(epre.push((nm@, t@)) + match_named_from(
                                    nd,
                                    rowd,
                                    j as int + 1,
                                ) =~= epre + match_named_from(nd, rowd, j as int));
                            }
                        },
                        _ => {
                            proof {
                                assert(epre + match_named_from(nd, rowd, j as int + 1) =~= epre
                                    + match_named_from(nd, rowd, j as int));
                            }
                        },
                    }
                } else {
                    proof {
                        assert(match_named_from(nd, rowd, j as int) =~= Seq::<(
                            Seq<char>,
                            Seq<char>,
                        )>::empty());
                        assert(match_named_from(nd, rowd, j as int + 1) =~= Seq::<(
                            Seq<char>,
                            Seq<char>,
                        )>::empty());
                    }
                }
                j = j + 1;
            }
            proof {
                assert(match_texts_from(rowd, j as int) =~= Seq::<Seq<char>>::empty());
                assert(match_named_from(nd, rowd, j as int) =~= Seq::<(
                    Seq<char>,
                    Seq<char>,
                )>::empty());
                assert((groups.deep_view() + match_texts_from(rowd, j as int)) + all_groups_from(
                    td,
                    m as int + 1,
                ) =~= groups.deep_view() + all_groups_from(td, m as int + 1));
                assert((entries_view(entries@) + match_named_from(nd, rowd, j as int))
                    + all_named_from(nd, td, m as int + 1) =~= entries_view(entries@)
                    + all_named_from(nd, td, m as int + 1));
            }
            m = m + 1;
        }
        let ctx = RegexContext { entries, groups, default_sep: String::from_str(" ") };
        proof {
            assert(all_groups_from(td, texts.len() as int) =~= Seq::<Seq<char>>::empty());
            assert(all_named_from(nd, td, texts.len() as int) =~= Seq::<(
                Seq<char>,
                Seq<char>,
            )>::empty());
            assert(ctx@.entries =~= built_ctx(content@, nd, td).entries);
            assert(ctx@.groups =~= built_ctx(content@, nd, td).groups);
            assert(ctx@ =~= built_ctx(content@, nd, td));
        }
        ctx
    }

    /// Build the context of one line by running the pattern over it;
    /// the shape of the result is fixed, the captures are whatever the
    /// pattern found.
    pub fn builder(pattern: &regex::Regex, content: &str) -> (ctx: RegexContext)
        ensures
            exists|names: Seq<Option<Seq<char>>>, texts: Seq<Seq<Option<Seq<char>>>>|
                ctx@ == built_ctx(content@, names, texts),
            ctx@.default_sep == " "@,
            spec_whole(ctx@) == Some(content@),
            lookup(ctx@.entries, "0"@) == Some(content@),
    {
        let names = crate::re::capture_names_of(pattern);
        let texts = crate::re::captures_of(pattern, content);
        let ctx = Self::from_captures(content, &names, &texts);
        proof {
            let nd = names.deep_view();
            let td = texts.deep_view();
            assert(ctx@ == built_ctx(content@, nd, td));
            assert(names_wf(nd));
            lemma_all_named_keys_wf(nd, td, 0);
            let named = all_named_from(nd, td, 0);
            reveal_strlit("0");
            assert(("0")@.len() == 1);
            assert(("0")@[0] == '0');
            assert(forall|p: int|
                0 <= p < named.len() ==> (#[trigger] named[p]).0 != Seq::<char>::empty());
            assert(forall|p: int| 0 <= p < named.len() ==> (#[trigger] named[p]).0 != ("0")@);
            let base = base_entries(content@);
            lemma_lookup_append_miss(base, named, Seq::empty());
            lemma_lookup_append_miss(base, named, ("0")@);
            assert(base.last() == (("0")@, content@));
            assert(("0")@ != Seq::<char>::empty());
            assert(base.drop_last() =~= seq![(Seq::<char>::empty(), content@)]);
            assert(seq![(Seq::<char>::empty(), content@)].last() == (
            Seq::<char>::empty(),
            content@,
            ));
            assert(lookup(base.drop_last(), Seq::<char>::empty()) == Some(content@));
            assert(lookup(base, Seq::<char>::empty()) == Some(content@));
            assert(lookup(base, ("0")@) == Some(content@));
            assert(ctx@.entries == base + named);
        }
        ctx
    }
}

/// Joining after appending one group appends the separator and the
/// group to the joined text, once the span is non-empty.
pub proof fn lemma_join_push(gs: Seq<Seq<char>>, sep: Seq<char>, x: Seq<char>)
    requires
        gs.len() >= 1,
    ensures
        spec_join(gs.push(x), sep) == spec_join(gs, sep) + sep + x,
    decreases gs.len(),
{
    if gs.len() == 1 {
        assert(gs.push(x).drop_first() =~= seq![x]);
        assert(spec_join(seq![x], sep) == x);
        assert(gs.push(x)[0] == gs[0]);
        assert(spec_join(gs.push(x), sep) == gs[0] + sep + x);
        assert(spec_join(gs, sep) == gs[0]);
    } else {
        lemma_join_push(gs.drop_first(), sep, x);
        assert(gs.push(x).drop_first() =~= gs.drop_first().push(x));
        assert(spec_join(gs.push(x), sep) == gs[0] + sep + spec_join(gs.drop_first().push(x), sep));
        assert(spec_join(gs.drop_first().push(x), sep) == spec_join(gs.drop_first(), sep) + sep
            + x);
        assert(gs[0] + sep + (spec_join(gs.drop_first(), sep) + sep + x) =~= (gs[0] + sep
            + spec_join(gs.drop_first(), sep)) + sep + x);
    }
}

} // verus!
