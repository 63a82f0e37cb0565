//! Template compiler: scan a raw argument string for `{...}` field
//! tokens interleaved with literal text, producing an ordered fragment
//! sequence.  A token is a `{`, a run of brace-free characters, and a
//! `}`; the earliest such token wins, and a `{` inside a candidate
//! restarts the candidate at that position.

use vstd::prelude::*;

use crate::field::{spec_parse_field, ArgFragment, FragView};

verus! {

/// Position of the next field token at or after `i`: the indices of
/// its opening and closing brace.
pub open spec fn next_token(s: Seq<char>, i: int) -> Option<(int, int)>
    decreases s.len() - i when 0 <= i <= s.len()
{
    if i >= s.len() {
        None
    } else if s[i] == '{' {
        scan_close(s, i, i + 1)
    } else {
        next_token(s, i + 1)
    }
}

/// Close the candidate token opened at `start`, scanning from `k`: a
/// `}` closes it, a `{` restarts the candidate, the end of the text
/// abandons it.
pub open spec fn scan_close(s: Seq<char>, start: int, k: int) -> Option<(int, int)>
    decreases s.len() - k when 0 <= k <= s.len()
{
    if k >= s.len() {
        None
    } else if s[k] == '}' {
        Some((start, k))
    } else if s[k] == '{' {
        scan_close(s, k, k + 1)
    } else {
        scan_close(s, start, k + 1)
    }
}

/// A found token sits inside the text, starts with `{`, ends with `}`,
/// and holds no brace in between.
pub proof fn lemma_next_token_bounds(s: Seq<char>, i: int)
    requires
        0 <= i <= s.len(),
    ensures
        match next_token(s, i) {
            Some(t) => i <= t.0 < t.1 < s.len() && s[t.0] == '{' && s[t.1] == '}' && (forall|
                m: int,
            | t.0 < m < t.1 ==> #[trigger] s[m] != '{' && s[m] != '}'),
            None => true,
        },
    decreases s.len() - i,
{
    if i >= s.len() {
    } else if s[i] == '{' {
        lemma_scan_close_full(s, i, i + 1);
    } else {
        lemma_next_token_bounds(s, i + 1);
    }
}

proof fn lemma_scan_close_full(s: Seq<char>, start: int, k: int)
    requires
        0 <= start < k <= s.len(),
        s[start] == '{',
        forall|m: int| start < m < k ==> #[trigger] s[m] != '{' && s[m] != '}',
    ensures
        match scan_close(s, start, k) {
            Some(t) => start <= t.0 < t.1 < s.len() && s[t.0] == '{' && s[t.1] == '}' && (forall|
                m: int,
            | t.0 < m < t.1 ==> #[trigger] s[m] != '{' && s[m] != '}'),
            None => true,
        },
    decreases s.len() - k,
{
    if k >= s.len() {
    } else if s[k] == '}' {
    } else if s[k] == '{' {
        lemma_scan_close_full(s, k, k + 1);
    } else {
        lemma_scan_close_full(s, start, k + 1);
    }
}

/// The fragment sequence of the template text from `from` on: a
/// literal between tokens, each token classified by the field grammar,
/// and a final literal after the last token.
pub open spec fn spec_fragments_from(s: Seq<char>, from: int) -> Seq<FragView>
    decreases s.len() - from when 0 <= from <= s.len() via spec_fragments_from_dec
{
    match next_token(s, from) {
        None => seq![FragView::Literal(s.subrange(from, s.len() as int))],
        Some(t) => seq![
            FragView::Literal(s.subrange(from, t.0)),
            spec_parse_field(s.subrange(t.0, t.1 + 1)),
        ] + spec_fragments_from(s, t.1 + 1),
    }
}

#[via_fn]
proof fn spec_fragments_from_dec(s: Seq<char>, from: int) {
    lemma_next_token_bounds(s, from);
}

/// The compiled fragment sequence of a whole template string.
pub open spec fn spec_template(s: Seq<char>) -> Seq<FragView> {
    spec_fragments_from(s, 0)
}

/// Find the next field token at or after `from`.
fn find_token(s: &str, from: usize) -> (r: Option<(usize, usize)>)
    requires
        from <= s@.len(),
    ensures
        match r {
            Some(t) => next_token(s@, from as int) == Some((t.0 as int, t.1 as int)) && from <= t.0
                < t.1 < s@.len(),
            None => next_token(s@, from as int) is None,
        },
{
    let n = s.unicode_len();
    let mut k: usize = from;
    let mut start: usize = 0;
    let mut have: bool = false;
    while k < n
        invariant
            from <= k <= n,
            n == s@.len(),
            have ==> from <= start < k,
            if have {
                next_token(s@, from as int) == scan_close(s@, start as int, k as int)
            } else {
                next_token(s@, from as int) == next_token(s@, k as int)
            },
        decreases n - k,
    {
        let c = s.get_char(k);
        if have {
            if c == '}' {
                return Some((start, k));
            } else if c == '{' {
                start = k;
            }
        } else {
            if c == '{' {
                have = true;
                start = k;
            }
        }
        k = k + 1;
    }
    None
}

/// A compiled template: the ordered fragments of one raw argument
/// string, shared read-only across every line expanded with it.
#[derive(Debug)]
pub struct ArgTemplate {
    pub fragments: Vec<ArgFragment>,
}

impl View for ArgTemplate {
    type V = Seq<FragView>;

    open spec fn view(&self) -> Seq<FragView> {
        self.fragments.deep_view()
    }
}

impl DeepView for ArgTemplate {
    type V = Seq<FragView>;

    open spec fn deep_view(&self) -> Seq<FragView> {
        self.view()
    }
}

impl ArgTemplate {
    /// Compile one raw argument string into its fragment sequence.
    pub fn from(arg: &str) -> (r: ArgTemplate)
        ensures
            r@ == spec_template(arg@),
    {
        let n = arg.unicode_len();
        let mut fragments: Vec<ArgFragment> = Vec::new();
        let mut last: usize = 0;
        let mut done: bool = false;
        while !done
            invariant
                last <= n,
                n == arg@.len(),
                done ==> next_token(arg@, last as int) is None,
                spec_template(arg@) =~= fragments.deep_view() + spec_fragments_from(
                    arg@,
                    last as int,
                ),
            decreases n - last + (if done {
                0int
            } else {
                1int
            }),
        {
            match find_token(arg, last) {
                None => {
                    done = true;
                },
                Some(t) => {
                    let lit = arg.substring_char(last, t.0).to_owned();
                    let tok = arg.substring_char(t.0, t.1 + 1);
                    let frag = ArgFragment::parse(tok);
                    let ghost pre = fragments.deep_view();
                    fragments.push(ArgFragment::Literal(lit));
                    fragments.push(frag);
                    proof {
                        assert(fragments.deep_view() =~= pre + seq![
                            FragView::Literal(arg@.subrange(last as int, t.0 as int)),
                            spec_parse_field(arg@.subrange(t.0 as int, t.1 as int + 1)),
                        ]);
                    }
                    last = t.1 + 1;
                },
            }
        }
        let tail = arg.substring_char(last, n).to_owned();
        let ghost pre = fragments.deep_view();
        fragments.push(ArgFragment::Literal(tail));
        proof {
            assert(fragments.deep_view() =~= pre + seq![
                FragView::Literal(arg@.subrange(last as int, n as int)),
            ]);
        }
        ArgTemplate { fragments }
    }
}

} // verus!
