//! Field grammar: classification of one `{...}` token into a named
//! group, a numbered group, a joined range (with optional separator
//! override), or a split range.
//!
//! The four syntaxes are tried in order: bare integer, bare word
//! (possibly empty), two-dot range `left?..right?` with an optional
//! `:separator` suffix, three-dot range `left?...right?`.  A token that
//! matches none of them stays literal text, braces and all.

use vstd::prelude::*;

use crate::range::Range;

verus! {

/// ASCII whitespace, as allowed around a bare integer or word.
pub open spec fn is_space_char(c: char) -> bool {
    c == ' ' || c == '\t' || c == '\n' || c == '\u{b}' || c == '\u{c}' || c == '\r'
}

/// ASCII word characters, the alphabet of group names.
pub open spec fn is_word_char(c: char) -> bool {
    ('0' <= c && c <= '9') || ('a' <= c && c <= 'z') || ('A' <= c && c <= 'Z') || c == '_'
}

pub open spec fn is_digit_char(c: char) -> bool {
    '0' <= c && c <= '9'
}

pub open spec fn all_word(s: Seq<char>) -> bool {
    forall|i: int| 0 <= i < s.len() ==> is_word_char(#[trigger] s[i])
}

pub open spec fn all_digits(s: Seq<char>) -> bool {
    forall|i: int| 0 <= i < s.len() ==> is_digit_char(#[trigger] s[i])
}

pub open spec fn no_newline(s: Seq<char>) -> bool {
    forall|i: int| 0 <= i < s.len() ==> #[trigger] s[i] != '\n'
}

/// Index of the first non-space character at or after `i`.
pub open spec fn trim_start_idx(s: Seq<char>, i: int) -> int
    decreases s.len() - i when 0 <= i <= s.len()
{
    if i < s.len() && is_space_char(s[i]) {
        trim_start_idx(s, i + 1)
    } else {
        i
    }
}

/// Index just past the last non-space character at or before `i`.
pub open spec fn trim_end_idx(s: Seq<char>, i: int) -> int
    decreases i when 0 <= i <= s.len()
{
    if i > 0 && is_space_char(s[i - 1]) {
        trim_end_idx(s, i - 1)
    } else {
        i
    }
}

/// The text with surrounding ASCII whitespace removed.
pub open spec fn spec_trim(s: Seq<char>) -> Seq<char> {
    let a = trim_start_idx(s, 0);
    let b = trim_end_idx(s, s.len() as int);
    if a <= b {
        s.subrange(a, b)
    } else {
        Seq::empty()
    }
}

/// Index just past the run of decimal digits starting at `i`.
pub open spec fn digit_run_end(s: Seq<char>, i: int) -> int
    decreases s.len() - i when 0 <= i <= s.len()
{
    if i < s.len() && is_digit_char(s[i]) {
        digit_run_end(s, i + 1)
    } else {
        i
    }
}

/// End of the longest prefix matching an optional minus sign followed
/// by decimal digits.
pub open spec fn sd_prefix_end(s: Seq<char>) -> int {
    if s.len() > 0 && s[0] == '-' {
        digit_run_end(s, 1)
    } else {
        digit_run_end(s, 0)
    }
}

/// Value of a digit string read in base ten.
pub open spec fn digits_val(s: Seq<char>) -> int
    decreases s.len(),
{
    if s.len() == 0 {
        0
    } else {
        digits_val(s.drop_last()) * 10 + (s.last() as u32 - '0' as u32)
    }
}

/// Whether the text has the shape of an optionally signed integer.
pub open spec fn is_int_token(s: Seq<char>) -> bool {
    if s.len() > 0 && s[0] == '-' {
        s.len() > 1 && all_digits(s.subrange(1, s.len() as int))
    } else {
        s.len() > 0 && all_digits(s)
    }
}

/// The signed 32-bit value of an optionally signed digit string, or
/// nothing when the shape is wrong or the value does not fit.
pub open spec fn int_str_val(s: Seq<char>) -> Option<int> {
    if s.len() > 0 && s[0] == '-' {
        let d = s.subrange(1, s.len() as int);
        if d.len() > 0 && all_digits(d) && digits_val(d) <= 0x8000_0000 {
            Some(-digits_val(d))
        } else {
            None
        }
    } else {
        if s.len() > 0 && all_digits(s) && digits_val(s) <= 0x7fff_ffff {
            Some(digits_val(s))
        } else {
            None
        }
    }
}

/// A range bound: absent when the token is empty, otherwise its value,
/// falling back to a default when the token does not read as a number.
pub open spec fn bound_val(s: Seq<char>, default: int) -> Option<int> {
    if s.len() == 0 {
        None
    } else {
        match int_str_val(s) {
            Some(v) => Some(v),
            None => Some(default),
        }
    }
}

/// The range shape determined by which bounds are present.
pub open spec fn make_range(left: Option<int>, right: Option<int>) -> Range {
    match (left, right) {
        (None, None) => Range::Inf,
        (None, Some(r)) => Range::LeftInf(r as i32),
        (Some(l), None) => Range::RightInf(l as i32),
        (Some(l), Some(r)) => Range::Both(l as i32, r as i32),
    }
}

pub open spec fn opt_i32_view(o: Option<i32>) -> Option<int> {
    match o {
        Some(v) => Some(v as int),
        None => None,
    }
}

/// Two-dot range syntax over a token interior: an optional signed
/// bound, `..`, an optional signed bound, and an optional `:separator`
/// suffix whose text may not hold a line break.
pub open spec fn spec_two_dot(s: Seq<char>) -> Option<(Range, Option<Seq<char>>)> {
    let p = sd_prefix_end(s);
    if p + 2 <= s.len() && s[p] == '.' && s[p + 1] == '.' {
        let left = s.subrange(0, p);
        let s2 = s.subrange(p + 2, s.len() as int);
        let q = sd_prefix_end(s2);
        let right = s2.subrange(0, q);
        let rest = s2.subrange(q, s2.len() as int);
        let rng = make_range(bound_val(left, 1), bound_val(right, -1));
        if rest.len() == 0 {
            Some((rng, None))
        } else if rest[0] == ':' && no_newline(rest.subrange(1, rest.len() as int)) {
            Some((rng, Some(rest.subrange(1, rest.len() as int))))
        } else {
            None
        }
    } else {
        None
    }
}

/// Three-dot range syntax over a token interior: like the two-dot
/// syntax, but with `...` and no separator suffix.
pub open spec fn spec_three_dot(s: Seq<char>) -> Option<Range> {
    let p = sd_prefix_end(s);
    if p + 3 <= s.len() && s[p] == '.' && s[p + 1] == '.' && s[p + 2] == '.' {
        let left = s.subrange(0, p);
        let s3 = s.subrange(p + 3, s.len() as int);
        let q = sd_prefix_end(s3);
        if q == s3.len() {
            Some(make_range(bound_val(left, 1), bound_val(s3, -1)))
        } else {
            None
        }
    } else {
        None
    }
}

/// A token is well formed when braces enclose brace-free text.
pub open spec fn well_formed_token(t: Seq<char>) -> bool {
    t.len() >= 2 && t[0] == '{' && t.last() == '}' && (forall|i: int|
        1 <= i < t.len() - 1 ==> #[trigger] t[i] != '{' && t[i] != '}')
}

/// One fragment of a compiled template.
#[derive(Debug)]
pub enum ArgFragment {
    Literal(String),
    NamedGroup(String),
    RangeGroup(Range, Option<String>),
    SplitRangeGroup(Range),
}

/// Mathematical model of a fragment.
pub enum FragView {
    Literal(Seq<char>),
    NamedGroup(Seq<char>),
    RangeGroup(Range, Option<Seq<char>>),
    SplitRangeGroup(Range),
}

impl View for ArgFragment {
    type V = FragView;

    open spec fn view(&self) -> FragView {
        match self {
            ArgFragment::Literal(s) => FragView::Literal(s@),
            ArgFragment::NamedGroup(s) => FragView::NamedGroup(s@),
            ArgFragment::RangeGroup(r, sep) => FragView::RangeGroup(
                *r,
                match sep {
                    Some(s) => Some(s@),
                    None => None,
                },
            ),
            ArgFragment::SplitRangeGroup(r) => FragView::SplitRangeGroup(*r),
        }
    }
}

impl DeepView for ArgFragment {
    type V = FragView;

    open spec fn deep_view(&self) -> FragView {
        self.view()
    }
}

/// Classification of a whole token, braces included.  An integer out
/// of the signed 32-bit range is not a field reference and stays
/// literal.
pub open spec fn spec_parse_field(t: Seq<char>) -> FragView {
    if !well_formed_token(t) {
        FragView::Literal(t)
    } else {
        let s = t.subrange(1, t.len() - 1);
        let w = spec_trim(s);
        if is_int_token(w) {
            match int_str_val(w) {
                Some(v) => FragView::RangeGroup(Range::Single(v as i32), None),
                None => FragView::Literal(t),
            }
        } else if all_word(w) {
            FragView::NamedGroup(w)
        } else if spec_two_dot(s) is Some {
            let (rng, sep) = spec_two_dot(s)->Some_0;
            FragView::RangeGroup(rng, sep)
        } else if spec_three_dot(s) is Some {
            FragView::SplitRangeGroup(spec_three_dot(s)->Some_0)
        } else {
            FragView::Literal(t)
        }
    }
}

fn is_space(c: char) -> (r: bool)
    ensures
        r == is_space_char(c),
{
    c == ' ' || c == '\t' || c == '\n' || c == '\u{b}' || c == '\u{c}' || c == '\r'
}

fn is_word(c: char) -> (r: bool)
    ensures
        r == is_word_char(c),
{
    ('0' <= c && c <= '9') || ('a' <= c && c <= 'z') || ('A' <= c && c <= 'Z') || c == '_'
}

fn is_digit(c: char) -> (r: bool)
    ensures
        r == is_digit_char(c),
{
    '0' <= c && c <= '9'
}

/// First and last trim positions of the text.
fn trim_bounds(s: &str) -> (r: (usize, usize))
    ensures
        r.0 == trim_start_idx(s@, 0),
        r.1 == trim_end_idx(s@, s@.len() as int),
        r.0 <= s@.len(),
        r.1 <= s@.len(),
{
    let n = s.unicode_len();
    let mut a: usize = 0;
    while a < n && is_space(s.get_char(a))
        invariant
            a <= n,
            n == s@.len(),
            trim_start_idx(s@, 0) == trim_start_idx(s@, a as int),
        decreases n - a,
    {
        a = a + 1;
    }
    let mut b: usize = n;
    while b > 0 && is_space(s.get_char(b - 1))
        invariant
            b <= n,
            n == s@.len(),
            trim_end_idx(s@, n as int) == trim_end_idx(s@, b as int),
        decreases b,
    {
        b = b - 1;
    }
    (a, b)
}

/// End of the digit run starting at `from`.
fn digit_run(s: &str, from: usize) -> (r: usize)
    requires
        from <= s@.len(),
    ensures
        r == digit_run_end(s@, from as int),
        from <= r <= s@.len(),
        r < s@.len() ==> !is_digit_char(s@[r as int]),
{
    let n = s.unicode_len();
    let mut i: usize = from;
    while i < n && is_digit(s.get_char(i))
        invariant
            from <= i <= n,
            n == s@.len(),
            digit_run_end(s@, from as int) == digit_run_end(s@, i as int),
        decreases n - i,
    {
        i = i + 1;
    }
    i
}

/// End of the longest signed-digit prefix.
fn sd_prefix(s: &str) -> (r: usize)
    ensures
        r == sd_prefix_end(s@),
        r <= s@.len(),
{
    let n = s.unicode_len();
    if n > 0 && s.get_char(0) == '-' {
        digit_run(s, 1)
    } else {
        digit_run(s, 0)
    }
}

fn digit_val(c: char) -> (d: u64)
    requires
        is_digit_char(c),
    ensures
        d == c as u32 - '0' as u32,
{
    (c as u32 - '0' as u32) as u64
}

/// Read an optionally signed integer, or nothing when the shape is
/// wrong or the value does not fit a signed 32-bit integer.
fn parse_i32_str(w: &str) -> (r: Option<i32>)
    ensures
        opt_i32_view(r) == int_str_val(w@),
{
    let n = w.unicode_len();
    if n == 0 {
        return None;
    }
    let neg = w.get_char(0) == '-';
    let st: usize = if neg {
        1
    } else {
        0
    };
    if st >= n {
        proof {
            assert(w@.subrange(1, w@.len() as int).len() == 0);
        }
        return None;
    }
    let mut i: usize = st;
    let mut acc: u64 = 0;
    let mut over: bool = false;
    while i < n
        invariant
            st <= i <= n,
            st < n,
            n == w@.len(),
            neg <==> w@[0] == '-',
            neg ==> st == 1,
            !neg ==> st == 0,
            all_digits(w@.subrange(st as int, i as int)),
            over ==> digits_val(w@.subrange(st as int, i as int)) > 0x8000_0000,
            !over ==> acc == digits_val(w@.subrange(st as int, i as int)) && acc <= 0x8000_0000,
        decreases n - i,
    {
        let c = w.get_char(i);
        if !is_digit(c) {
            proof {
                assert(w@.subrange(st as int, n as int)[i - st] == w@[i as int]);
                assert(!all_digits(w@.subrange(st as int, n as int)));
                assert(w@.subrange(0, w@.len() as int) =~= w@);
                if neg {
                    assert(w@.subrange(1, w@.len() as int) =~= w@.subrange(st as int, n as int));
                }
            }
            return None;
        }
        let d = digit_val(c);
        proof {
            let pre = w@.subrange(st as int, i as int);
            let post = w@.subrange(st as int, i as int + 1);
            assert(post.drop_last() =~= pre);
            assert(post.last() == w@[i as int]);
            assert(digits_val(post) == digits_val(pre) * 10 + (w@[i as int] as u32 - '0' as u32));
            assert(all_digits(post));
        }
        if !over {
            let nv: u64 = acc * 10 + d;
            if nv > 0x8000_0000 {
                over = true;
            } else {
                acc = nv;
            }
        } else {
            proof {
                let pre = w@.subrange(st as int, i as int);
                let post = w@.subrange(st as int, i as int + 1);
                lemma_digits_val_nonneg(pre);
                assert(digits_val(pre) * 10 >= digits_val(pre)) by {
                    assert(digits_val(pre) * 10 - digits_val(pre) == 9 * digits_val(pre));
                };
                assert(digits_val(post) > 0x8000_0000);
            }
        }
        i = i + 1;
    }
    proof {
        assert(w@.subrange(0, w@.len() as int) =~= w@);
        if neg {
            assert(w@.subrange(1, w@.len() as int) =~= w@.subrange(st as int, i as int));
        }
    }
    if over {
        None
    } else if neg {
        if acc == 0x8000_0000 {
            Some(i32::MIN)
        } else {
            Some(-(acc as i32))
        }
    } else {
        if acc <= 0x7fff_ffff {
            Some(acc as i32)
        } else {
            None
        }
    }
}

/// A digit string never reads as a negative value.
proof fn lemma_digits_val_nonneg(s: Seq<char>)
    requires
        all_digits(s),
    ensures
        digits_val(s) >= 0,
    decreases s.len(),
{
    if s.len() > 0 {
        assert(all_digits(s.drop_last())) by {
            assert(forall|j: int|
                0 <= j < s.len() - 1 ==> #[trigger] s.drop_last()[j] == s[j]);
        };
        lemma_digits_val_nonneg(s.drop_last());
    }
}

/// Read a range bound: absent when empty, else its value with a
/// fallback default.
fn parse_bound(tok: &str, default: i32) -> (r: Option<i32>)
    ensures
        opt_i32_view(r) == bound_val(tok@, default as int),
{
    if tok.unicode_len() == 0 {
        None
    } else {
        match parse_i32_str(tok) {
            Some(v) => Some(v),
            None => Some(default),
        }
    }
}

/// Assemble the range shape from the two optional bounds.
fn assemble_range(left: Option<i32>, right: Option<i32>) -> (r: Range)
    ensures
        r == make_range(opt_i32_view(left), opt_i32_view(right)),
{
    match (left, right) {
        (None, None) => Range::Inf,
        (None, Some(r)) => Range::LeftInf(r),
        (Some(l), None) => Range::RightInf(l),
        (Some(l), Some(r)) => Range::Both(l, r),
    }
}

fn check_all_word(s: &str) -> (r: bool)
    ensures
        r == all_word(s@),
{
    let n = s.unicode_len();
    let mut i: usize = 0;
    while i < n
        invariant
            i <= n,
            n == s@.len(),
            forall|j: int| 0 <= j < i ==> is_word_char(#[trigger] s@[j]),
        decreases n - i,
    {
        if !is_word(s.get_char(i)) {
            return false;
        }
        i = i + 1;
    }
    true
}

fn check_int_token(s: &str) -> (r: bool)
    ensures
        r == is_int_token(s@),
{
    let n = s.unicode_len();
    if n == 0 {
        return false;
    }
    let st: usize = if s.get_char(0) == '-' {
        1
    } else {
        0
    };
    if st >= n {
        return false;
    }
    let e = digit_run(s, st);
    proof {
        lemma_digit_run_props(s@, st as int);
        assert(s@.subrange(0, n as int) =~= s@);
        if e < n {
            assert(s@.subrange(st as int, n as int)[e - st] == s@[e as int]);
        }
    }
    e == n
}

fn check_no_newline(s: &str) -> (r: bool)
    ensures
        r == no_newline(s@),
{
    let n = s.unicode_len();
    let mut i: usize = 0;
    while i < n
        invariant
            i <= n,
            n == s@.len(),
            forall|j: int| 0 <= j < i ==> #[trigger] s@[j] != '\n',
        decreases n - i,
    {
        if s.get_char(i) == '\n' {
            return false;
        }
        i = i + 1;
    }
    true
}

/// Every character of a digit run is a digit.
proof fn lemma_digit_run_props(s: Seq<char>, from: int)
    requires
        0 <= from <= s.len(),
    ensures
        from <= digit_run_end(s, from) <= s.len(),
        forall|j: int| from <= j < digit_run_end(s, from) ==> is_digit_char(#[trigger] s[j]),
        all_digits(s.subrange(from, digit_run_end(s, from))),
    decreases s.len() - from,
{
    if from < s.len() && is_digit_char(s[from]) {
        lemma_digit_run_props(s, from + 1);
    }
    let e = digit_run_end(s, from);
    assert(forall|j: int|
        0 <= j < e - from ==> #[trigger] s.subrange(from, e)[j] == s[from + j]);
}


impl ArgFragment {
    /// Classify one field token, braces included, trying the four
    /// syntaxes in order and keeping unrecognized text literal.
    pub fn parse(field_string: &str) -> (r: ArgFragment)
        ensures
            r@ == spec_parse_field(field_string@),
    {
        let n = field_string.unicode_len();
        if n < 2 || field_string.get_char(0) != '{' || field_string.get_char(n - 1) != '}' {
            return ArgFragment::Literal(field_string.to_owned());
        }
        let mut i: usize = 1;
        while i < n - 1
            invariant
                1 <= i <= n - 1,
                n == field_string@.len(),
                n >= 2,
                forall|j: int|
                    1 <= j < i ==> #[trigger] field_string@[j] != '{' && field_string@[j] != '}',
            decreases n - 1 - i,
        {
            let c = field_string.get_char(i);
            if c == '{' || c == '}' {
                return ArgFragment::Literal(field_string.to_owned());
            }
            i = i + 1;
        }
        proof {
            assert(field_string@.last() == field_string@[n - 1]);
            assert(well_formed_token(field_string@));
        }
        let s = field_string.substring_char(1, n - 1);
        let sn = s.unicode_len();
        let tb = trim_bounds(s);
        let w: &str = if tb.0 <= tb.1 {
            s.substring_char(tb.0, tb.1)
        } else {
            ""
        };
        proof {
            if tb.0 > tb.1 {
                reveal_strlit("");
                assert(""@ =~= Seq::<char>::empty());
            }
            assert(w@ == spec_trim(s@));
        }
        if check_int_token(w) {
            match parse_i32_str(w) {
                Some(v) => {
                    return ArgFragment::RangeGroup(Range::Single(v), None);
                },
                None => {
                    return ArgFragment::Literal(field_string.to_owned());
                },
            }
        }
        if check_all_word(w) {
            return ArgFragment::NamedGroup(w.to_owned());
        }
        let p = sd_prefix(s);
        if p + 1 < sn && s.get_char(p) == '.' && s.get_char(p + 1) == '.' {
            let left_str = s.substring_char(0, p);
            let s2 = s.substring_char(p + 2, sn);
            let s2n = s2.unicode_len();
            let q = sd_prefix(s2);
            let left = parse_bound(left_str, 1);
            let right = parse_bound(s2.substring_char(0, q), -1);
            if q == s2n {
                let rng = assemble_range(left, right);
                return ArgFragment::RangeGroup(rng, None);
            }
            if s2.get_char(q) == ':' {
                let sep = s2.substring_char(q + 1, s2n);
                if check_no_newline(sep) {
                    let rng = assemble_range(left, right);
                    proof {
                        let s2v = s@.subrange(p as int + 2, s@.len() as int);
                        let rest = s2v.subrange(q as int, s2v.len() as int);
                        assert(rest[0] == s2v[q as int]);
                        assert(rest.subrange(1, rest.len() as int) =~= sep@);
                    }
                    return ArgFragment::RangeGroup(rng, Some(sep.to_owned()));
                }
            }
            proof {
                let s2v = s@.subrange(p as int + 2, s@.len() as int);
                let rest = s2v.subrange(q as int, s2v.len() as int);
                assert(rest[0] == s2v[q as int]);
                if s2v[q as int] == ':' {
                    assert(rest.subrange(1, rest.len() as int) =~= s2@.subrange(
                        q as int + 1,
                        s2@.len() as int,
                    ));
                }
                assert(spec_two_dot(s@) is None);
            }
        }
        if p + 2 < sn && s.get_char(p) == '.' && s.get_char(p + 1) == '.' && s.get_char(p + 2)
            == '.' {
            let left_str = s.substring_char(0, p);
            let s3 = s.substring_char(p + 3, sn);
            let s3n = s3.unicode_len();
            let q3 = sd_prefix(s3);
            if q3 == s3n {
                let left = parse_bound(left_str, 1);
                let right = parse_bound(s3, -1);
                return ArgFragment::SplitRangeGroup(assemble_range(left, right));
            }
        }
        ArgFragment::Literal(field_string.to_owned())
    }
}

} // verus!
