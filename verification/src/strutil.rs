//! Character-level string primitives: searching, splitting, trimming,
//! decimal parsing and formatting. Everything is specified over `Seq<char>`
//! views.

use vstd::prelude::*;

verus! {

/// Index of the first occurrence of `c` in `s` at or after `i`, or `s.len()`
/// if there is none.
pub open spec fn find_at(s: Seq<char>, c: char, i: int) -> int
    decreases s.len() - i,
{
    if i < 0 || i >= s.len() {
        s.len() as int
    } else if s[i] == c {
        i
    } else {
        find_at(s, c, i + 1)
    }
}

pub proof fn lemma_find_at(s: Seq<char>, c: char, i: int)
    requires
        0 <= i <= s.len(),
    ensures
        i <= find_at(s, c, i) <= s.len(),
        find_at(s, c, i) < s.len() ==> s[find_at(s, c, i)] == c,
        forall|j: int| i <= j < find_at(s, c, i) ==> s[j] != c,
    decreases s.len() - i,
{
    if i < s.len() && s[i] != c {
        lemma_find_at(s, c, i + 1);
    }
}

/// The segments of `s` between occurrences of the separator `c`, starting at
/// `start`; mirrors `str::split` on a single character.
pub open spec fn split_at(s: Seq<char>, c: char, start: int) -> Seq<Seq<char>>
    decreases s.len() - start,
    via split_at_dec
{
    let i = find_at(s, c, start);
    if i >= s.len() {
        seq![s.subrange(if start <= s.len() { start } else { s.len() as int }, s.len() as int)]
    } else {
        seq![s.subrange(if start <= i { start } else { i }, i)] + split_at(s, c, i + 1)
    }
}

#[via_fn]
proof fn split_at_dec(s: Seq<char>, c: char, start: int) {
    if 0 <= start <= s.len() {
        lemma_find_at(s, c, start);
    }
}

pub open spec fn spec_split(s: Seq<char>, c: char) -> Seq<Seq<char>> {
    split_at(s, c, 0)
}

/// `spec_split` always yields at least one segment, each segment is free of
/// the separator, and segment `k` sits in `s` at the offset given by the
/// lengths of the segments before it (with one separator after each).
pub proof fn lemma_split_at(s: Seq<char>, c: char, start: int)
    requires
        0 <= start <= s.len(),
    ensures
        split_at(s, c, start).len() >= 1,
        ({
            let parts = split_at(s, c, start);
            &&& parts[0] == s.subrange(start, find_at(s, c, start))
            &&& (parts.len() == 1 <==> find_at(s, c, start) == s.len())
            &&& parts.last() == s.subrange(s.len() - parts.last().len(), s.len() as int)
        }),
    decreases s.len() - start,
{
    lemma_find_at(s, c, start);
    let i = find_at(s, c, start);
    if i < s.len() {
        lemma_split_at(s, c, i + 1);
    }
}

/// Offset of segment `k` within `s` when splitting from `start`:
/// the segment boundaries advance by each earlier segment plus its separator.
pub proof fn lemma_split_at_offset(s: Seq<char>, c: char, start: int, k: int)
    requires
        0 <= start <= s.len(),
        0 <= k < split_at(s, c, start).len(),
    ensures
        ({
            let parts = split_at(s, c, start);
            let off = start + seg_offset(parts, k);
            &&& 0 <= off && off + parts[k].len() <= s.len()
            &&& parts[k] == s.subrange(off, off + parts[k].len())
            &&& (k < parts.len() - 1 ==> off + parts[k].len() < s.len() && s[off
                + parts[k].len()] == c)
            &&& (k == parts.len() - 1 ==> off + parts[k].len() == s.len())
        }),
    decreases s.len() - start,
{
    lemma_find_at(s, c, start);
    let parts = split_at(s, c, start);
    let i = find_at(s, c, start);
    if k == 0 {
        assert(parts[0] == s.subrange(start, i));
    } else {
        lemma_split_at_offset(s, c, i + 1, k - 1);
        assert(parts[k] == split_at(s, c, i + 1)[k - 1]);
        assert(seg_offset(parts, k) == parts[0].len() + 1 + seg_offset(
            split_at(s, c, i + 1),
            k - 1,
        )) by {
            lemma_seg_offset_shift(parts, split_at(s, c, i + 1), k);
        }
    }
}

/// Sum of the lengths of the first `k` segments, counting one separator each.
pub open spec fn seg_offset(parts: Seq<Seq<char>>, k: int) -> int
    decreases k,
{
    if k <= 0 {
        0
    } else {
        seg_offset(parts, k - 1) + parts[k - 1].len() + 1
    }
}

proof fn lemma_seg_offset_shift(parts: Seq<Seq<char>>, rest: Seq<Seq<char>>, k: int)
    requires
        1 <= k < parts.len(),
        parts.len() == rest.len() + 1,
        forall|j: int| 1 <= j < parts.len() ==> parts[j] == rest[j - 1],
    ensures
        seg_offset(parts, k) == parts[0].len() + 1 + seg_offset(rest, k - 1),
    decreases k,
{
    if k > 1 {
        lemma_seg_offset_shift(parts, rest, k - 1);
        assert(parts[k - 1] == rest[k - 2]);
    } else {
        assert(seg_offset(parts, 0) == 0);
        assert(seg_offset(rest, 0) == 0);
    }
}

/// First occurrence of `c` in `s` at or after `start`, or the length of `s`.
pub fn find_from(s: &str, c: char, start: usize) -> (i: usize)
    requires
        start <= s@.len(),
    ensures
        i == find_at(s@, c, start as int),
        start <= i <= s@.len(),
{
    proof {
        lemma_find_at(s@, c, start as int);
    }
    let n: usize = s.unicode_len();
    let mut i: usize = start;
    while i < n
        invariant
            start <= i <= n == s@.len(),
            find_at(s@, c, start as int) == find_at(s@, c, i as int),
        decreases n - i,
    {
        if s.get_char(i) == c {
            return i;
        }
        i = i + 1;
    }
    i
}

/// First occurrence of `c` in `s`, if any.
pub fn find_char(s: &str, c: char) -> (r: Option<usize>)
    ensures
        match r {
            Some(i) => i == find_at(s@, c, 0) && i < s@.len(),
            None => find_at(s@, c, 0) == s@.len(),
        },
{
    let n: usize = s.unicode_len();
    let i: usize = find_from(s, c, 0);
    if i < n {
        Some(i)
    } else {
        None
    }
}

/// Splits `s` on the character `c`; mirrors `str::split`.
pub fn split_char(s: &str, c: char) -> (parts: Vec<String>)
    ensures
        parts@.map_values(|t: String| t@) == spec_split(s@, c),
{
    let n: usize = s.unicode_len();
    let mut parts: Vec<String> = Vec::new();
    let mut start: usize = 0;
    proof {
        assert(spec_split(s@, c) =~= parts@.map_values(|t: String| t@) + split_at(s@, c, 0));
    }
    loop
        invariant_except_break
            0 <= start <= n == s@.len(),
            spec_split(s@, c) == parts@.map_values(|t: String| t@) + split_at(s@, c, start as int),
        ensures
            parts@.map_values(|t: String| t@) == spec_split(s@, c),
        decreases n - start,
    {
        proof {
            lemma_find_at(s@, c, start as int);
        }
        let i: usize = find_from(s, c, start);
        let seg = s.substring_char(start, i).to_owned();
        let ghost old_views = parts@.map_values(|t: String| t@);
        parts.push(seg);
        proof {
            assert(parts@.map_values(|t: String| t@) =~= old_views.push(s@.subrange(
                start as int,
                i as int,
            )));
            if i < n {
                assert(split_at(s@, c, start as int) == seq![s@.subrange(start as int, i as int)]
                    + split_at(s@, c, i + 1));
                assert(spec_split(s@, c) =~= parts@.map_values(|t: String| t@) + split_at(
                    s@,
                    c,
                    i + 1,
                ));
            } else {
                assert(split_at(s@, c, start as int) == seq![s@.subrange(start as int, n as int)]);
                assert(spec_split(s@, c) =~= parts@.map_values(|t: String| t@));
            }
        }
        if i == n {
            break ;
        }
        start = i + 1;
    }
    parts
}

/// The whitespace characters stripped by trimming and separating tokens.
pub open spec fn is_space(c: char) -> bool {
    c == ' ' || c == '\t' || c == '\r' || c == '\n'
}

/// First index at or after `i` holding a non-space, or `s.len()`.
pub open spec fn skip_spaces(s: Seq<char>, i: int) -> int
    decreases s.len() - i,
{
    if i < 0 || i >= s.len() {
        s.len() as int
    } else if !is_space(s[i]) {
        i
    } else {
        skip_spaces(s, i + 1)
    }
}

pub proof fn lemma_skip_spaces(s: Seq<char>, i: int)
    requires
        0 <= i <= s.len(),
    ensures
        i <= skip_spaces(s, i) <= s.len(),
        skip_spaces(s, i) < s.len() ==> !is_space(s[skip_spaces(s, i)]),
        forall|j: int| i <= j < skip_spaces(s, i) ==> is_space(s[j]),
    decreases s.len() - i,
{
    if i < s.len() && is_space(s[i]) {
        lemma_skip_spaces(s, i + 1);
    }
}

/// One past the last non-space strictly before `i`, or 0.
pub open spec fn rskip_spaces(s: Seq<char>, i: int) -> int
    decreases i,
{
    if i <= 0 {
        0
    } else if !is_space(s[i - 1]) {
        i
    } else {
        rskip_spaces(s, i - 1)
    }
}

pub proof fn lemma_rskip_spaces(s: Seq<char>, i: int)
    requires
        0 <= i <= s.len(),
    ensures
        0 <= rskip_spaces(s, i) <= i,
        rskip_spaces(s, i) > 0 ==> !is_space(s[rskip_spaces(s, i) - 1]),
        forall|j: int| rskip_spaces(s, i) <= j < i ==> is_space(s[j]),
    decreases i,
{
    if i > 0 && is_space(s[i - 1]) {
        lemma_rskip_spaces(s, i - 1);
    }
}

/// `s` with leading and trailing whitespace removed.
pub open spec fn spec_trim(s: Seq<char>) -> Seq<char> {
    let a = skip_spaces(s, 0);
    if a == s.len() {
        Seq::empty()
    } else {
        s.subrange(a, rskip_spaces(s, s.len() as int))
    }
}

pub fn is_space_char(c: char) -> (r: bool)
    ensures
        r == is_space(c),
{
    c == ' ' || c == '\t' || c == '\r' || c == '\n'
}

/// Strips leading and trailing whitespace; mirrors `str::trim`.
pub fn trim_spaces<'a>(s: &'a str) -> (r: &'a str)
    ensures
        r@ == spec_trim(s@),
{
    proof {
        lemma_skip_spaces(s@, 0);
        lemma_rskip_spaces(s@, s@.len() as int);
    }
    let n: usize = s.unicode_len();
    let mut a: usize = 0;
    while a < n && is_space_char(s.get_char(a))
        invariant
            0 <= a <= n == s@.len(),
            skip_spaces(s@, 0) == skip_spaces(s@, a as int),
        decreases n - a,
    {
        a = a + 1;
    }
    if a == n {
        return s.substring_char(n, n);
    }
    let mut b: usize = n;
    while b > a && is_space_char(s.get_char(b - 1))
        invariant
            a < b <= n == s@.len(),
            a == skip_spaces(s@, 0) && a < n && !is_space(s@[a as int]),
            rskip_spaces(s@, n as int) == rskip_spaces(s@, b as int),
        decreases b,
    {
        b = b - 1;
    }
    proof {
        assert(rskip_spaces(s@, b as int) == b);
    }
    s.substring_char(a, b)
}

/// Decimal digits and their numeric reading.
pub open spec fn is_digit(c: char) -> bool {
    '0' <= c && c <= '9'
}

pub open spec fn digit_val(c: char) -> int {
    c as int - '0' as int
}

pub open spec fn all_digits(s: Seq<char>) -> bool {
    forall|i: int| 0 <= i < s.len() ==> is_digit(s[i])
}

/// The number a digit string denotes, most significant digit first.
pub open spec fn digits_val(s: Seq<char>) -> int
    decreases s.len(),
{
    if s.len() == 0 {
        0
    } else {
        digits_val(s.drop_last()) * 10 + digit_val(s.last())
    }
}

pub proof fn lemma_digits_val_bounds(s: Seq<char>)
    requires
        all_digits(s),
    ensures
        digits_val(s) >= 0,
    decreases s.len(),
{
    if s.len() > 0 {
        assert(all_digits(s.drop_last()));
        lemma_digits_val_bounds(s.drop_last());
    }
}

/// Extending a digit string never shrinks its value.
pub proof fn lemma_digits_val_prefix(s: Seq<char>, i: int)
    requires
        all_digits(s),
        0 <= i <= s.len(),
    ensures
        digits_val(s.subrange(0, i)) <= digits_val(s),
    decreases s.len() - i,
{
    if i < s.len() {
        lemma_digits_val_prefix(s, i + 1);
        let p = s.subrange(0, i + 1);
        assert(p.drop_last() =~= s.subrange(0, i));
        assert(all_digits(p.drop_last()));
        lemma_digits_val_bounds(p.drop_last());
        assert(digits_val(p) == digits_val(s.subrange(0, i)) * 10 + digit_val(p.last()));
    } else {
        assert(s.subrange(0, i) =~= s);
    }
}

/// Whether `s` is a non-empty digit string whose value fits below `bound`.
pub open spec fn dec_fits(s: Seq<char>, bound: int) -> bool {
    s.len() > 0 && all_digits(s) && digits_val(s) <= bound
}

/// Reads a non-negative decimal number; mirrors `str::parse::<u64>` on
/// digit-only input.
pub fn parse_u64_dec(s: &str) -> (r: Option<u64>)
    ensures
        r matches Some(v) ==> dec_fits(s@, u64::MAX as int) && v == digits_val(s@),
        r is None ==> !dec_fits(s@, u64::MAX as int),
{
    let n: usize = s.unicode_len();
    if n == 0 {
        return None;
    }
    let mut acc: u64 = 0;
    let mut i: usize = 0;
    while i < n
        invariant
            0 <= i <= n == s@.len(),
            all_digits(s@.subrange(0, i as int)),
            acc == digits_val(s@.subrange(0, i as int)),
        decreases n - i,
    {
        let c = s.get_char(i);
        if c < '0' || c > '9' {
            return None;
        }
        let d: u64 = (c as u8 - 48) as u64;
        proof {
            assert(d == digit_val(c)) by {
                assert(c as int <= 57);
            }
        }
        if acc > (u64::MAX - d) / 10 {
            proof {
                let p = s@.subrange(0, i + 1);
                assert(p.drop_last() =~= s@.subrange(0, i as int));
                assert(all_digits(p));
                assert(digits_val(p) == acc * 10 + d);
                assert(acc * 10 + d > u64::MAX) by (nonlinear_arith)
                    requires
                        acc > (u64::MAX - d) / 10,
                        0 <= d <= 9,
                ;
                if all_digits(s@) {
                    lemma_digits_val_prefix(s@, i + 1);
                }
            }
            return None;
        }
        proof {
            assert(acc * 10 + d <= u64::MAX) by (nonlinear_arith)
                requires
                    acc <= (u64::MAX - d) / 10,
                    0 <= d <= 9,
            ;
            let p = s@.subrange(0, i + 1);
            assert(p.drop_last() =~= s@.subrange(0, i as int));
            assert(digits_val(p) == acc * 10 + d);
        }
        acc = acc * 10 + d;
        i = i + 1;
    }
    proof {
        assert(s@.subrange(0, n as int) =~= s@);
    }
    Some(acc)
}

/// Reads a decimal port number; fails on anything above `u16::MAX`.
pub fn parse_u16_dec(s: &str) -> (r: Option<u16>)
    ensures
        r matches Some(v) ==> dec_fits(s@, u16::MAX as int) && v == digits_val(s@),
        r is None ==> !dec_fits(s@, u16::MAX as int),
{
    match parse_u64_dec(s) {
        Some(v) => {
            if v <= 65535 {
                Some(v as u16)
            } else {
                None
            }
        },
        None => None,
    }
}

/// Relies on `String::push`: appends the given character to the end of the
/// string.
#[verifier::external_body]
pub fn push_char(s: &mut String, c: char)
    ensures
        final(s)@ == old(s)@.push(c),
{
    s.push(c);
}

/// The decimal digit characters of a non-negative number, most significant
/// first.
pub open spec fn spec_dec(v: int) -> Seq<char>
    decreases v,
{
    if v < 10 {
        seq![((v + 48) as u8) as char]
    } else {
        spec_dec(v / 10).push(((v % 10 + 48) as u8) as char)
    }
}

pub proof fn lemma_spec_dec_len(v: int)
    ensures
        spec_dec(v).len() >= 1,
    decreases v,
{
    if v >= 10 {
        lemma_spec_dec_len(v / 10);
    }
}

/// Appends the decimal form of `v`.
pub fn push_dec_u64(s: &mut String, v: u64)
    ensures
        final(s)@ == old(s)@ + spec_dec(v as int),
    decreases v,
{
    if v < 10 {
        let d: u8 = (v as u8) + 48;
        push_char(s, d as char);
        proof {
            assert(final(s)@ =~= old(s)@ + spec_dec(v as int));
        }
    } else {
        push_dec_u64(s, v / 10);
        let d: u8 = ((v % 10) as u8) + 48;
        push_char(s, d as char);
        proof {
            assert(final(s)@ =~= old(s)@ + spec_dec(v as int));
        }
    }
}

/// The decimal form of `v` as a fresh string.
pub fn u64_to_string(v: u64) -> (r: String)
    ensures
        r@ == spec_dec(v as int),
{
    let mut s = String::new();
    push_dec_u64(&mut s, v);
    proof {
        assert(s@ =~= spec_dec(v as int));
    }
    s
}

/// ASCII lowercase folding, character by character.
pub open spec fn lower_char(c: char) -> char {
    if 'A' <= c && c <= 'Z' {
        ((c as u8) + 32) as char
    } else {
        c
    }
}

pub open spec fn lower_chars(s: Seq<char>) -> Seq<char> {
    s.map_values(|c: char| lower_char(c))
}

fn to_lower_char(c: char) -> (r: char)
    ensures
        r == lower_char(c),
{
    if 'A' <= c && c <= 'Z' {
        ((c as u8) + 32) as char
    } else {
        c
    }
}

/// ASCII-case-insensitive equality; mirrors `str::eq_ignore_ascii_case`.
pub fn eq_ignore_case(a: &str, b: &str) -> (r: bool)
    ensures
        r == (lower_chars(a@) == lower_chars(b@)),
{
    let na: usize = a.unicode_len();
    let nb: usize = b.unicode_len();
    if na != nb {
        proof {
            assert(lower_chars(a@).len() == na);
            assert(lower_chars(b@).len() == nb);
        }
        return false;
    }
    let mut i: usize = 0;
    while i < na
        invariant
            0 <= i <= na == a@.len(),
            na == b@.len(),
            forall|j: int| 0 <= j < i ==> lower_char(a@[j]) == lower_char(b@[j]),
        decreases na - i,
    {
        if to_lower_char(a.get_char(i)) != to_lower_char(b.get_char(i)) {
            proof {
                assert(lower_chars(a@)[i as int] != lower_chars(b@)[i as int]);
            }
            return false;
        }
        i = i + 1;
    }
    proof {
        assert(lower_chars(a@) =~= lower_chars(b@));
    }
    true
}

/// Character-for-character equality of two string slices.
pub fn str_eq(a: &str, b: &str) -> (r: bool)
    ensures
        r == (a@ == b@),
{
    let na: usize = a.unicode_len();
    let nb: usize = b.unicode_len();
    if na != nb {
        return false;
    }
    let mut i: usize = 0;
    while i < na
        invariant
            0 <= i <= na == a@.len(),
            na == b@.len(),
            forall|j: int| 0 <= j < i ==> a@[j] == b@[j],
        decreases na - i,
    {
        if a.get_char(i) != b.get_char(i) {
            return false;
        }
        i = i + 1;
    }
    proof {
        assert(a@ =~= b@);
    }
    true
}

} // verus!
