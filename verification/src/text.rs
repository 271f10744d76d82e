//! Verified text utilities: substring search, decimal formatting of the
//! fixed-point scalars, and decimal parsing. These back the message hooks,
//! the prompt construction and the reply grammar.

use vstd::prelude::*;
use vstd::string::{StrSliceExecFns, StringExecFns};
use crate::model::spec_min_int;

verus! {

/// Parsed numbers are clamped to this fixed-point magnitude (a trillion
/// world units), so every component fits comfortably in `i64`.
pub const CLAMP_MILLI: i64 = 1_000_000_000_000_000;

/// Whether `needle` occurs at position `i` of `hay`.
pub open spec fn matches_at(hay: Seq<char>, needle: Seq<char>, i: int) -> bool {
    hay.subrange(i, i + needle.len()) == needle
}

/// `needle` occurs contiguously somewhere in `hay`.
pub open spec fn seq_contains(hay: Seq<char>, needle: Seq<char>) -> bool {
    exists|i: int| 0 <= i && i + needle.len() <= hay.len() && #[trigger] matches_at(hay, needle, i)
}

/// Substring search over characters.
pub fn str_contains(hay: &str, needle: &str) -> (r: bool)
    ensures
        r == seq_contains(hay@, needle@),
{
    let hlen = hay.unicode_len();
    let nlen = needle.unicode_len();
    if nlen > hlen {
        assert(!seq_contains(hay@, needle@));
        return false;
    }
    if nlen == 0 {
        proof {
            assert(hay@.subrange(0, 0) =~= needle@);
            assert(matches_at(hay@, needle@, 0));
        }
        return true;
    }
    let mut i: usize = 0;
    while i <= hlen - nlen
        invariant
            1 <= nlen <= hlen,
            hlen == hay@.len(),
            nlen == needle@.len(),
            0 <= i <= hlen - nlen + 1,
            forall|k: int| 0 <= k < i ==> !matches_at(hay@, needle@, k),
        decreases hlen - nlen - i + 1,
    {
        let mut j: usize = 0;
        let mut hit = true;
        while j < nlen
            invariant
                hlen == hay@.len(),
                nlen == needle@.len(),
                0 <= i <= hlen - nlen,
                0 <= j <= nlen,
                hit ==> hay@.subrange(i as int, i + j) == needle@.subrange(0, j as int),
                !hit ==> !matches_at(hay@, needle@, i as int),
            decreases nlen - j,
        {
            if hay.get_char(i + j) != needle.get_char(j) {
                hit = false;
                proof {
                    if matches_at(hay@, needle@, i as int) {
                        assert(hay@.subrange(i as int, i + nlen)[j as int] == hay@[i + j]);
                    }
                }
                j = nlen;
            } else {
                proof {
                    if hit {
                        assert(hay@.subrange(i as int, i + j + 1) =~= hay@.subrange(
                            i as int,
                            i + j,
                        ).push(hay@[i + j]));
                        assert(needle@.subrange(0, j + 1) =~= needle@.subrange(0, j as int).push(
                            needle@[j as int],
                        ));
                    }
                }
                j = j + 1;
            }
        }
        if hit {
            proof {
                assert(needle@.subrange(0, nlen as int) =~= needle@);
                assert(matches_at(hay@, needle@, i as int));
            }
            return true;
        }
        i = i + 1;
    }
    proof {
        if seq_contains(hay@, needle@) {
            let k = choose|k: int|
                0 <= k && k + needle@.len() <= hay@.len() && #[trigger] matches_at(
                    hay@,
                    needle@,
                    k,
                );
            assert(!matches_at(hay@, needle@, k));
        }
    }
    false
}

/// The decimal digit character for `d` in `0..=9`.
pub open spec fn spec_digit_char(d: int) -> char {
    if d == 0 {
        '0'
    } else if d == 1 {
        '1'
    } else if d == 2 {
        '2'
    } else if d == 3 {
        '3'
    } else if d == 4 {
        '4'
    } else if d == 5 {
        '5'
    } else if d == 6 {
        '6'
    } else if d == 7 {
        '7'
    } else if d == 8 {
        '8'
    } else {
        '9'
    }
}

/// The decimal digits of a non-negative number, most significant first.
pub open spec fn spec_dec_digits(n: int) -> Seq<char>
    decreases n,
{
    if n <= 9 {
        seq![spec_digit_char(n)]
    } else {
        spec_dec_digits(n / 10).push(spec_digit_char(n % 10))
    }
}

/// The one-character string for a digit value.
fn digit_str(d: u8) -> (r: String)
    requires
        d <= 9,
    ensures
        r@ == seq![spec_digit_char(d as int)],
{
    let r = match d {
        0 => String::from_str("0"),
        1 => String::from_str("1"),
        2 => String::from_str("2"),
        3 => String::from_str("3"),
        4 => String::from_str("4"),
        5 => String::from_str("5"),
        6 => String::from_str("6"),
        7 => String::from_str("7"),
        8 => String::from_str("8"),
        _ => String::from_str("9"),
    };
    proof {
        reveal_strlit("0");
        reveal_strlit("1");
        reveal_strlit("2");
        reveal_strlit("3");
        reveal_strlit("4");
        reveal_strlit("5");
        reveal_strlit("6");
        reveal_strlit("7");
        reveal_strlit("8");
        reveal_strlit("9");
        assert(r@ =~= seq![spec_digit_char(d as int)]);
    }
    r
}

/// The decimal rendering of a non-negative number.
pub fn fmt_u128(n: u128) -> (r: String)
    ensures
        r@ == spec_dec_digits(n as int),
    decreases n,
{
    if n <= 9 {
        digit_str(n as u8)
    } else {
        let mut s = fmt_u128(n / 10);
        let tail = digit_str((n % 10) as u8);
        s.append(tail.as_str());
        proof {
            assert(s@ =~= spec_dec_digits(n as int / 10).push(spec_digit_char(n as int % 10)));
        }
        s
    }
}

/// The rendering of a fixed-point value with one decimal place, truncating
/// towards zero: a sign for negative values, the whole units, a point, and
/// the first decimal digit.
pub open spec fn spec_fmt_milli(v: int) -> Seq<char> {
    let a = if v < 0 {
        -v
    } else {
        v
    };
    let body = spec_dec_digits(a / 1000) + seq!['.'] + seq![spec_digit_char((a % 1000) / 100)];
    if v < 0 {
        seq!['-'] + body
    } else {
        body
    }
}

/// Renders a fixed-point value with one decimal place.
pub fn fmt_milli(v: i64) -> (r: String)
    ensures
        r@ == spec_fmt_milli(v as int),
{
    let a: u64 = if v >= 0 {
        v as u64
    } else if v == i64::MIN {
        9_223_372_036_854_775_808u64
    } else {
        (-v) as u64
    };
    let mut s = if v < 0 {
        let m = String::from_str("-");
        proof {
            reveal_strlit("-");
            assert(m@ =~= seq!['-']);
        }
        m
    } else {
        String::new()
    };
    let whole = fmt_u128((a / 1000) as u128);
    let tenth = digit_str(((a % 1000) / 100) as u8);
    s.append(whole.as_str());
    let dot = String::from_str(".");
    proof {
        reveal_strlit(".");
        assert(dot@ =~= seq!['.']);
    }
    s.append(dot.as_str());
    s.append(tenth.as_str());
    proof {
        assert(s@ =~= spec_fmt_milli(v as int));
    }
    s
}

/// The character is an ASCII space, tab, or line break.
pub open spec fn spec_is_ws(c: char) -> bool {
    c == ' ' || c == '\t' || c == '\n' || c == '\r'
}

/// The first index at or after `i` that does not hold whitespace.
pub open spec fn spec_skip_ws(s: Seq<char>, i: int) -> int
    decreases s.len() - i,
{
    if 0 <= i < s.len() && spec_is_ws(s[i]) {
        spec_skip_ws(s, i + 1)
    } else {
        i
    }
}

/// The last index after `lo` such that everything from it to `j` is
/// whitespace.
pub open spec fn spec_rskip_ws(s: Seq<char>, lo: int, j: int) -> int
    decreases j - lo,
{
    if lo < j <= s.len() && spec_is_ws(s[j - 1]) {
        spec_rskip_ws(s, lo, j - 1)
    } else {
        j
    }
}

/// `s` without leading and trailing ASCII whitespace.
pub open spec fn spec_trim(s: Seq<char>) -> Seq<char> {
    let a = spec_skip_ws(s, 0);
    let b = spec_rskip_ws(s, a, s.len() as int);
    s.subrange(a, b)
}

/// Whether the character is ASCII whitespace.
fn is_ws_char(c: char) -> (r: bool)
    ensures
        r == spec_is_ws(c),
{
    c == ' ' || c == '\t' || c == '\n' || c == '\r'
}

/// Trims ASCII whitespace from both ends.
pub fn trim_ascii_ws(s: &str) -> (r: &str)
    ensures
        r@ == spec_trim(s@),
{
    let len = s.unicode_len();
    let mut a: usize = 0;
    while a < len && is_ws_char(s.get_char(a))
        invariant
            len == s@.len(),
            0 <= a <= len,
            spec_skip_ws(s@, 0) == spec_skip_ws(s@, a as int),
        decreases len - a,
    {
        a = a + 1;
    }
    proof {
        assert(spec_skip_ws(s@, a as int) == a as int);
    }
    let mut b: usize = len;
    while b > a && is_ws_char(s.get_char(b - 1))
        invariant
            len == s@.len(),
            a <= b <= len,
            spec_skip_ws(s@, 0) == a as int,
            spec_rskip_ws(s@, a as int, len as int) == spec_rskip_ws(s@, a as int, b as int),
        decreases b,
    {
        b = b - 1;
    }
    proof {
        assert(spec_rskip_ws(s@, a as int, b as int) == b as int);
    }
    s.substring_char(a, b)
}

/// The first index at or after `i` that does not hold a decimal digit.
pub open spec fn spec_digits_end(s: Seq<char>, i: int) -> int
    decreases s.len() - i,
{
    if 0 <= i < s.len() && spec_is_digit(s[i]) {
        spec_digits_end(s, i + 1)
    } else {
        i
    }
}

/// The character is a decimal digit.
pub open spec fn spec_is_digit(c: char) -> bool {
    '0' <= c && c <= '9'
}

/// The numeric value of a digit character.
pub open spec fn spec_digit_val(c: char) -> int {
    c as int - '0' as int
}

/// The value of the digit run `s[i..j]`, most significant first.
pub open spec fn spec_digits_val(s: Seq<char>, i: int, j: int) -> int
    decreases j - i,
{
    if i >= j {
        0
    } else {
        spec_digits_val(s, i, j - 1) * 10 + spec_digit_val(s[j - 1])
    }
}

/// The fixed-point fraction of the digit run `s[i..j]`: the first three
/// digits weighted as tenths, hundredths and thousandths of 1000.
pub open spec fn spec_frac_milli(s: Seq<char>, i: int, j: int) -> int {
    let d1 = if i < j {
        spec_digit_val(s[i])
    } else {
        0
    };
    let d2 = if i + 1 < j {
        spec_digit_val(s[i + 1])
    } else {
        0
    };
    let d3 = if i + 2 < j {
        spec_digit_val(s[i + 2])
    } else {
        0
    };
    d1 * 100 + d2 * 10 + d3
}

/// The fixed-point value of decimal text: an optional sign, whole digits, an
/// optional point and fraction digits, nothing else, with at least one digit
/// in all. No exponents or other notations are recognized.
pub open spec fn spec_parse_milli(s: Seq<char>) -> Option<int> {
    let neg = s.len() > 0 && s[0] == '-';
    let signed = neg || (s.len() > 0 && s[0] == '+');
    let i0: int = if signed {
        1
    } else {
        0
    };
    let ie = spec_digits_end(s, i0);
    let has_dot = ie < s.len() && s[ie] == '.';
    let fs = if has_dot {
        ie + 1
    } else {
        ie
    };
    let fe = spec_digits_end(s, fs);
    if fe != s.len() || (ie == i0 && fe == fs) {
        None
    } else {
        let mag = spec_digits_val(s, i0, ie) * 1000 + spec_frac_milli(s, fs, fe);
        Some(
            if neg {
                -mag
            } else {
                mag
            },
        )
    }
}

/// `v` limited to the fixed-point budget.
pub open spec fn spec_clamp_milli(v: int) -> int {
    if v > CLAMP_MILLI {
        CLAMP_MILLI as int
    } else if v < -CLAMP_MILLI {
        -CLAMP_MILLI as int
    } else {
        v
    }
}

/// What one numeric component of a reply stands for: its trimmed text read
/// as a fixed-point number and clamped, or zero when it is not numeric.
pub open spec fn spec_component_milli(s: Seq<char>) -> int {
    match spec_parse_milli(spec_trim(s)) {
        Some(v) => spec_clamp_milli(v),
        None => 0,
    }
}

/// Scans the digit run starting at `i`.
fn digits_end(s: &str, len: usize, i: usize) -> (r: usize)
    requires
        len == s@.len(),
        i <= len,
    ensures
        i <= r <= len,
        r as int == spec_digits_end(s@, i as int),
    decreases len - i,
{
    let mut j: usize = i;
    while j < len && char_is_digit(s.get_char(j))
        invariant
            len == s@.len(),
            i <= j <= len,
            spec_digits_end(s@, i as int) == spec_digits_end(s@, j as int),
        decreases len - j,
    {
        j = j + 1;
    }
    proof {
        assert(spec_digits_end(s@, j as int) == j as int);
    }
    j
}

/// Whether the character is a decimal digit.
fn char_is_digit(c: char) -> (r: bool)
    ensures
        r == spec_is_digit(c),
{
    '0' <= c && c <= '9'
}

/// Reads trimmed decimal text as a clamped fixed-point value; text that is
/// not a plain decimal number reads as zero.
pub fn parse_component_milli(s: &str) -> (r: i64)
    ensures
        r as int == spec_component_milli(s@),
{
    let t = trim_ascii_ws(s);
    let len = t.unicode_len();
    let ghost ts = t@;
    let neg = len > 0 && t.get_char(0) == '-';
    let signed = neg || (len > 0 && t.get_char(0) == '+');
    let i0: usize = if signed {
        1
    } else {
        0
    };
    let ie = digits_end(t, len, i0);
    let has_dot = ie < len && t.get_char(ie) == '.';
    let fs = if has_dot {
        ie + 1
    } else {
        ie
    };
    let fe = digits_end(t, len, fs);
    if fe != len || (ie == i0 && fe == fs) {
        return 0;
    }
    // The whole part, saturating well above the clamp.
    let cap: i64 = 2_000_000_000_000;
    let mut val: i64 = 0;
    let mut k: usize = i0;
    proof {
        assert forall|m: int| i0 <= m < ie implies spec_is_digit(ts[m]) by {
            lemma_digits_run(ts, i0 as int, m);
        }
    }
    while k < ie
        invariant
            len == ts.len(),
            ts == t@,
            i0 <= k <= ie <= len,
            spec_digits_end(ts, i0 as int) == ie as int,
            forall|m: int| i0 <= m < ie ==> spec_is_digit(ts[m]),
            0 <= val <= cap,
            cap == 2_000_000_000_000,
            val == spec_min_int(spec_digits_val(ts, i0 as int, k as int), cap as int),
        decreases ie - k,
    {
        proof {
            lemma_digits_run(ts, i0 as int, k as int);
        }
        let c = t.get_char(k);
        let d = (c as u32) - ('0' as u32);
        let grown = if val <= (cap - d as i64) / 10 && val * 10 + (d as i64) <= cap {
            val * 10 + (d as i64)
        } else {
            cap
        };
        proof {
            let tv = spec_digits_val(ts, i0 as int, k as int);
            let tv1 = spec_digits_val(ts, i0 as int, k + 1);
            assert(tv1 == tv * 10 + spec_digit_val(ts[k as int]));
            if tv > cap {
                assert(tv * 10 + spec_digit_val(ts[k as int]) > cap) by (nonlinear_arith)
                    requires tv > cap && cap > 0 && spec_digit_val(ts[k as int]) >= 0;
            }
            if val == cap && tv <= cap {
                assert(tv1 > cap) by (nonlinear_arith)
                    requires tv == cap && cap > 0 && tv1 == tv * 10 + spec_digit_val(
                        ts[k as int],
                    ) && spec_digit_val(ts[k as int]) >= 0;
            }
        }
        val = grown;
        k = k + 1;
    }
    // The first three fraction digits.
    let mut frac: i64 = 0;
    if fs < fe {
        proof {
            lemma_digits_run(ts, fs as int, fs as int);
        }
        let d1 = (t.get_char(fs) as u32) - ('0' as u32);
        frac = (d1 as i64) * 100;
        if fs + 1 < fe {
            proof {
                lemma_digits_run(ts, fs as int, fs + 1);
            }
            let d2 = (t.get_char(fs + 1) as u32) - ('0' as u32);
            frac = frac + (d2 as i64) * 10;
            if fs + 2 < fe {
                proof {
                    lemma_digits_run(ts, fs as int, fs + 2);
                }
                let d3 = (t.get_char(fs + 2) as u32) - ('0' as u32);
                frac = frac + (d3 as i64);
            }
        }
    }
    let mag = val * 1000 + frac;
    let clamped = if mag > CLAMP_MILLI {
        CLAMP_MILLI
    } else {
        mag
    };
    proof {
        let true_mag = spec_digits_val(ts, i0 as int, ie as int) * 1000 + spec_frac_milli(
            ts,
            fs as int,
            fe as int,
        );
        if spec_digits_val(ts, i0 as int, ie as int) > cap {
            assert(spec_digits_val(ts, i0 as int, ie as int) * 1000 >= (cap + 1) * 1000)
                by (nonlinear_arith)
                requires spec_digits_val(ts, i0 as int, ie as int) >= cap + 1 && cap > 0;
        }
    }
    if neg {
        -clamped
    } else {
        clamped
    }
}

/// Inside a digit run, every position up to the end holds a digit.
proof fn lemma_digits_run(s: Seq<char>, i: int, k: int)
    requires
        0 <= i <= k,
        k < spec_digits_end(s, i),
    ensures
        spec_digits_end(s, i) <= s.len(),
        spec_is_digit(s[k]),
        spec_digits_end(s, i) == spec_digits_end(s, k + 1),
    decreases k - i,
{
    assert(i < s.len() && spec_is_digit(s[i]));
    if k == i {
        lemma_digits_end_in_range(s, i + 1);
    } else {
        lemma_digits_run(s, i + 1, k);
    }
}

/// The digit runs of `spec_digits_end` never pass the end of the text.
proof fn lemma_digits_end_in_range(s: Seq<char>, i: int)
    requires
        0 <= i <= s.len(),
    ensures
        i <= spec_digits_end(s, i) <= s.len(),
    decreases s.len() - i,
{
    if i < s.len() && spec_is_digit(s[i]) {
        lemma_digits_end_in_range(s, i + 1);
    }
}

/// Characters equal up to ASCII case: either identical, or the same letter
/// with one side upper case.
pub open spec fn spec_char_eq_fold(a: char, b: char) -> bool {
    ||| a == b
    ||| ('A' <= a && a <= 'Z' && b as int == a as int + 32)
    ||| ('A' <= b && b <= 'Z' && a as int == b as int + 32)
}

/// Texts equal up to ASCII case.
pub open spec fn spec_eq_fold(a: Seq<char>, b: Seq<char>) -> bool {
    a.len() == b.len() && forall|i: int| 0 <= i < a.len() ==> spec_char_eq_fold(a[i], #[trigger] b[i])
}

/// Compares two texts up to ASCII case.
pub fn str_eq_fold(a: &str, b: &str) -> (r: bool)
    ensures
        r == spec_eq_fold(a@, b@),
{
    let alen = a.unicode_len();
    let blen = b.unicode_len();
    if alen != blen {
        return false;
    }
    let mut i: usize = 0;
    while i < alen
        invariant
            alen == a@.len(),
            alen == b@.len(),
            0 <= i <= alen,
            forall|k: int| 0 <= k < i ==> spec_char_eq_fold(a@[k], #[trigger] b@[k]),
        decreases alen - i,
    {
        let ca = a.get_char(i);
        let cb = b.get_char(i);
        let same = ca == cb || ('A' <= ca && ca <= 'Z' && cb as u32 == ca as u32 + 32) || ('A'
            <= cb && cb <= 'Z' && ca as u32 == cb as u32 + 32);
        if !same {
            return false;
        }
        i = i + 1;
    }
    true
}

/// `s` with every occurrence of `pat` replaced by `rep`, scanning left to
/// right without overlap.
pub open spec fn spec_replace(s: Seq<char>, pat: Seq<char>, rep: Seq<char>) -> Seq<char>
    decreases s.len(),
    when pat.len() > 0
{
    if s.len() < pat.len() {
        s
    } else if s.take(pat.len() as int) == pat {
        rep + spec_replace(s.skip(pat.len() as int), pat, rep)
    } else {
        seq![s[0]] + spec_replace(s.skip(1), pat, rep)
    }
}

/// Replaces every occurrence of `pat` in `s` by `rep`.
pub fn str_replace(s: &str, pat: &str, rep: &str) -> (r: String)
    requires
        pat@.len() > 0,
    ensures
        r@ == spec_replace(s@, pat@, rep@),
{
    let slen = s.unicode_len();
    let plen = pat.unicode_len();
    let mut out = String::new();
    let mut i: usize = 0;
    proof {
        assert(s@.skip(0) =~= s@);
        assert(out@ + spec_replace(s@, pat@, rep@) =~= spec_replace(s@, pat@, rep@));
    }
    while i < slen
        invariant
            slen == s@.len(),
            plen == pat@.len(),
            plen > 0,
            0 <= i <= slen,
            out@ + spec_replace(s@.skip(i as int), pat@, rep@) == spec_replace(s@, pat@, rep@),
        decreases slen - i,
    {
        let ghost rest = s@.skip(i as int);
        let ghost whole = spec_replace(s@, pat@, rep@);
        let hit = if plen <= slen - i {
            prefix_matches(s, slen, pat, plen, i)
        } else {
            false
        };
        proof {
            if plen <= slen - i {
                assert(rest.take(plen as int) =~= s@.subrange(i as int, i + plen));
            } else {
                assert(rest.len() < plen);
            }
        }
        if hit {
            let ghost prev = out@;
            out.append(rep);
            proof {
                assert(rest.skip(plen as int) =~= s@.skip(i + plen));
                assert(spec_replace(rest, pat@, rep@) == rep@ + spec_replace(
                    s@.skip(i + plen),
                    pat@,
                    rep@,
                ));
                assert(prev + (rep@ + spec_replace(s@.skip(i + plen), pat@, rep@)) =~= (prev
                    + rep@) + spec_replace(s@.skip(i + plen), pat@, rep@));
            }
            i = i + plen;
        } else {
            let one = s.substring_char(i, i + 1);
            let ghost prev = out@;
            out.append(one);
            proof {
                assert(rest.len() >= 1);
                assert(one@ =~= seq![rest[0]]);
                assert(rest.skip(1) =~= s@.skip(i + 1));
                if rest.len() >= plen {
                    assert(rest.take(plen as int) != pat@);
                    assert(spec_replace(rest, pat@, rep@) == seq![rest[0]] + spec_replace(
                        s@.skip(i + 1),
                        pat@,
                        rep@,
                    ));
                } else {
                    assert(spec_replace(rest, pat@, rep@) == rest);
                    assert(s@.skip(i + 1).len() < plen);
                    assert(spec_replace(s@.skip(i + 1), pat@, rep@) == s@.skip(i + 1));
                    assert(rest =~= seq![rest[0]] + rest.skip(1));
                }
                assert(prev + (seq![rest[0]] + spec_replace(s@.skip(i + 1), pat@, rep@)) =~= (
                prev + seq![rest[0]]) + spec_replace(s@.skip(i + 1), pat@, rep@));
            }
            i = i + 1;
        }
    }
    proof {
        assert(s@.skip(slen as int) =~= Seq::<char>::empty());
        assert(spec_replace(Seq::<char>::empty(), pat@, rep@) == Seq::<char>::empty());
        assert(out@ + Seq::<char>::empty() =~= out@);
    }
    out
}

/// Whether `pat` occurs at position `i` of `s`.
pub fn prefix_matches(s: &str, slen: usize, pat: &str, plen: usize, i: usize) -> (r: bool)
    requires
        slen == s@.len(),
        plen == pat@.len(),
        i + plen <= slen,
    ensures
        r == (s@.subrange(i as int, i + plen as int) == pat@),
{
    let mut j: usize = 0;
    while j < plen
        invariant
            slen == s@.len(),
            plen == pat@.len(),
            i + plen <= slen,
            0 <= j <= plen,
            s@.subrange(i as int, i + j) == pat@.subrange(0, j as int),
        decreases plen - j,
    {
        if s.get_char(i + j) != pat.get_char(j) {
            proof {
                if s@.subrange(i as int, i + plen as int) == pat@ {
                    assert(s@.subrange(i as int, i + plen as int)[j as int] == s@[i + j]);
                }
            }
            return false;
        }
        proof {
            assert(s@.subrange(i as int, i + j + 1) =~= s@.subrange(i as int, i + j).push(
                s@[i + j],
            ));
            assert(pat@.subrange(0, j + 1) =~= pat@.subrange(0, j as int).push(pat@[j as int]));
        }
        j = j + 1;
    }
    proof {
        assert(pat@.subrange(0, plen as int) =~= pat@);
    }
    true
}

} // verus!
