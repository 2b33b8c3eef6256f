use vstd::prelude::*;
use crate::error::EngineError;
use crate::text::{push_char, strs_model};

verus! {

/// The pixel size and frame rate of a video source; the frame rate is
/// an exact rational `fps_num / fps_den`.
#[derive(Clone, Copy, Debug, PartialEq, Eq, Structural)]
pub struct VideoMetadata {
    pub width: u32,
    pub height: u32,
    pub fps_num: u32,
    pub fps_den: u32,
}

// ---------------------------------------------------------------------
// Decimal number parsing.
// ---------------------------------------------------------------------

/// Whether a character is a decimal digit.
pub open spec fn is_digit(c: char) -> bool {
    48 <= c as int <= 57
}

/// Whether every character is a decimal digit.
pub open spec fn all_digits(s: Seq<char>) -> bool {
    forall|i: int| 0 <= i < s.len() ==> is_digit(#[trigger] s[i])
}

/// The value of a digit string, most significant digit first.
pub open spec fn digits_val(s: Seq<char>) -> int
    decreases s.len(),
{
    if s.len() == 0 {
        0
    } else {
        digits_val(s.drop_last()) * 10 + (s.last() as int - 48)
    }
}

/// What parsing a bare digit string yields: its value, or nothing for
/// an empty string, a non-digit, or an overflowing value.
pub open spec fn parse_digits_model(s: Seq<char>) -> Option<u32> {
    if s.len() == 0 || !all_digits(s) || digits_val(s) > u32::MAX {
        None
    } else {
        Some(digits_val(s) as u32)
    }
}

/// A numeral with one optional leading plus sign stripped.
pub open spec fn strip_plus(s: Seq<char>) -> Seq<char> {
    if s.len() > 0 && s[0] == '+' {
        s.drop_first()
    } else {
        s
    }
}

/// What parsing a decimal `u32` yields: an optional leading plus sign,
/// then at least one digit; the value must fit.
pub open spec fn parse_u32_model(s: Seq<char>) -> Option<u32> {
    parse_digits_model(strip_plus(s))
}

/// Ten to the power `k`.
pub open spec fn pow10(k: nat) -> int
    decreases k,
{
    if k == 0 {
        1
    } else {
        10 * pow10((k - 1) as nat)
    }
}

proof fn lemma_pow10_at_least_one(k: nat)
    ensures
        pow10(k) >= 1,
    decreases k,
{
    if k > 0 {
        lemma_pow10_at_least_one((k - 1) as nat)
    }
}

proof fn lemma_pow10_monotone(k1: nat, k2: nat)
    requires
        k1 <= k2,
    ensures
        pow10(k1) <= pow10(k2),
    decreases k2,
{
    if k1 < k2 {
        lemma_pow10_monotone(k1, (k2 - 1) as nat);
        lemma_pow10_at_least_one((k2 - 1) as nat);
    }
}

proof fn lemma_pow10_values()
    ensures
        pow10(9) == 1000000000,
        pow10(10) == 10000000000,
{
    reveal_with_fuel(pow10, 11);
}

/// A digit string's value is below ten to its length.
proof fn lemma_digits_val_bounds(s: Seq<char>)
    requires
        all_digits(s),
    ensures
        0 <= digits_val(s) < pow10(s.len()),
    decreases s.len(),
{
    if s.len() > 0 {
        assert(all_digits(s.drop_last())) by {
            assert(forall|i: int| 0 <= i < s.len() - 1 ==> s.drop_last()[i] == s[i]);
        }
        lemma_digits_val_bounds(s.drop_last());
        lemma_pow10_at_least_one((s.len() - 1) as nat);
    }
}

fn parse_digits(s: &str) -> (r: Option<u32>)
    ensures
        r == parse_digits_model(s@),
{
    let n: usize = s.unicode_len();
    if n == 0 {
        return None;
    }
    let mut acc: u64 = 0;
    let mut i: usize = 0;
    proof {
        assert(s@.subrange(0, 0) =~= Seq::<char>::empty());
    }
    while i < n
        invariant
            i <= n,
            n == s@.len(),
            all_digits(s@.subrange(0, i as int)),
            digits_val(s@.subrange(0, i as int)) <= u32::MAX ==> acc == digits_val(
                s@.subrange(0, i as int),
            ),
            digits_val(s@.subrange(0, i as int)) > u32::MAX ==> acc == 0x100000000u64,
            acc <= 0x100000000u64,
        decreases n - i,
    {
        let c: char = s.get_char(i);
        let cu: u32 = c as u32;
        if cu < 48 || cu > 57 {
            proof {
                assert(!is_digit(s@[i as int]));
            }
            return None;
        }
        let ghost pre = s@.subrange(0, i as int);
        let d: u64 = (cu - 48) as u64;
        acc = acc * 10 + d;
        if acc > 0xffffffff {
            acc = 0x100000000;
        }
        proof {
            let ext = s@.subrange(0, i + 1);
            assert(ext.drop_last() =~= pre);
            assert(ext.last() == s@[i as int]);
        }
        i = i + 1;
    }
    proof {
        assert(s@.subrange(0, n as int) =~= s@);
    }
    if acc > 0xffffffff {
        None
    } else {
        Some(acc as u32)
    }
}

/// Parse a decimal `u32`: an optional leading plus sign, then digits.
pub fn parse_u32(s: &str) -> (r: Option<u32>)
    ensures
        r == parse_u32_model(s@),
{
    let n: usize = s.unicode_len();
    if n > 0 && s.get_char(0) == '+' {
        let rest = s.substring_char(1, n);
        proof {
            assert(rest@ =~= strip_plus(s@));
        }
        parse_digits(rest)
    } else {
        parse_digits(s)
    }
}

// ---------------------------------------------------------------------
// Frame-rate parsing: "num/den", a plain integer, or a decimal.
// ---------------------------------------------------------------------

/// The first index of `c` in `s`, or `-1`.
pub open spec fn find_char(s: Seq<char>, c: char) -> int
    decreases s.len(),
{
    if s.len() == 0 {
        -1
    } else if s[0] == c {
        0
    } else {
        let r = find_char(s.drop_first(), c);
        if r < 0 {
            -1
        } else {
            r + 1
        }
    }
}

/// `find_char` names the first occurrence, or `-1` where there is none.
pub proof fn lemma_find_char(s: Seq<char>, c: char)
    ensures
        find_char(s, c) == -1 ==> forall|i: int| 0 <= i < s.len() ==> s[i] != c,
        find_char(s, c) >= 0 ==> 0 <= find_char(s, c) < s.len() && s[find_char(s, c)] == c
            && forall|i: int| 0 <= i < find_char(s, c) ==> s[i] != c,
    decreases s.len(),
{
    if s.len() > 0 && s[0] != c {
        lemma_find_char(s.drop_first(), c);
        let r = find_char(s.drop_first(), c);
        if r == -1 {
            assert forall|i: int| 0 <= i < s.len() implies s[i] != c by {
                if i > 0 {
                    assert(s.drop_first()[i - 1] == s[i]);
                }
            }
        } else {
            assert(s.drop_first()[r] == s[r + 1]);
            assert forall|i: int| 0 <= i < r + 1 implies s[i] != c by {
                if i > 0 {
                    assert(s.drop_first()[i - 1] == s[i]);
                }
            }
        }
    }
}

/// Find the first occurrence of an ascii character, as an index option.
fn find_char_exec(s: &str, c: char) -> (r: Option<usize>)
    ensures
        match r {
            Some(i) => i as int == find_char(s@, c),
            None => find_char(s@, c) == -1,
        },
{
    let n: usize = s.unicode_len();
    let mut i: usize = 0;
    while i < n
        invariant
            i <= n,
            n == s@.len(),
            forall|k: int| 0 <= k < i ==> s@[k] != c,
        decreases n - i,
    {
        if s.get_char(i) == c {
            proof {
                lemma_find_char(s@, c);
            }
            return Some(i);
        }
        i = i + 1;
    }
    proof {
        lemma_find_char(s@, c);
    }
    None
}

/// What parsing one decimal numeral yields: an optional leading plus
/// sign, then digits with at most one embedded dot and at least one
/// digit in all; the value is scaled to an exact integer numerator
/// over a power of ten. Signs other than the plus, exponents and
/// non-numeric forms yield nothing, as does a value that does not fit.
pub open spec fn parse_decimal_model(s: Seq<char>) -> Option<(u32, u32)> {
    let t = strip_plus(s);
    let dot = find_char(t, '.');
    if dot < 0 {
        match parse_digits_model(t) {
            Some(v) => Some((v, 1u32)),
            None => None,
        }
    } else {
        let ip = t.subrange(0, dot);
        let fp = t.subrange(dot + 1, t.len() as int);
        if !all_digits(ip) || !all_digits(fp) || (ip.len() == 0 && fp.len() == 0) {
            None
        } else {
            let num = digits_val(ip) * pow10(fp.len()) + digits_val(fp);
            let den = pow10(fp.len());
            if num > u32::MAX || den > u32::MAX {
                None
            } else {
                Some((num as u32, den as u32))
            }
        }
    }
}

/// What parsing a frame rate yields: a fraction `a/b` of two decimal
/// numerals with `b` nonzero, combined into one exact rational; or a
/// single decimal numeral over one. Anything else, or a combined value
/// that does not fit, yields nothing.
pub open spec fn parse_rate_model(s: Seq<char>) -> Option<(u32, u32)> {
    let sl = find_char(s, '/');
    if sl < 0 {
        parse_decimal_model(s)
    } else {
        let ap = parse_decimal_model(s.subrange(0, sl));
        let bp = parse_decimal_model(s.subrange(sl + 1, s.len() as int));
        match (ap, bp) {
            (Some((an, ad)), Some((bn, bd))) => if bn == 0 {
                None
            } else {
                let num = an * bd;
                let den = ad * bn;
                if num > u32::MAX || den > u32::MAX {
                    None
                } else {
                    Some((num as u32, den as u32))
                }
            },
            _ => None,
        }
    }
}

/// Parse one decimal numeral into an exact rational.
fn parse_decimal(s: &str) -> (r: Option<(u32, u32)>)
    ensures
        r == parse_decimal_model(s@),
{
    let n: usize = s.unicode_len();
    let start: usize = if n > 0 && s.get_char(0) == '+' {
        1
    } else {
        0
    };
    let t: &str = s.substring_char(start, n);
    proof {
        assert(t@ =~= strip_plus(s@));
    }
    let tn: usize = n - start;
    if let Some(dot) = find_char_exec(t, '.') {
        proof {
            lemma_find_char(t@, '.');
        }
        let ghost ip = t@.subrange(0, dot as int);
        let ghost fp = t@.subrange(dot as int + 1, tn as int);
        if tn == 1 {
            // The numeral is a bare dot: both parts are empty.
            return None;
        }
        let ipv: u32;
        if dot == 0 {
            proof {
                assert(ip =~= Seq::<char>::empty());
            }
            ipv = 0;
        } else {
            ipv = match parse_digits(t.substring_char(0, dot)) {
                Some(v) => v,
                None => {
                    proof {
                        if all_digits(ip) && all_digits(fp) {
                            // The integer part overflows, so the scaled
                            // numerator overflows too.
                            lemma_digits_val_bounds(fp);
                            lemma_pow10_at_least_one(fp.len());
                            assert(digits_val(ip) * pow10(fp.len()) >= digits_val(ip) * 1)
                                by (nonlinear_arith)
                                requires digits_val(ip) >= 0, pow10(fp.len()) >= 1;
                        }
                    }
                    return None;
                },
            };
        }
        let flen: usize = tn - dot - 1;
        proof {
            assert(fp.len() == flen);
        }
        if flen > 9 {
            proof {
                lemma_pow10_monotone(10, flen as nat);
                lemma_pow10_values();
            }
            return None;
        }
        let fpv: u32;
        if flen == 0 {
            proof {
                assert(fp =~= Seq::<char>::empty());
            }
            fpv = 0;
        } else {
            fpv = match parse_digits(t.substring_char(dot + 1, tn)) {
                Some(v) => v,
                None => {
                    proof {
                        if all_digits(fp) {
                            lemma_digits_val_bounds(fp);
                            lemma_pow10_monotone(fp.len(), 9);
                            lemma_pow10_values();
                        }
                    }
                    return None;
                },
            };
        }
        let mut p10: u64 = 1;
        let mut k: usize = 0;
        while k < flen
            invariant
                k <= flen <= 9,
                p10 == pow10(k as nat),
                p10 <= 1000000000u64,
            decreases flen - k,
        {
            proof {
                lemma_pow10_monotone((k + 1) as nat, 9);
                lemma_pow10_values();
            }
            p10 = p10 * 10;
            k = k + 1;
        }
        proof {
            assert((ipv as int) * (p10 as int) <= 0xffffffffu64 * 1000000000)
                by (nonlinear_arith)
                requires ipv <= 0xffffffffu64, p10 <= 1000000000u64;
            lemma_digits_val_bounds(ip);
            lemma_digits_val_bounds(fp);
        }
        let num: u64 = (ipv as u64) * p10 + (fpv as u64);
        if num > 0xffffffff {
            None
        } else {
            Some((num as u32, p10 as u32))
        }
    } else {
        proof {
            lemma_find_char(t@, '.');
        }
        match parse_digits(t) {
            Some(v) => Some((v, 1)),
            None => None,
        }
    }
}

/// Parse a frame rate: a fraction such as `30000/1001` or `30.5/2`, a
/// plain integer, or a decimal such as `29.97`.
pub fn parse_rate(s: &str) -> (r: Option<(u32, u32)>)
    ensures
        r == parse_rate_model(s@),
{
    let n: usize = s.unicode_len();
    if let Some(sl) = find_char_exec(s, '/') {
        proof {
            lemma_find_char(s@, '/');
        }
        let ap = parse_decimal(s.substring_char(0, sl));
        let bp = parse_decimal(s.substring_char(sl + 1, n));
        match (ap, bp) {
            (Some((an, ad)), Some((bn, bd))) => {
                if bn == 0 {
                    return None;
                }
                proof {
                    assert(0 <= (an as int) * (bd as int) <= 0xffffffffu64 * 0xffffffffu64
                        && 0 <= (ad as int) * (bn as int) <= 0xffffffffu64 * 0xffffffffu64)
                        by (nonlinear_arith)
                        requires
                            an <= 0xffffffffu64,
                            ad <= 0xffffffffu64,
                            bn <= 0xffffffffu64,
                            bd <= 0xffffffffu64;
                }
                let num: u64 = (an as u64) * (bd as u64);
                let den: u64 = (ad as u64) * (bn as u64);
                if num > 0xffffffff || den > 0xffffffff {
                    None
                } else {
                    Some((num as u32, den as u32))
                }
            },
            _ => None,
        }
    } else {
        parse_decimal(s)
    }
}

// ---------------------------------------------------------------------
// Probe text: "key=value" lines.
// ---------------------------------------------------------------------

/// Splitting text into lines from position `i`, with the pending line
/// and the lines collected so far: lines end at a newline, whose
/// preceding carriage return (if any) is stripped; a final line without
/// a newline is kept as it stands.
pub open spec fn split_lines_from(
    cs: Seq<char>,
    i: int,
    cur: Seq<char>,
    acc: Seq<Seq<char>>,
) -> Seq<Seq<char>>
    decreases cs.len() - i,
{
    if i >= cs.len() {
        if cur.len() == 0 {
            acc
        } else {
            acc.push(cur)
        }
    } else if cs[i] == '\n' {
        split_lines_from(cs, i + 1, Seq::empty(), acc.push(strip_cr(cur)))
    } else {
        split_lines_from(cs, i + 1, cur.push(cs[i]), acc)
    }
}

/// A line with a trailing carriage return stripped.
pub open spec fn strip_cr(line: Seq<char>) -> Seq<char> {
    if line.len() > 0 && line.last() == '\r' {
        line.drop_last()
    } else {
        line
    }
}

/// The lines of a whole text.
pub open spec fn lines_model(cs: Seq<char>) -> Seq<Seq<char>> {
    split_lines_from(cs, 0, Seq::empty(), Seq::empty())
}

fn flush_line(lines: &mut Vec<String>, cur: &mut String)
    ensures
        strs_model(final(lines)@) == strs_model(old(lines)@).push(strip_cr(old(cur)@)),
        final(cur)@ == Seq::<char>::empty(),
{
    let n: usize = cur.as_str().unicode_len();
    let line: String;
    if n > 0 && cur.as_str().get_char(n - 1) == '\r' {
        line = cur.as_str().substring_char(0, n - 1).to_owned();
        proof {
            assert(line@ =~= strip_cr(cur@));
        }
    } else {
        line = cur.clone();
    }
    lines.push(line);
    *cur = String::new();
    proof {
        assert(strs_model(lines@) =~= strs_model(old(lines)@).push(strip_cr(old(cur)@)));
    }
}

/// Split text into lines, ending each line at a newline and stripping
/// a carriage return before it.
pub fn split_lines(s: &str) -> (lines: Vec<String>)
    ensures
        strs_model(lines@) == lines_model(s@),
{
    let n: usize = s.unicode_len();
    let mut lines: Vec<String> = Vec::new();
    let mut cur: String = String::new();
    let mut i: usize = 0;
    proof {
        assert(strs_model(lines@) =~= Seq::<Seq<char>>::empty());
    }
    while i < n
        invariant
            i <= n,
            n == s@.len(),
            lines_model(s@) == split_lines_from(s@, i as int, cur@, strs_model(lines@)),
        decreases n - i,
    {
        let c: char = s.get_char(i);
        if c == '\n' {
            flush_line(&mut lines, &mut cur);
        } else {
            push_char(&mut cur, c);
        }
        i = i + 1;
    }
    if cur.as_str().unicode_len() > 0 {
        let ghost pre = strs_model(lines@);
        let ghost curv = cur@;
        lines.push(cur);
        proof {
            assert(strs_model(lines@) =~= pre.push(curv));
        }
    }
    lines
}

/// Scanning the first `n` lines for the `width=`, `height=` and
/// `r_frame_rate=` keys; a later occurrence of a key overwrites an
/// earlier one, and an unparsable value clears it.
pub open spec fn scan_meta(lines: Seq<Seq<char>>, n: int) -> (
    Option<u32>,
    Option<u32>,
    Option<(u32, u32)>,
)
    decreases n,
{
    if n <= 0 {
        (None::<u32>, None::<u32>, None::<(u32, u32)>)
    } else {
        let st = scan_meta(lines, n - 1);
        let line = lines[n - 1];
        if "width="@.is_prefix_of(line) {
            (parse_u32_model(line.skip(6)), st.1, st.2)
        } else if "height="@.is_prefix_of(line) {
            (st.0, parse_u32_model(line.skip(7)), st.2)
        } else if "r_frame_rate="@.is_prefix_of(line) {
            (st.0, st.1, parse_rate_model(line.skip(13)))
        } else {
            st
        }
    }
}

/// What probing yields from the whole text: the three scanned fields,
/// or the first missing one as an error, width before height before
/// frame rate.
pub open spec fn parse_metadata_model(cs: Seq<char>) -> Result<VideoMetadata, EngineError> {
    let lines = lines_model(cs);
    let st = scan_meta(lines, lines.len() as int);
    if st.0 is None {
        Err(EngineError::MissingWidth)
    } else if st.1 is None {
        Err(EngineError::MissingHeight)
    } else if st.2 is None {
        Err(EngineError::MissingFps)
    } else {
        Ok(
            VideoMetadata {
                width: st.0.unwrap(),
                height: st.1.unwrap(),
                fps_num: st.2.unwrap().0,
                fps_den: st.2.unwrap().1,
            },
        )
    }
}

/// Whether `p` is a leading prefix of `s`.
fn has_prefix(s: &str, p: &str) -> (r: bool)
    ensures
        r == p@.is_prefix_of(s@),
{
    let np: usize = p.unicode_len();
    let ns: usize = s.unicode_len();
    if np > ns {
        return false;
    }
    let mut i: usize = 0;
    while i < np
        invariant
            i <= np,
            np == p@.len() <= s@.len(),
            ns == s@.len(),
            forall|k: int| 0 <= k < i ==> s@[k] == p@[k],
        decreases np - i,
    {
        if s.get_char(i) != p.get_char(i) {
            proof {
                assert(s@.subrange(0, np as int)[i as int] != p@[i as int]);
            }
            return false;
        }
        i = i + 1;
    }
    proof {
        assert(p@ =~= s@.subrange(0, np as int));
    }
    true
}

/// Parse probe output of `key=value` lines into video metadata: the
/// `width`, `height` and `r_frame_rate` keys are read; each missing or
/// unusable field is the error, width checked first.
pub fn parse_metadata(text: &str) -> (r: Result<VideoMetadata, EngineError>)
    ensures
        r == parse_metadata_model(text@),
{
    let lines = split_lines(text);
    let ghost lm = lines_model(text@);
    let mut width: Option<u32> = None;
    let mut height: Option<u32> = None;
    let mut fps: Option<(u32, u32)> = None;
    let mut i: usize = 0;
    while i < lines.len()
        invariant
            i <= lines@.len(),
            strs_model(lines@) == lm,
            width == scan_meta(lm, i as int).0,
            height == scan_meta(lm, i as int).1,
            fps == scan_meta(lm, i as int).2,
        decreases lines@.len() - i,
    {
        let line = &lines[i];
        let n: usize = line.as_str().unicode_len();
        proof {
            assert(lm[i as int] == line@);
            reveal_strlit("width=");
            reveal_strlit("height=");
            reveal_strlit("r_frame_rate=");
        }
        if has_prefix(line.as_str(), "width=") {
            width = parse_u32(line.as_str().substring_char(6, n));
            proof {
                assert(line@.subrange(6, n as int) =~= line@.skip(6));
            }
        } else if has_prefix(line.as_str(), "height=") {
            height = parse_u32(line.as_str().substring_char(7, n));
            proof {
                assert(line@.subrange(7, n as int) =~= line@.skip(7));
            }
        } else if has_prefix(line.as_str(), "r_frame_rate=") {
            fps = parse_rate(line.as_str().substring_char(13, n));
            proof {
                assert(line@.subrange(13, n as int) =~= line@.skip(13));
            }
        }
        i = i + 1;
    }
    proof {
        assert(lines@.len() == lm.len());
    }
    match width {
        None => Err(EngineError::MissingWidth),
        Some(w) => match height {
            None => Err(EngineError::MissingHeight),
            Some(h) => match fps {
                None => Err(EngineError::MissingFps),
                Some(f) => Ok(
                    VideoMetadata { width: w, height: h, fps_num: f.0, fps_den: f.1 },
                ),
            },
        },
    }
}

/// The last index of `c` in `s`, or `-1`.
pub open spec fn rfind_char(s: Seq<char>, c: char) -> int
    decreases s.len(),
{
    if s.len() == 0 {
        -1
    } else if s.last() == c {
        s.len() - 1
    } else {
        rfind_char(s.drop_last(), c)
    }
}

/// `rfind_char` names the last occurrence, or `-1` where there is none.
pub proof fn lemma_rfind_char(s: Seq<char>, c: char)
    ensures
        rfind_char(s, c) == -1 ==> forall|i: int| 0 <= i < s.len() ==> s[i] != c,
        rfind_char(s, c) >= 0 ==> 0 <= rfind_char(s, c) < s.len() && s[rfind_char(s, c)] == c
            && forall|i: int| rfind_char(s, c) < i < s.len() ==> s[i] != c,
    decreases s.len(),
{
    if s.len() > 0 && s.last() != c {
        lemma_rfind_char(s.drop_last(), c);
        assert(forall|i: int| 0 <= i < s.len() - 1 ==> s.drop_last()[i] == s[i]);
    }
}

/// Find the last occurrence of a character, as an index option.
fn rfind_char_exec(s: &str, c: char) -> (r: Option<usize>)
    ensures
        match r {
            Some(i) => i as int == rfind_char(s@, c),
            None => rfind_char(s@, c) == -1,
        },
{
    let n: usize = s.unicode_len();
    let mut best: Option<usize> = None;
    let mut i: usize = 0;
    proof {
        assert(s@.subrange(0, 0) =~= Seq::<char>::empty());
    }
    while i < n
        invariant
            i <= n,
            n == s@.len(),
            match best {
                Some(b) => b as int == rfind_char(s@.subrange(0, i as int), c),
                None => rfind_char(s@.subrange(0, i as int), c) == -1,
            },
        decreases n - i,
    {
        if s.get_char(i) == c {
            best = Some(i);
        }
        proof {
            let ext = s@.subrange(0, i + 1);
            assert(ext.drop_last() =~= s@.subrange(0, i as int));
            assert(ext.last() == s@[i as int]);
        }
        i = i + 1;
    }
    proof {
        assert(s@.subrange(0, n as int) =~= s@);
    }
    best
}

/// A path with its trailing separators, and any trailing `.`
/// components not at the very start, taken off: what remains ends in
/// the path's final real component.
pub open spec fn strip_trailing_seps(cs: Seq<char>) -> Seq<char>
    decreases cs.len(),
{
    if cs.len() > 0 && cs.last() == '/' {
        strip_trailing_seps(cs.drop_last())
    } else if cs.len() >= 2 && cs.last() == '.' && cs[cs.len() - 2] == '/' {
        strip_trailing_seps(cs.drop_last())
    } else {
        cs
    }
}

/// The final component of a path, separators ignored: nothing for an
/// empty path, a bare root, a lone `.`, or a path ending in `..`.
pub open spec fn path_file_name(cs: Seq<char>) -> Option<Seq<char>> {
    let s = strip_trailing_seps(cs);
    let name = s.skip(rfind_char(s, '/') + 1);
    if name.len() == 0 {
        None
    } else if name.len() == 1 && name[0] == '.' {
        None
    } else if name.len() == 2 && name[0] == '.' && name[1] == '.' {
        None
    } else {
        Some(name)
    }
}

/// A component's stem: the part before its final dot, a dot that
/// leads the component not counting.
pub open spec fn name_stem(name: Seq<char>) -> Seq<char> {
    let dot = rfind_char(name, '.');
    if dot <= 0 {
        name
    } else {
        name.subrange(0, dot)
    }
}

/// A component's extension: the part after its final dot, a dot that
/// leads the component not counting.
pub open spec fn name_extension(name: Seq<char>) -> Option<Seq<char>> {
    let dot = rfind_char(name, '.');
    if dot <= 0 {
        None
    } else {
        Some(name.skip(dot + 1))
    }
}

/// The file stem of a path: its final component's stem, or `clip`
/// where the path has no final component.
pub open spec fn stem_model(path: Seq<char>) -> Seq<char> {
    match path_file_name(path) {
        None => "clip"@,
        Some(name) => name_stem(name),
    }
}

/// The temporary name a normalized copy of a source is stored under.
pub open spec fn normalized_name_model(path: Seq<char>) -> Seq<char> {
    stem_model(path) + "_normalized.mp4"@
}

/// The file name a video-only render is stored under beside the final
/// output: the output's stem (or `render` without one), a `.video`
/// marker, and the output's extension where it has one.
pub open spec fn temp_video_name_model(path: Seq<char>) -> Seq<char> {
    let stem = match path_file_name(path) {
        None => "render"@,
        Some(name) => name_stem(name),
    };
    let base = stem + ".video"@;
    match path_file_name(path) {
        None => base,
        Some(name) => match name_extension(name) {
            None => base,
            Some(e) => base + "."@ + e,
        },
    }
}

/// Extract a path's final component, if it has one.
fn file_name_part<'a>(path: &'a str) -> (r: Option<&'a str>)
    ensures
        match r {
            Some(name) => path_file_name(path@) == Some(name@),
            None => path_file_name(path@) is None,
        },
{
    let n: usize = path.unicode_len();
    let mut end: usize = n;
    proof {
        assert(path@.subrange(0, n as int) =~= path@);
    }
    while (end > 0 && path.get_char(end - 1) == '/') || (end >= 2 && path.get_char(end - 1) == '.'
        && path.get_char(end - 2) == '/')
        invariant
            end <= n,
            n == path@.len(),
            strip_trailing_seps(path@) == strip_trailing_seps(path@.subrange(0, end as int)),
        decreases end,
    {
        proof {
            let sub = path@.subrange(0, end as int);
            assert(sub.drop_last() =~= path@.subrange(0, end - 1));
        }
        end = end - 1;
    }
    let ghost stripped_view = path@.subrange(0, end as int);
    proof {
        // The remaining prefix is a fixed point of the stripping.
        assert(strip_trailing_seps(stripped_view) == stripped_view);
        assert(strip_trailing_seps(path@) == stripped_view);
    }
    let stripped: &str = path.substring_char(0, end);
    proof {
        lemma_rfind_char(stripped@, '/');
    }
    let start: usize = match rfind_char_exec(stripped, '/') {
        Some(i) => i + 1,
        None => 0,
    };
    let name: &str = stripped.substring_char(start, end);
    proof {
        assert(name@ =~= stripped_view.skip(rfind_char(stripped_view, '/') + 1));
    }
    let name_len: usize = end - start;
    if name_len == 0 || (name_len == 1 && name.get_char(0) == '.') || (name_len == 2
        && name.get_char(0) == '.' && name.get_char(1) == '.') {
        None
    } else {
        Some(name)
    }
}

/// A component's stem, as an owned string.
fn stem_of_name(name: &str) -> (r: String)
    ensures
        r@ == name_stem(name@),
{
    let n: usize = name.unicode_len();
    proof {
        lemma_rfind_char(name@, '.');
    }
    match rfind_char_exec(name, '.') {
        Some(dot) if dot > 0 => name.substring_char(0, dot).to_owned(),
        _ => name.to_owned(),
    }
}

/// The name for the re-encoded copy of a source file: its stem with a
/// suffix marking it normalized.
pub fn normalized_name(path: &str) -> (r: String)
    ensures
        r@ == normalized_name_model(path@),
{
    let mut stem: String = match file_name_part(path) {
        None => String::from_str("clip"),
        Some(name) => stem_of_name(name),
    };
    stem.append("_normalized.mp4");
    stem
}

/// The name for the video-only render written beside the final output
/// before its audio is muxed in.
pub fn temp_video_name(path: &str) -> (r: String)
    ensures
        r@ == temp_video_name_model(path@),
{
    let fname = file_name_part(path);
    let mut base: String = match fname {
        None => String::from_str("render"),
        Some(name) => stem_of_name(name),
    };
    base.append(".video");
    if let Some(name) = fname {
        let n: usize = name.unicode_len();
        proof {
            lemma_rfind_char(name@, '.');
        }
        if let Some(dot) = rfind_char_exec(name, '.') {
            if dot > 0 {
                base.append(".");
                base.append(name.substring_char(dot + 1, n));
                proof {
                    assert(base@ =~= temp_video_name_model(path@));
                }
            }
        }
    }
    base
}

/// Whether a source must be re-encoded to match the target: its size
/// must match exactly and its frame rate must lie within a hundredth
/// of the target.
pub open spec fn needs_normalize_model(
    meta: VideoMetadata,
    target_width: u32,
    target_height: u32,
    target_fps: u32,
) -> bool {
    let diff = 100 * (meta.fps_num as int) - 100 * (target_fps as int) * (meta.fps_den as int);
    let close = (if diff < 0 {
        -diff
    } else {
        diff
    }) < meta.fps_den as int;
    !(meta.width == target_width && meta.height == target_height && close)
}

/// Decide whether a source needs normalization before use.
pub fn needs_normalize(
    meta: &VideoMetadata,
    target_width: u32,
    target_height: u32,
    target_fps: u32,
) -> (r: bool)
    ensures
        r == needs_normalize_model(*meta, target_width, target_height, target_fps),
{
    let num100: i128 = 100 * (meta.fps_num as i128);
    proof {
        assert(0 <= 100 * (target_fps as int) * (meta.fps_den as int) <= 100 * 0xffffffffu64
            * 0xffffffffu64) by (nonlinear_arith)
            requires target_fps <= 0xffffffffu64, meta.fps_den <= 0xffffffffu64;
    }
    let scaled: i128 = 100 * (target_fps as i128) * (meta.fps_den as i128);
    let diff: i128 = num100 - scaled;
    let mag: i128 = if diff < 0 {
        -diff
    } else {
        diff
    };
    let close: bool = mag < (meta.fps_den as i128);
    !(meta.width == target_width && meta.height == target_height && close)
}

} // verus!
