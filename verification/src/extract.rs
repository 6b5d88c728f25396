//! Extraction of the DR value from a log file's content.
//!
//! The content is decoded leniently to text, then scanned for the earliest
//! occurrence of one of three equivalent header phrasings, each immediately
//! followed by the value token.  The token is either the literal sentinel
//! `ERR` (an explicit source-reported error) or a run of decimal digits.
//! A digit run is parsed as a small unsigned integer; a value that does not
//! fit is treated like a parse failure.  Every failure mode (no match,
//! sentinel, overflow) yields "no metric".

use vstd::prelude::*;

use crate::record::{base_name, file_base_name, DRResult};

verus! {

/// The three accepted header phrasings, each ending right before the value
/// token.  Slots are tried in priority order at every position.
pub open spec fn marker_seq(slot: int) -> Seq<char> {
    if slot == 0 {
        "Official DR value: DR"@
    } else if slot == 1 {
        "Official EP/Single DR value: DR"@
    } else {
        "Official DR Value: DR"@
    }
}

/// A decimal digit.
pub open spec fn is_digit(c: char) -> bool {
    48 <= c as u32 <= 57
}

/// The numeric value of a digit character.
pub open spec fn digit_val(c: char) -> int {
    c as u32 - 48
}

/// The sentinel token `ERR` sits at position `p`.
pub open spec fn err_at(t: Seq<char>, p: int) -> bool {
    &&& 0 <= p
    &&& p + 3 <= t.len()
    &&& t[p] == 'E'
    &&& t[p + 1] == 'R'
    &&& t[p + 2] == 'R'
}

/// A value token (sentinel or at least one digit) starts at position `p`.
pub open spec fn token_present(t: Seq<char>, p: int) -> bool {
    err_at(t, p) || (0 <= p < t.len() && is_digit(t[p]))
}

/// Marker `slot` matches at position `i` and is followed by a value token.
pub open spec fn matches_at(t: Seq<char>, slot: int, i: int) -> bool {
    &&& 0 <= i
    &&& i + marker_seq(slot).len() <= t.len()
    &&& t.subrange(i, i + marker_seq(slot).len()) == marker_seq(slot)
    &&& token_present(t, i + marker_seq(slot).len())
}

/// The lowest slot that matches at position `i`, if any.
pub open spec fn slot_at(t: Seq<char>, i: int) -> Option<int> {
    if matches_at(t, 0, i) {
        Some(0)
    } else if matches_at(t, 1, i) {
        Some(1)
    } else if matches_at(t, 2, i) {
        Some(2)
    } else {
        None
    }
}

/// The first match at or after position `i`: the lowest position, and at
/// that position the lowest slot.
pub open spec fn first_match_from(t: Seq<char>, i: int) -> Option<(int, int)>
    decreases t.len() - i,
{
    if i >= t.len() {
        None
    } else {
        match slot_at(t, i) {
            Some(s) => Some((i, s)),
            None => first_match_from(t, i + 1),
        }
    }
}

/// The first position at or after `p` that does not hold a digit.
pub open spec fn digit_run_end(t: Seq<char>, p: int) -> int
    decreases t.len() - p,
{
    if 0 <= p < t.len() && is_digit(t[p]) {
        digit_run_end(t, p + 1)
    } else {
        p
    }
}

/// The decimal value of the digits of `t` in `[p, e)`.
pub open spec fn digits_value(t: Seq<char>, p: int, e: int) -> int
    decreases e - p,
{
    if p >= e {
        0
    } else {
        digits_value(t, p, e - 1) * 10 + digit_val(t[e - 1])
    }
}

/// The metric carried by the value token at position `p`: none for the
/// sentinel, the parsed digit run otherwise, none again when the parsed
/// value does not fit in a byte.
pub open spec fn token_value(t: Seq<char>, p: int) -> Option<u8> {
    if err_at(t, p) {
        None
    } else {
        let v = digits_value(t, p, digit_run_end(t, p));
        if v <= 255 {
            Some(v as u8)
        } else {
            None
        }
    }
}

/// The metric extracted from decoded content: the value of the token after
/// the first header match, or none when no header occurs.
pub open spec fn extract_spec(t: Seq<char>) -> Option<u8> {
    match first_match_from(t, 0) {
        None => None,
        Some((i, s)) => token_value(t, i + marker_seq(s).len()),
    }
}

/// When the first header match is followed by the sentinel token, no metric
/// is extracted, whichever of the three phrasings matched.
pub proof fn lemma_err_token_yields_none(t: Seq<char>, i: int, s: int)
    requires
        first_match_from(t, 0) == Some((i, s)),
        err_at(t, i + marker_seq(s).len()),
    ensures
        extract_spec(t) is None,
{
}

/// The exec form of one marker.
fn marker_str(slot: usize) -> (r: &'static str)
    requires
        slot < 3,
    ensures
        r@ == marker_seq(slot as int),
{
    if slot == 0 {
        "Official DR value: DR"
    } else if slot == 1 {
        "Official EP/Single DR value: DR"
    } else {
        "Official DR Value: DR"
    }
}

/// Exec check for a value token at position `p`.
fn token_present_at(text: &str, n: usize, p: usize) -> (r: bool)
    requires
        n == text@.len(),
        p <= n,
    ensures
        r == token_present(text@, p as int),
{
    if p < n {
        let c = text.get_char(p);
        let u = c as u32;
        if 48 <= u && u <= 57 {
            return true;
        }
    }
    if n - p >= 3 {
        if text.get_char(p) == 'E' && text.get_char(p + 1) == 'R' && text.get_char(p + 2) == 'R' {
            return true;
        }
    }
    false
}

/// Exec check for a full marker-plus-token match at position `i`.
fn matches_marker_at(text: &str, n: usize, i: usize, slot: usize) -> (r: bool)
    requires
        slot < 3,
        n == text@.len(),
        i <= n,
    ensures
        r == matches_at(text@, slot as int, i as int),
{
    let m = marker_str(slot);
    let mlen = m.unicode_len();
    if mlen > n - i {
        return false;
    }
    let mut k: usize = 0;
    while k < mlen
        invariant
            k <= mlen,
            i + mlen <= n,
            n == text@.len(),
            mlen == marker_seq(slot as int).len(),
            m@ == marker_seq(slot as int),
            forall|q: int| 0 <= q < k ==> text@[i + q] == marker_seq(slot as int)[q],
        decreases mlen - k,
    {
        let tc = text.get_char(i + k);
        let mc = m.get_char(k);
        if tc != mc {
            proof {
                let sub = text@.subrange(i as int, i + mlen);
                assert(sub[k as int] != marker_seq(slot as int)[k as int]);
            }
            return false;
        }
        k += 1;
    }
    proof {
        assert(text@.subrange(i as int, i + mlen) =~= marker_seq(slot as int));
    }
    token_present_at(text, n, i + mlen)
}

/// A digit run keeps its end when entered anywhere among its digits.
proof fn lemma_digit_run_end_skip(t: Seq<char>, p: int, k: int)
    requires
        0 <= p <= k <= t.len(),
        forall|q: int| p <= q < k ==> is_digit(#[trigger] t[q]),
    ensures
        digit_run_end(t, p) == digit_run_end(t, k),
    decreases k - p,
{
    if p < k {
        lemma_digit_run_end_skip(t, p + 1, k);
    }
}

/// Where a digit run ends: no earlier than it starts, within the text.
proof fn lemma_digit_run_end_bounds(t: Seq<char>, p: int)
    requires
        0 <= p <= t.len(),
    ensures
        p <= digit_run_end(t, p) <= t.len(),
    decreases t.len() - p,
{
    if p < t.len() && is_digit(t[p]) {
        lemma_digit_run_end_bounds(t, p + 1);
    }
}

/// Once a digit prefix exceeds 255, every extension of it does too.
proof fn lemma_digits_value_grows(t: Seq<char>, p: int, j: int, e: int)
    requires
        p <= j <= e,
        digits_value(t, p, j) > 255,
    ensures
        digits_value(t, p, e) > 255,
    decreases e - j,
{
    if j < e {
        lemma_digits_value_grows(t, p, j, e - 1);
        assert(t[e - 1] as u32 >= 0);
    }
}

/// Exec parse of the value token at position `p`.
fn token_value_at(text: &str, n: usize, p: usize) -> (r: Option<u8>)
    requires
        n == text@.len(),
        p <= n,
    ensures
        r == token_value(text@, p as int),
{
    if n - p >= 3 {
        if text.get_char(p) == 'E' && text.get_char(p + 1) == 'R' && text.get_char(p + 2) == 'R' {
            return None;
        }
    }
    let mut v: u32 = 0;
    let mut j: usize = p;
    loop
        invariant
            p <= j <= n,
            n == text@.len(),
            v <= 255,
            v as int == digits_value(text@, p as int, j as int),
            forall|q: int| p <= q < j ==> is_digit(#[trigger] text@[q]),
            !err_at(text@, p as int),
        ensures
            p <= j <= n,
            v <= 255,
            v as int == digits_value(text@, p as int, j as int),
            j == digit_run_end(text@, p as int),
        decreases n - j,
    {
        if j == n {
            proof {
                lemma_digit_run_end_skip(text@, p as int, j as int);
            }
            break ;
        }
        let c = text.get_char(j);
        let u = c as u32;
        if !(48 <= u && u <= 57) {
            proof {
                lemma_digit_run_end_skip(text@, p as int, j as int);
            }
            break ;
        }
        let d = u - 48;
        if v * 10 + d > 255 {
            proof {
                lemma_digit_run_end_skip(text@, p as int, j + 1);
                lemma_digit_run_end_bounds(text@, j + 1);
                let e = digit_run_end(text@, p as int);
                assert(digits_value(text@, p as int, j + 1) == v * 10 + d);
                lemma_digits_value_grows(text@, p as int, j + 1, e);
            }
            return None;
        }
        v = v * 10 + d;
        j += 1;
    }
    Some(v as u8)
}

/// Scans decoded content for the metric, per `extract_spec`: the earliest
/// header match wins, lower slots first at equal positions.
pub fn extract_dr(text: &str) -> (r: Option<u8>)
    ensures
        r == extract_spec(text@),
{
    let n = text.unicode_len();
    let mut i: usize = 0;
    while i < n
        invariant
            i <= n,
            n == text@.len(),
            first_match_from(text@, 0) == first_match_from(text@, i as int),
        decreases n - i,
    {
        let mut slot: usize = 0;
        while slot < 3
            invariant
                slot <= 3,
                i < n,
                n == text@.len(),
                first_match_from(text@, 0) == first_match_from(text@, i as int),
                forall|s: int| 0 <= s < slot ==> !matches_at(text@, s, i as int),
            decreases 3 - slot,
        {
            if matches_marker_at(text, n, i, slot) {
                proof {
                    assert(slot_at(text@, i as int) == Some(slot as int));
                    assert(first_match_from(text@, i as int) == Some((i as int, slot as int)));
                }
                let m = marker_str(slot);
                let mlen = m.unicode_len();
                proof {
                    assert(extract_spec(text@) == token_value(
                        text@,
                        i as int + marker_seq(slot as int).len(),
                    ));
                    assert(i as int + marker_seq(slot as int).len() == (i + mlen) as int);
                }
                return token_value_at(text, n, i + mlen);
            }
            slot += 1;
        }
        proof {
            assert(slot_at(text@, i as int) is None);
        }
        i += 1;
    }
    proof {
        assert(first_match_from(text@, i as int) is None);
    }
    None
}

/// What `String::from_utf8_lossy` returns for the given bytes.
pub uninterp spec fn lossy_decode(bytes: Seq<u8>) -> Seq<char>;

/// Relies on `String::from_utf8_lossy`: the decoded text is a function of
/// the bytes alone, and valid UTF-8 decodes to exactly the characters it
/// encodes.
#[verifier::external_body]
fn decode_lossy(bytes: &[u8]) -> (r: String)
    ensures
        r@ == lossy_decode(bytes@),
        vstd::utf8::valid_utf8(bytes@) ==> vstd::utf8::encode_utf8(r@) == bytes@,
{
    String::from_utf8_lossy(bytes).into_owned()
}

/// Analyzes one file's raw content: decode leniently, extract the metric.
/// The record is always marked scanned; a missing metric means the content
/// yielded no usable value.
pub fn analyze_content(path: &str, content: &[u8]) -> (r: DRResult)
    ensures
        r.scanned,
        r.path@ == path@,
        r.filename@ == base_name(path@),
        r.dr_value == extract_spec(lossy_decode(content@)),
        r.wf(),
{
    let text = decode_lossy(content);
    let dr = extract_dr(text.as_str());
    DRResult {
        filename: file_base_name(path),
        path: path.to_owned(),
        dr_value: dr,
        scanned: true,
    }
}

} // verus!
