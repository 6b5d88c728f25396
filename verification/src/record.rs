//! The per-file scan record and its display helpers.
//!
//! A `DRResult` describes one file's analysis outcome.  Its key invariant:
//! a record that has not been scanned yet carries no metric.  A record with
//! `scanned == true` and no metric is the explicit error state ("ERR"),
//! distinct from a pending record ("PENDING").

use vstd::prelude::*;

verus! {

/// The result of analyzing (or planning to analyze) a single log file.
#[derive(Clone, Debug, PartialEq, Eq)]
pub struct DRResult {
    /// The extracted DR value.  `None` means "no value": an error if
    /// `scanned` is set, a pending placeholder otherwise.
    pub dr_value: Option<u8>,
    /// The file's display name: the final component of `path`.
    pub filename: String,
    /// The full path of the file; unique within one scan.
    pub path: String,
    /// Whether an analysis attempt (success or failure) has completed.
    pub scanned: bool,
}

impl DRResult {
    /// A record that has not been scanned never carries a metric.
    pub open spec fn wf(self) -> bool {
        !self.scanned ==> self.dr_value is None
    }
}

/// The index of the last occurrence of `c` in `s`, if any.
pub open spec fn last_index_of(s: Seq<char>, c: char) -> Option<int>
    decreases s.len(),
{
    if s.len() == 0 {
        None
    } else if s.last() == c {
        Some(s.len() - 1)
    } else {
        last_index_of(s.drop_last(), c)
    }
}

/// A `last_index_of` hit always lies inside the string.
pub proof fn lemma_last_index_in_range(s: Seq<char>, c: char)
    ensures
        last_index_of(s, c) matches Some(k) ==> 0 <= k < s.len() && s[k] == c,
    decreases s.len(),
{
    if s.len() > 0 && s.last() != c {
        lemma_last_index_in_range(s.drop_last(), c);
    }
}

/// Exec search for the last occurrence of `c`, matching `last_index_of`.
pub fn find_last(s: &str, c: char) -> (r: Option<usize>)
    ensures
        match r {
            None => last_index_of(s@, c) is None,
            Some(k) => last_index_of(s@, c) == Some(k as int),
        },
{
    let n = s.unicode_len();
    let mut i: usize = 0;
    let mut found: Option<usize> = None;
    while i < n
        invariant
            i <= n,
            n == s@.len(),
            match found {
                None => last_index_of(s@.take(i as int), c) is None,
                Some(k) => last_index_of(s@.take(i as int), c) == Some(k as int),
            },
        decreases n - i,
    {
        let cur = s.get_char(i);
        proof {
            assert(s@.take(i + 1).drop_last() =~= s@.take(i as int));
            assert(s@.take(i + 1).last() == s@[i as int]);
        }
        if cur == c {
            found = Some(i);
        }
        i += 1;
    }
    proof {
        assert(s@.take(n as int) =~= s@);
    }
    found
}

/// The final path component: everything after the last `/`, or the whole
/// string when it contains no `/`.
pub open spec fn base_name(s: Seq<char>) -> Seq<char> {
    match last_index_of(s, '/') {
        None => s,
        Some(k) => s.subrange(k + 1, s.len() as int),
    }
}

/// The display name of the file at `path`: the part after the last `/`.
pub fn file_base_name(path: &str) -> (r: String)
    ensures
        r@ == base_name(path@),
{
    let n = path.unicode_len();
    match find_last(path, '/') {
        None => path.to_owned(),
        Some(k) => {
            proof {
                lemma_last_index_in_range(path@, '/');
            }
            let piece = path.substring_char(k + 1, n);
            piece.to_owned()
        },
    }
}

/// The record produced when a file could not be read or analyzed at all:
/// scanned, but with no metric.  Indistinguishable downstream from a file
/// whose content yielded no usable value.
pub fn create_error_result(path: &str) -> (r: DRResult)
    ensures
        r.dr_value is None,
        r.scanned,
        r.path@ == path@,
        r.filename@ == base_name(path@),
        r.wf(),
{
    DRResult {
        filename: file_base_name(path),
        path: path.to_owned(),
        dr_value: None,
        scanned: true,
    }
}

/// The placeholder record for a discovered file that has not been scanned
/// yet: no metric, `scanned == false`.
pub fn pending_result(path: &str) -> (r: DRResult)
    ensures
        r.dr_value is None,
        !r.scanned,
        r.path@ == path@,
        r.filename@ == base_name(path@),
        r.wf(),
{
    DRResult {
        filename: file_base_name(path),
        path: path.to_owned(),
        dr_value: None,
        scanned: false,
    }
}

/// The character for one decimal digit.
pub open spec fn digit_char(d: int) -> char {
    if d == 0 {
        '0'
    } else if d == 1 {
        '1'
    } else if d == 2 {
        '2'
    } else if d == 3 {
        '3'
    } else if d == 4 {
        '4'
    } else if d == 5 {
        '5'
    } else if d == 6 {
        '6'
    } else if d == 7 {
        '7'
    } else if d == 8 {
        '8'
    } else {
        '9'
    }
}

/// The decimal rendering of a non-negative integer, without leading zeros.
pub open spec fn dec_digits(n: int) -> Seq<char>
    decreases n,
{
    if n < 10 {
        seq![digit_char(n)]
    } else {
        dec_digits(n / 10).push(digit_char(n % 10))
    }
}

/// The exec form of one decimal digit.
fn digit_str(d: u8) -> (r: &'static str)
    requires
        d < 10,
    ensures
        r@ == seq![digit_char(d as int)],
{
    let r = if d == 0 {
        "0"
    } else if d == 1 {
        "1"
    } else if d == 2 {
        "2"
    } else if d == 3 {
        "3"
    } else if d == 4 {
        "4"
    } else if d == 5 {
        "5"
    } else if d == 6 {
        "6"
    } else if d == 7 {
        "7"
    } else if d == 8 {
        "8"
    } else {
        "9"
    };
    proof {
        reveal_strlit("0");
        reveal_strlit("1");
        reveal_strlit("2");
        reveal_strlit("3");
        reveal_strlit("4");
        reveal_strlit("5");
        reveal_strlit("6");
        reveal_strlit("7");
        reveal_strlit("8");
        reveal_strlit("9");
        assert(r@ =~= seq![digit_char(d as int)]);
    }
    r
}

/// The textual rendering of a record's metric field: the value in decimal,
/// or the token for an errored or pending record.
pub open spec fn metric_text_spec(r: DRResult) -> Seq<char> {
    match r.dr_value {
        Some(v) => dec_digits(v as int),
        None => if r.scanned {
            "ERR"@
        } else {
            "PENDING"@
        },
    }
}

/// Renders the metric field of a record for display.
pub fn metric_text(r: &DRResult) -> (t: String)
    ensures
        t@ == metric_text_spec(*r),
{
    match r.dr_value {
        Some(v) => {
            let mut s = String::new();
            if v >= 100 {
                s.append(digit_str(v / 100));
            }
            if v >= 10 {
                s.append(digit_str((v / 10) % 10));
            }
            s.append(digit_str(v % 10));
            proof {
                if v < 10 {
                    assert(s@ =~= dec_digits(v as int));
                } else if v < 100 {
                    assert(v as int / 10 < 10);
                    assert(dec_digits(v as int / 10) =~= seq![digit_char(v as int / 10)]);
                    assert(s@ =~= dec_digits(v as int));
                } else {
                    assert(v as int / 10 / 10 == v as int / 100);
                    assert(v as int / 10 >= 10);
                    assert(dec_digits(v as int / 10) == dec_digits(v as int / 10 / 10).push(
                        digit_char(v as int / 10 % 10),
                    ));
                    assert(v as int / 100 < 10);
                    assert(s@ =~= dec_digits(v as int));
                }
            }
            s
        },
        None => {
            if r.scanned {
                "ERR".to_owned()
            } else {
                "PENDING".to_owned()
            }
        },
    }
}

/// One display row: name, path and metric text, tab-separated.
pub open spec fn row_text_spec(r: DRResult) -> Seq<char> {
    r.filename@ + seq!['\t'] + r.path@ + seq!['\t'] + metric_text_spec(r)
}

/// Renders a batch as display rows, one per record, in the given order.
/// Callers sort the batch first; rendering keeps the order it is given.
pub fn render_rows(records: &Vec<DRResult>) -> (rows: Vec<String>)
    ensures
        rows@.len() == records@.len(),
        forall|i: int|
            0 <= i < rows@.len() ==> (#[trigger] rows@[i])@ == row_text_spec(records@[i]),
{
    let n = records.len();
    let mut out: Vec<String> = Vec::new();
    let mut i: usize = 0;
    while i < n
        invariant
            i <= n,
            n == records@.len(),
            out@.len() == i,
            forall|k: int| 0 <= k < i ==> (#[trigger] out@[k])@ == row_text_spec(records@[k]),
        decreases n - i,
    {
        let row = row_text(&records[i]);
        out.push(row);
        i += 1;
    }
    out
}

/// Renders one record as its tab-separated display row.
pub fn row_text(r: &DRResult) -> (t: String)
    ensures
        t@ == row_text_spec(*r),
{
    let mut s = r.filename.clone();
    s.append("\t");
    s.append(r.path.as_str());
    s.append("\t");
    let m = metric_text(r);
    s.append(m.as_str());
    proof {
        reveal_strlit("\t");
        assert("\t"@ =~= seq!['\t']);
        assert(s@ =~= row_text_spec(*r));
    }
    s
}

} // verus!
