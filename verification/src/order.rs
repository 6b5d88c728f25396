//! The total ordering over scan records.
//!
//! Records with a numeric metric come first (higher metric first, ties by
//! ascending path), then errored records, then pending records, each group
//! ascending by path.  The comparison on paths is lexicographic by
//! character, which on UTF-8 strings coincides with byte-wise order.

use vstd::multiset::Multiset;
use vstd::prelude::*;

use crate::record::DRResult;

verus! {

/// Strict lexicographic order on character sequences, by code point.
pub open spec fn seq_lt(a: Seq<char>, b: Seq<char>) -> bool
    decreases a.len(),
{
    if b.len() == 0 {
        false
    } else if a.len() == 0 {
        true
    } else if a.first() == b.first() {
        seq_lt(a.drop_first(), b.drop_first())
    } else {
        (a.first() as u32) < (b.first() as u32)
    }
}

/// `seq_lt` never relates a sequence to itself.
pub proof fn lemma_seq_lt_irreflexive(a: Seq<char>)
    ensures
        !seq_lt(a, a),
    decreases a.len(),
{
    if a.len() > 0 {
        lemma_seq_lt_irreflexive(a.drop_first());
    }
}

/// `seq_lt` holds in at most one direction.
pub proof fn lemma_seq_lt_asymmetric(a: Seq<char>, b: Seq<char>)
    ensures
        seq_lt(a, b) ==> !seq_lt(b, a),
    decreases a.len(),
{
    if a.len() > 0 && b.len() > 0 && a.first() == b.first() {
        lemma_seq_lt_asymmetric(a.drop_first(), b.drop_first());
    }
}

/// When `seq_lt` holds in neither direction the sequences are equal.
pub proof fn lemma_seq_lt_connected(a: Seq<char>, b: Seq<char>)
    ensures
        !seq_lt(a, b) && !seq_lt(b, a) ==> a == b,
    decreases a.len(),
{
    if !seq_lt(a, b) && !seq_lt(b, a) {
        if a.len() == 0 {
            assert(b.len() == 0);
            assert(a =~= b);
        } else {
            assert(b.len() > 0);
            if a.first() == b.first() {
                lemma_seq_lt_connected(a.drop_first(), b.drop_first());
                assert(a.drop_first() == b.drop_first());
                assert(a.len() == b.len());
                assert forall|i: int| 0 <= i < a.len() implies a[i] == b[i] by {
                    if i > 0 {
                        assert(a[i] == a.drop_first()[i - 1]);
                        assert(b[i] == b.drop_first()[i - 1]);
                    }
                }
                assert(a =~= b);
            } else {
                vstd::utf8::char_u32_cast(a.first(), a.first() as u32);
                vstd::utf8::char_u32_cast(b.first(), b.first() as u32);
                assert(false);
            }
        }
    }
}

/// `seq_lt` is transitive.
pub proof fn lemma_seq_lt_transitive(a: Seq<char>, b: Seq<char>, c: Seq<char>)
    ensures
        seq_lt(a, b) && seq_lt(b, c) ==> seq_lt(a, c),
    decreases a.len(),
{
    if seq_lt(a, b) && seq_lt(b, c) {
        if a.len() == 0 {
        } else {
            assert(b.len() > 0 && c.len() > 0);
            if a.first() == b.first() && b.first() == c.first() {
                lemma_seq_lt_transitive(a.drop_first(), b.drop_first(), c.drop_first());
            }
        }
    }
}

/// Exec comparison of two strings under `seq_lt`.
pub fn str_lt(a: &str, b: &str) -> (r: bool)
    ensures
        r == seq_lt(a@, b@),
{
    let an = a.unicode_len();
    let bn = b.unicode_len();
    let mut i: usize = 0;
    proof {
        assert(a@.skip(0) =~= a@);
        assert(b@.skip(0) =~= b@);
    }
    loop
        invariant
            i <= an,
            i <= bn,
            an == a@.len(),
            bn == b@.len(),
            seq_lt(a@, b@) == seq_lt(a@.skip(i as int), b@.skip(i as int)),
            seq_lt(b@, a@) == seq_lt(b@.skip(i as int), a@.skip(i as int)),
            forall|j: int| 0 <= j < i ==> a@[j] == b@[j],
        decreases an - i,
    {
        if i >= bn {
            proof {
                assert(b@.skip(i as int).len() == 0);
            }
            return false;
        }
        if i >= an {
            proof {
                assert(a@.skip(i as int).len() == 0);
                assert(b@.skip(i as int).len() > 0);
            }
            return true;
        }
        let ca = a.get_char(i);
        let cb = b.get_char(i);
        proof {
            assert(a@.skip(i as int).first() == a@[i as int]);
            assert(b@.skip(i as int).first() == b@[i as int]);
            assert(a@.skip(i as int).drop_first() =~= a@.skip(i + 1));
            assert(b@.skip(i as int).drop_first() =~= b@.skip(i + 1));
        }
        if ca == cb {
            i += 1;
        } else {
            return (ca as u32) < (cb as u32);
        }
    }
}

/// The strict order over records, most-significant rule first: records with
/// a metric before records without one; among metrics, higher value first,
/// ties by ascending path; among records without a metric, errored
/// (`scanned`) before pending, ties by ascending path.
pub open spec fn record_lt(a: DRResult, b: DRResult) -> bool {
    match (a.dr_value, b.dr_value) {
        (Some(x), Some(y)) => x > y || (x == y && seq_lt(a.path@, b.path@)),
        (Some(_), None) => true,
        (None, Some(_)) => false,
        (None, None) => if a.scanned && !b.scanned {
            true
        } else if !a.scanned && b.scanned {
            false
        } else {
            seq_lt(a.path@, b.path@)
        },
    }
}

/// Non-strict companion of `record_lt`.
pub open spec fn record_le(a: DRResult, b: DRResult) -> bool {
    !record_lt(b, a)
}

/// Equality of everything the comparator looks at: metric, scanned flag and
/// path.  Two well-formed records that `record_lt` orders in neither
/// direction agree on all three.
pub open spec fn key_eq(a: DRResult, b: DRResult) -> bool {
    a.dr_value == b.dr_value && a.scanned == b.scanned && a.path@ == b.path@
}

/// No record sorts before itself.
pub proof fn lemma_record_lt_irreflexive(a: DRResult)
    ensures
        !record_lt(a, a),
{
    lemma_seq_lt_irreflexive(a.path@);
}

/// The record order holds in at most one direction.
pub proof fn lemma_record_lt_asymmetric(a: DRResult, b: DRResult)
    ensures
        record_lt(a, b) ==> !record_lt(b, a),
{
    lemma_seq_lt_asymmetric(a.path@, b.path@);
    lemma_seq_lt_asymmetric(b.path@, a.path@);
}

/// The record order is transitive.
pub proof fn lemma_record_lt_transitive(a: DRResult, b: DRResult, c: DRResult)
    ensures
        record_lt(a, b) && record_lt(b, c) ==> record_lt(a, c),
{
    lemma_seq_lt_transitive(a.path@, b.path@, c.path@);
}

/// Two well-formed records that the order relates in neither direction
/// carry the same metric, the same scanned flag and the same path: the
/// order is total up to comparator keys.
pub proof fn lemma_record_lt_connected(a: DRResult, b: DRResult)
    requires
        a.wf(),
        b.wf(),
    ensures
        !record_lt(a, b) && !record_lt(b, a) ==> key_eq(a, b),
{
    lemma_seq_lt_connected(a.path@, b.path@);
}

/// Exec comparison of two records under `record_lt`.
pub fn record_before(a: &DRResult, b: &DRResult) -> (r: bool)
    ensures
        r == record_lt(*a, *b),
{
    match (a.dr_value, b.dr_value) {
        (Some(x), Some(y)) => {
            if x > y {
                true
            } else if y > x {
                false
            } else {
                str_lt(a.path.as_str(), b.path.as_str())
            }
        },
        (Some(_), None) => true,
        (None, Some(_)) => false,
        (None, None) => {
            if a.scanned && !b.scanned {
                true
            } else if !a.scanned && b.scanned {
                false
            } else {
                str_lt(a.path.as_str(), b.path.as_str())
            }
        },
    }
}

/// A sequence of records in display order.
pub open spec fn sorted_records(s: Seq<DRResult>) -> bool {
    forall|i: int, j: int| 0 <= i < j < s.len() ==> #[trigger] record_le(s[i], s[j])
}

/// A record strictly below one element of a sorted run is not above any
/// later element.
proof fn lemma_le_beyond(x: DRResult, a: DRResult, b: DRResult)
    ensures
        record_lt(x, a) && record_le(a, b) ==> record_le(x, b),
{
    if record_lt(x, a) && record_le(a, b) && record_lt(b, x) {
        lemma_record_lt_transitive(b, x, a);
    }
}

/// An errored record is indistinguishable downstream whatever went wrong:
/// two scanned records without a metric on the same path — one from an
/// unreadable file, one from content that yielded no value — carry the same
/// comparator key and the same metric text.
pub proof fn lemma_err_state_indistinguishable(a: DRResult, b: DRResult)
    requires
        a.dr_value is None,
        b.dr_value is None,
        a.scanned,
        b.scanned,
        a.path@ == b.path@,
    ensures
        key_eq(a, b),
        crate::record::metric_text_spec(a) == crate::record::metric_text_spec(b),
{
}

/// Sorted output is unique: two sorted batches that hold the same records
/// (as a multiset), with pairwise distinct paths, are the same sequence.
///
/// Read one way, sorting is idempotent: a batch that is already sorted is
/// its own sorted form, so sorting it again changes nothing.  Read the
/// other way, the pipeline is deterministic: however the unordered batch
/// was permuted by worker completion order, its sorted form is the same.
pub proof fn lemma_sorted_batch_unique(x: Seq<DRResult>, y: Seq<DRResult>)
    requires
        sorted_records(x),
        sorted_records(y),
        x.to_multiset() == y.to_multiset(),
        forall|i: int| 0 <= i < x.len() ==> (#[trigger] x[i]).wf(),
        forall|i: int, j: int| 0 <= i < j < x.len() ==> x[i].path@ != x[j].path@,
    ensures
        x == y,
    decreases x.len(),
{
    broadcast use vstd::seq_lib::group_to_multiset_ensures;

    assert(x.to_multiset().len() == x.len());
    assert(y.to_multiset().len() == y.len());
    if x.len() == 0 {
        assert(x =~= y);
    } else {
        // The head of y occurs in x, and the head of x occurs in y.
        assert(x.to_multiset().count(x[0]) > 0);
        vstd::seq_lib::to_multiset_contains(y, x[0]);
        assert(y.contains(x[0]));
        let j = choose|j: int| 0 <= j < y.len() && y[j] == x[0];
        assert(y.to_multiset().count(y[0]) > 0);
        vstd::seq_lib::to_multiset_contains(x, y[0]);
        assert(x.contains(y[0]));
        let i = choose|i: int| 0 <= i < x.len() && x[i] == y[0];
        // Both heads are minimal, so they compare equal on their keys.
        if j > 0 {
            assert(record_le(y[0], y[j]));
        }
        if i > 0 {
            assert(record_le(x[0], x[i]));
        }
        lemma_record_lt_connected(x[0], x[i]);
        assert(key_eq(x[0], y[0]));
        // Distinct paths leave only one position for the head of y in x.
        assert(i == 0) by {
            if i != 0 {
                assert(x[0].path@ != x[i].path@);
            }
        }
        assert(x[0] == y[0]);
        // Strip the common head and recurse.
        let xt = x.drop_first();
        let yt = y.drop_first();
        assert(x.remove(0) =~= xt);
        assert(y.remove(0) =~= yt);
        vstd::seq_lib::to_multiset_remove(x, 0);
        vstd::seq_lib::to_multiset_remove(y, 0);
        assert(xt.to_multiset() == yt.to_multiset());
        assert forall|p: int, q: int| 0 <= p < q < xt.len() implies xt[p].path@ != xt[q].path@ by {
            assert(xt[p] == x[p + 1] && xt[q] == x[q + 1]);
        }
        assert forall|p: int| 0 <= p < xt.len() implies (#[trigger] xt[p]).wf() by {
            assert(xt[p] == x[p + 1]);
        }
        assert forall|p: int, q: int| 0 <= p < q < xt.len() implies #[trigger] record_le(
            xt[p],
            xt[q],
        ) by {
            assert(record_le(x[p + 1], x[q + 1]));
        }
        assert forall|p: int, q: int| 0 <= p < q < yt.len() implies #[trigger] record_le(
            yt[p],
            yt[q],
        ) by {
            assert(record_le(y[p + 1], y[q + 1]));
        }
        lemma_sorted_batch_unique(xt, yt);
        assert forall|k: int| 0 <= k < x.len() implies x[k] == y[k] by {
            if k > 0 {
                assert(x[k] == xt[k - 1] && y[k] == yt[k - 1]);
            }
        }
        assert(x =~= y);
    }
}

/// Sorts a batch of scan records into display order.  The result holds
/// exactly the input records (as a multiset) and is sorted under the
/// record order.
pub fn sort_results(records: Vec<DRResult>) -> (r: Vec<DRResult>)
    ensures
        sorted_records(r@),
        r@.to_multiset() == records@.to_multiset(),
        (forall|i: int| 0 <= i < records@.len() ==> (#[trigger] records@[i]).wf()) ==> (forall|
            i: int,
        |
            0 <= i < r@.len() ==> (#[trigger] r@[i]).wf()),
{
    broadcast use vstd::seq_lib::group_to_multiset_ensures;
    broadcast use vstd::multiset::group_multiset_axioms;

    let mut rest = records;
    let mut out: Vec<DRResult> = Vec::new();
    proof {
        assert(out@.to_multiset().add(rest@.to_multiset()) =~= records@.to_multiset());
    }
    while rest.len() > 0
        invariant
            sorted_records(out@),
            out@.to_multiset().add(rest@.to_multiset()) == records@.to_multiset(),
        decreases rest@.len(),
    {
        let ghost prev_out = out@;
        let ghost prev_rest = rest@;
        let x = rest.remove(0);
        proof {
            assert(prev_rest[0] == x);
            assert(prev_rest.contains(x));
            vstd::seq_lib::to_multiset_contains(prev_rest, x);
            assert(prev_rest.to_multiset().count(x) > 0);
        }
        let mut idx: usize = 0;
        loop
            invariant
                idx <= out.len(),
                out@ == prev_out,
                sorted_records(out@),
                forall|k: int| 0 <= k < idx ==> record_le(#[trigger] out@[k], x),
            ensures
                idx <= out@.len(),
                out@ == prev_out,
                forall|k: int| 0 <= k < idx ==> record_le(#[trigger] out@[k], x),
                forall|k: int| idx <= k < out@.len() ==> record_le(x, #[trigger] out@[k]),
            decreases out@.len() - idx,
        {
            if idx == out.len() {
                break ;
            }
            if record_before(&x, &out[idx]) {
                proof {
                    assert forall|k: int| idx <= k < out@.len() implies record_le(
                        x,
                        #[trigger] out@[k],
                    ) by {
                        if k == idx {
                            lemma_record_lt_asymmetric(x, out@[k]);
                        } else {
                            lemma_le_beyond(x, out@[idx as int], out@[k]);
                        }
                    }
                }
                break ;
            }
            idx += 1;
        }
        let ghost mid = out@;
        out.insert(idx, x);
        proof {
            mid.insert_ensures(idx as int, x);
            assert forall|i: int, j: int| 0 <= i < j < out@.len() implies #[trigger] record_le(
                out@[i],
                out@[j],
            ) by {
                if j < idx {
                } else if i > idx {
                } else if i == idx && j > idx {
                    assert(out@[j] == mid[j - 1]);
                } else if j == idx {
                    assert(out@[i] == mid[i]);
                } else {
                    // i < idx < j
                    assert(out@[i] == mid[i] && out@[j] == mid[j - 1]);
                }
            }
            vstd::seq_lib::to_multiset_insert(mid, idx as int, x);
            vstd::seq_lib::to_multiset_remove(prev_rest, 0);
            assert(out@.to_multiset() == mid.to_multiset().insert(x));
            assert(rest@.to_multiset() == prev_rest.to_multiset().remove(x));
            assert forall|y: DRResult|
                out@.to_multiset().add(rest@.to_multiset()).count(y) == records@.to_multiset().count(
                    y,
                ) by {
                assert(Multiset::singleton(x).count(x) == 1);
                if y != x {
                    assert(Multiset::singleton(x).count(y) == 0);
                }
                assert(mid.to_multiset().add(prev_rest.to_multiset()).count(y)
                    == records@.to_multiset().count(y));
            }
            assert(out@.to_multiset().add(rest@.to_multiset()) =~= records@.to_multiset());
        }
    }
    proof {
        assert forall|y: DRResult|
            out@.to_multiset().count(y) == records@.to_multiset().count(y) by {
            vstd::seq_lib::to_multiset_contains(rest@, y);
            assert(!rest@.contains(y));
            assert(rest@.to_multiset().count(y) == 0);
        }
        assert(out@.to_multiset() =~= records@.to_multiset());
        if forall|i: int| 0 <= i < records@.len() ==> (#[trigger] records@[i]).wf() {
            assert forall|i: int| 0 <= i < out@.len() implies (#[trigger] out@[i]).wf() by {
                assert(out@.contains(out@[i]));
                vstd::seq_lib::to_multiset_contains(out@, out@[i]);
                vstd::seq_lib::to_multiset_contains(records@, out@[i]);
                assert(records@.contains(out@[i]));
                let j = choose|j: int| 0 <= j < records@.len() && records@[j] == out@[i];
                assert(records@[j].wf());
            }
        }
    }
    out
}

} // verus!
