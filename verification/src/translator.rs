//! Batch dispatch bookkeeping around the indexed translation mode: the
//! response envelope, and the aggregation of per-batch results into the
//! translation result vector.
//!
//! The network itself stays outside the library.  A caller partitions the
//! fragments with `make_batches`, performs one request per batch payload,
//! hands each reply to `parse_batch_response`, and folds everything with
//! `fill_results`; a batch whose call failed contributes an empty pair
//! list and leaves its fragments' slots empty.

use vstd::prelude::*;
use crate::response::{parse_indexed_response, spec_parse_response};

verus! {

/// The string payload that a reply envelope carries: when the body parses
/// as JSON, the probe takes the first of the `data`, `text` and `result`
/// fields that is present, and yields its value when that value is a
/// string — a present non-string field ends the probe with nothing.  The
/// result depends on the body alone.
pub uninterp spec fn json_string_field(body: Seq<char>) -> Option<Seq<char>>;

/// Relies on `serde_json::from_str`, `Value::get` and `Value::as_str`:
/// parsing is a pure function of the body; the probe takes the first
/// present field of `data`, `text` and `result` and yields its value only
/// when that value is a string.
#[verifier::external_body]
fn extract_payload_field(body: &str) -> (r: Option<String>)
    ensures
        match r {
            Some(p) => json_string_field(body@) == Some(p@),
            None => json_string_field(body@) is None,
        },
{
    match serde_json::from_str::<serde_json::Value>(body) {
        Ok(v) => v
            .get("data")
            .or_else(|| v.get("text"))
            .or_else(|| v.get("result"))
            .and_then(|x| x.as_str())
            .map(|s| s.to_string()),
        Err(_) => None,
    }
}

/// The effective line text of a reply body: the envelope's string payload
/// when it has one, the raw body otherwise.
pub open spec fn spec_payload_text(body: Seq<char>) -> Seq<char> {
    match json_string_field(body) {
        Some(p) => p,
        None => body,
    }
}

/// Recovers the indexed pairs of one batch reply: the envelope is peeled
/// off when present, and the remaining text is parsed line by line.  A
/// reply that yields no valid pair simply contributes nothing.
pub fn parse_batch_response(body: &str) -> (r: Vec<(usize, String)>)
    ensures
        r.deep_view() == spec_parse_response(spec_payload_text(body@)),
{
    match extract_payload_field(body) {
        Some(p) => parse_indexed_response(p.as_str()),
        None => parse_indexed_response(body),
    }
}

/// A result vector of `n` empty slots.
pub open spec fn empty_results(n: nat) -> Seq<Seq<char>> {
    Seq::new(n, |i: int| Seq::<char>::empty())
}

/// Writes one batch's pairs into the result vector, in order; indices out
/// of range are discarded, and a later write to the same slot wins.
pub open spec fn apply_pairs(acc: Seq<Seq<char>>, pairs: Seq<(usize, Seq<char>)>) -> Seq<Seq<char>>
    decreases pairs.len(),
{
    if pairs.len() == 0 {
        acc
    } else {
        let acc1 = if pairs[0].0 < acc.len() {
            acc.update(pairs[0].0 as int, pairs[0].1)
        } else {
            acc
        };
        apply_pairs(acc1, pairs.drop_first())
    }
}

/// Writes every batch's pairs into the result vector, batch by batch.
pub open spec fn apply_batches(
    acc: Seq<Seq<char>>,
    batches: Seq<Seq<(usize, Seq<char>)>>,
) -> Seq<Seq<char>>
    decreases batches.len(),
{
    if batches.len() == 0 {
        acc
    } else {
        apply_batches(apply_pairs(acc, batches[0]), batches.drop_first())
    }
}

/// The translation result vector for `n` fragments after all batch
/// replies: empty slots, filled at each in-range recovered index.
pub open spec fn spec_fill_results(n: nat, batches: Seq<Seq<(usize, Seq<char>)>>) -> Seq<
    Seq<char>,
> {
    apply_batches(empty_results(n), batches)
}

proof fn lemma_apply_pairs_push(
    acc: Seq<Seq<char>>,
    pairs: Seq<(usize, Seq<char>)>,
    p: (usize, Seq<char>),
)
    ensures
        apply_pairs(acc, pairs.push(p)) == {
            let prev = apply_pairs(acc, pairs);
            if p.0 < prev.len() {
                prev.update(p.0 as int, p.1)
            } else {
                prev
            }
        },
    decreases pairs.len(),
{
    if pairs.len() == 0 {
        assert(pairs.push(p)[0] == p);
        assert(pairs.push(p).drop_first() =~= Seq::<(usize, Seq<char>)>::empty());
        let acc1 = if p.0 < acc.len() {
            acc.update(p.0 as int, p.1)
        } else {
            acc
        };
        assert(apply_pairs(acc, pairs.push(p)) == apply_pairs(
            acc1,
            Seq::<(usize, Seq<char>)>::empty(),
        ));
        assert(apply_pairs(acc1, Seq::<(usize, Seq<char>)>::empty()) == acc1);
        assert(apply_pairs(acc, pairs) == acc);
        assert(acc1.len() == acc.len());
    } else {
        assert(pairs.push(p)[0] == pairs[0]);
        assert(pairs.push(p).drop_first() =~= pairs.drop_first().push(p));
        let acc1 = if pairs[0].0 < acc.len() {
            acc.update(pairs[0].0 as int, pairs[0].1)
        } else {
            acc
        };
        assert(apply_pairs(acc, pairs.push(p)) == apply_pairs(acc1, pairs.drop_first().push(p)));
        lemma_apply_pairs_push(acc1, pairs.drop_first(), p);
        assert(apply_pairs(acc, pairs) == apply_pairs(acc1, pairs.drop_first()));
    }
}

proof fn lemma_apply_batches_push(
    acc: Seq<Seq<char>>,
    batches: Seq<Seq<(usize, Seq<char>)>>,
    b: Seq<(usize, Seq<char>)>,
)
    ensures
        apply_batches(acc, batches.push(b)) == apply_pairs(apply_batches(acc, batches), b),
    decreases batches.len(),
{
    if batches.len() == 0 {
        assert(batches.push(b)[0] == b);
        assert(batches.push(b).drop_first() =~= Seq::<Seq<(usize, Seq<char>)>>::empty());
        assert(apply_batches(acc, batches.push(b)) == apply_batches(
            apply_pairs(acc, b),
            Seq::<Seq<(usize, Seq<char>)>>::empty(),
        ));
        assert(apply_batches(apply_pairs(acc, b), Seq::<Seq<(usize, Seq<char>)>>::empty())
            == apply_pairs(acc, b));
        assert(apply_batches(acc, batches) == acc);
    } else {
        assert(batches.push(b)[0] == batches[0]);
        assert(batches.push(b).drop_first() =~= batches.drop_first().push(b));
        assert(apply_batches(acc, batches.push(b)) == apply_batches(
            apply_pairs(acc, batches[0]),
            batches.drop_first().push(b),
        ));
        lemma_apply_batches_push(apply_pairs(acc, batches[0]), batches.drop_first(), b);
        assert(apply_batches(acc, batches) == apply_batches(
            apply_pairs(acc, batches[0]),
            batches.drop_first(),
        ));
    }
}

/// The result vector keeps its length through one batch.
proof fn lemma_apply_pairs_len(acc: Seq<Seq<char>>, pairs: Seq<(usize, Seq<char>)>)
    ensures
        apply_pairs(acc, pairs).len() == acc.len(),
    decreases pairs.len(),
{
    if pairs.len() > 0 {
        let acc1 = if pairs[0].0 < acc.len() {
            acc.update(pairs[0].0 as int, pairs[0].1)
        } else {
            acc
        };
        lemma_apply_pairs_len(acc1, pairs.drop_first());
    }
}

/// Builds the translation result vector: `n` empty slots, populated with
/// every in-range `(index, text)` pair of every batch, in batch order,
/// the last write to a slot winning.  Fragments no batch translated keep
/// their empty slot.
pub fn fill_results(n: usize, batch_results: &Vec<Vec<(usize, String)>>) -> (r: Vec<String>)
    ensures
        r.deep_view() == spec_fill_results(n as nat, batch_results.deep_view()),
        r@.len() == n,
{
    let ghost bv = batch_results.deep_view();
    let mut result: Vec<String> = Vec::new();
    let mut i: usize = 0;
    while i < n
        invariant
            0 <= i <= n,
            result@.len() == i,
            forall|k: int| 0 <= k < i ==> result.deep_view()[k] == Seq::<char>::empty(),
        decreases n - i,
    {
        let ghost pre = result.deep_view();
        result.push(String::new());
        proof {
            assert forall|k: int| 0 <= k < i + 1 implies result.deep_view()[k] == Seq::<
                char,
            >::empty() by {
                if k < i {
                    assert(result.deep_view()[k] == pre[k]);
                }
            }
        }
        i = i + 1;
    }
    proof {
        assert(result.deep_view() =~= empty_results(n as nat));
        assert(apply_batches(empty_results(n as nat), bv.take(0)) =~= empty_results(n as nat));
    }
    let m: usize = batch_results.len();
    let mut b: usize = 0;
    while b < m
        invariant
            0 <= b <= m,
            m == batch_results@.len(),
            bv == batch_results.deep_view(),
            bv.len() == m,
            result.deep_view() == apply_batches(empty_results(n as nat), bv.take(b as int)),
            result@.len() == n,
        decreases m - b,
    {
        let ghost before = result.deep_view();
        let batch = &batch_results[b];
        let ghost pv = bv[b as int];
        let k_max: usize = batch.len();
        let mut k: usize = 0;
        proof {
            assert(pv.take(0) =~= Seq::<(usize, Seq<char>)>::empty());
            assert(apply_pairs(before, pv.take(0)) == before);
        }
        while k < k_max
            invariant
                0 <= k <= k_max,
                k_max == batch@.len(),
                pv == batch.deep_view(),
                pv.len() == k_max,
                result.deep_view() == apply_pairs(before, pv.take(k as int)),
                result@.len() == n,
            decreases k_max - k,
        {
            let idx = batch[k].0;
            let ghost mid = result.deep_view();
            if idx < n {
                let text = batch[k].1.clone();
                result[idx] = text;
                proof {
                    assert(result.deep_view() =~= mid.update(idx as int, pv[k as int].1));
                }
            }
            proof {
                assert(pv.take(k + 1) =~= pv.take(k as int).push(pv[k as int]));
                lemma_apply_pairs_push(before, pv.take(k as int), pv[k as int]);
                assert(mid.len() == n) by {
                    assert(mid.len() == result@.len());
                }
            }
            k = k + 1;
        }
        proof {
            assert(pv.take(k_max as int) =~= pv);
            assert(bv.take(b + 1) =~= bv.take(b as int).push(pv));
            lemma_apply_batches_push(empty_results(n as nat), bv.take(b as int), pv);
        }
        b = b + 1;
    }
    proof {
        assert(bv.take(m as int) =~= bv);
    }
    result
}

} // verus!
