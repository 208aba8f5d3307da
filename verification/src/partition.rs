//! The batch partitioner: slices the extracted fragment list into
//! contiguous, index-tagged batches.  Each batch's payload joins lines of
//! the form `[<global index>] <fragment>` with newlines, and batch
//! boundaries never split a tag from its text.

use vstd::prelude::*;
use vstd::arithmetic::div_mod::{lemma_div_plus_one, lemma_fundamental_div_mod};
use vstd::arithmetic::mul::{lemma_mul_inequality, lemma_mul_is_distributive_sub_other_way};
use crate::digits::{spec_decimal, usize_to_string};
use crate::strutil::{spec_trim, trim_str};

verus! {

/// One dispatch batch: the global index of its first fragment, how many
/// fragments it holds, and the index-tagged payload to send.
pub struct Batch {
    pub start: usize,
    pub count: usize,
    pub payload: String,
}

/// The ceiling of `n / d`.
pub open spec fn spec_ceil_div(n: int, d: int) -> int
    recommends
        d > 0,
{
    (n + d - 1) / d
}

/// The configured batch size: at least five fragments, at least an even
/// split of `n` fragments over `f` concurrent batches.
pub open spec fn spec_batch_size(n: int, f: int) -> int {
    let fe = if f <= 0 {
        1
    } else {
        f
    };
    let c = spec_ceil_div(n, fe);
    if c < 5 {
        5
    } else {
        c
    }
}

/// One index-tagged line: `[` the decimal global index `] ` and the
/// trimmed fragment.
pub open spec fn spec_indexed_line(texts: Seq<Seq<char>>, i: int) -> Seq<char>
    recommends
        0 <= i < texts.len(),
{
    "["@ + spec_decimal(i as nat) + "] "@ + spec_trim(texts[i])
}

/// The payload for fragments `[start, end)`: indexed lines joined with
/// newlines.
pub open spec fn spec_batch_payload(texts: Seq<Seq<char>>, start: int, end: int) -> Seq<char>
    recommends
        0 <= start <= end <= texts.len(),
    decreases end - start,
{
    if end <= start {
        Seq::empty()
    } else {
        spec_indexed_line(texts, start) + (if start + 1 < end {
            seq!['\n'] + spec_batch_payload(texts, start + 1, end)
        } else {
            Seq::empty()
        })
    }
}

proof fn lemma_payload_snoc(texts: Seq<Seq<char>>, start: int, j: int)
    requires
        0 <= start <= j,
    ensures
        spec_batch_payload(texts, start, j + 1) == spec_batch_payload(texts, start, j) + (if j
            > start {
            seq!['\n']
        } else {
            Seq::<char>::empty()
        }) + spec_indexed_line(texts, j),
    decreases j - start,
{
    if j == start {
        assert(spec_batch_payload(texts, start, j + 1) == spec_indexed_line(texts, start) + Seq::<
            char,
        >::empty());
        assert(spec_batch_payload(texts, start, j) == Seq::<char>::empty());
        assert(spec_batch_payload(texts, start, j) + Seq::<char>::empty() + spec_indexed_line(
            texts,
            j,
        ) =~= spec_indexed_line(texts, start) + Seq::<char>::empty());
    } else {
        lemma_payload_snoc(texts, start + 1, j);
        assert(spec_batch_payload(texts, start, j + 1) == spec_indexed_line(texts, start) + (seq![
            '\n',
        ] + spec_batch_payload(texts, start + 1, j + 1)));
        assert(spec_batch_payload(texts, start, j) == spec_indexed_line(texts, start) + (if start
            + 1 < j {
            seq!['\n'] + spec_batch_payload(texts, start + 1, j)
        } else {
            Seq::<char>::empty()
        }));
        if start + 1 < j {
            assert(spec_indexed_line(texts, start) + (seq!['\n'] + (spec_batch_payload(
                texts,
                start + 1,
                j,
            ) + seq!['\n'] + spec_indexed_line(texts, j))) =~= (spec_indexed_line(texts, start) + (
            seq!['\n'] + spec_batch_payload(texts, start + 1, j))) + seq!['\n']
                + spec_indexed_line(texts, j));
        } else {
            assert(spec_batch_payload(texts, start + 1, j) =~= Seq::<char>::empty());
            assert(spec_indexed_line(texts, start) + (seq!['\n'] + (Seq::<char>::empty() + Seq::<
                char,
            >::empty() + spec_indexed_line(texts, j))) =~= (spec_indexed_line(texts, start)
                + Seq::<char>::empty()) + seq!['\n'] + spec_indexed_line(texts, j));
        }
    }
}

/// The structural relation between a batch list, the fragment count `n`
/// and the batch size `bs`: batches are contiguous from zero, all but the
/// last hold exactly `bs` fragments, every batch is non-empty, and the
/// last ends at `n`.
pub open spec fn batches_structure(b: Seq<Batch>, n: int, bs: int) -> bool {
    &&& (n == 0 ==> b.len() == 0)
    &&& (n > 0 ==> {
        &&& b.len() > 0
        &&& b[0].start == 0
        &&& forall|k: int| 1 <= k < b.len() ==> (#[trigger] b[k].start) == b[k - 1].start + bs
        &&& forall|k: int| 0 <= k < b.len() - 1 ==> (#[trigger] b[k].count) == bs
        &&& b[b.len() - 1].start + b[b.len() - 1].count == n
        &&& forall|k: int| 0 <= k < b.len() ==> 0 < (#[trigger] b[k].count) <= bs
    })
}

/// Whether batch `k` of the list covers global index `idx`.
pub open spec fn batch_covers(b: Seq<Batch>, k: int, idx: int) -> bool {
    0 <= k < b.len() && b[k].start <= idx < b[k].start + b[k].count
}

/// Whether some batch of the list covers global index `idx`.
pub open spec fn some_batch_covers(b: Seq<Batch>, idx: int) -> bool {
    exists|k: int| #[trigger] batch_covers(b, k, idx)
}

proof fn lemma_batch_starts(b: Seq<Batch>, n: int, bs: int, k: int)
    requires
        batches_structure(b, n, bs),
        n > 0,
        0 <= k < b.len(),
    ensures
        b[k].start == k * bs,
    decreases k,
{
    if k == 0 {
        assert(0 * bs == 0) by (nonlinear_arith);
    } else {
        lemma_batch_starts(b, n, bs, k - 1);
        assert((k - 1) * bs + bs == k * bs) by (nonlinear_arith);
    }
}

/// Partition correctness: with `n` fragments and batch size `bs`, every
/// global index in `0..n` belongs to exactly one batch, every batch's
/// range lies inside `0..n`, and the ranges are contiguous from zero —
/// they cover `0..n` with no gaps and no overlaps.
pub proof fn lemma_partition_covers(b: Seq<Batch>, n: int, bs: int)
    requires
        batches_structure(b, n, bs),
        bs > 0,
        n >= 0,
    ensures
        forall|idx: int| 0 <= idx < n ==> #[trigger] some_batch_covers(b, idx),
        forall|k1: int, k2: int, idx: int|
            #[trigger] batch_covers(b, k1, idx) && #[trigger] batch_covers(b, k2, idx) ==> k1
                == k2,
        forall|k: int| 0 <= k < b.len() ==> 0 <= (#[trigger] b[k].start) && b[k].start + b[k].count
            <= n,
{
    if n <= 0 {
        assert(forall|k1: int, k2: int, idx: int|
            #[trigger] batch_covers(b, k1, idx) && #[trigger] batch_covers(b, k2, idx) ==> k1
                == k2) by {
            assert(b.len() == 0);
        }
    } else {
        lemma_partition_covers_positive(b, n, bs);
    }
}

proof fn lemma_partition_covers_positive(b: Seq<Batch>, n: int, bs: int)
    requires
        batches_structure(b, n, bs),
        bs > 0,
        n > 0,
    ensures
        forall|idx: int| 0 <= idx < n ==> #[trigger] some_batch_covers(b, idx),
        forall|k1: int, k2: int, idx: int|
            #[trigger] batch_covers(b, k1, idx) && #[trigger] batch_covers(b, k2, idx) ==> k1
                == k2,
        forall|k: int| 0 <= k < b.len() ==> 0 <= (#[trigger] b[k].start) && b[k].start + b[k].count
            <= n,
{
    let len = b.len() as int;
    assert forall|k: int| 0 <= k < len implies 0 <= (#[trigger] b[k].start) && b[k].start
        + b[k].count <= n by {
        lemma_batch_starts(b, n, bs, k);
        assert(k * bs >= 0) by (nonlinear_arith)
            requires
                k >= 0,
                bs > 0,
        ;
        if k < len - 1 {
            lemma_batch_starts(b, n, bs, len - 1);
            assert((k + 1) * bs == k * bs + bs) by (nonlinear_arith);
            lemma_mul_inequality(k + 1, len - 1, bs);
            assert(b[len - 1].start + b[len - 1].count == n);
        }
    }
    assert forall|idx: int| 0 <= idx < n implies #[trigger] some_batch_covers(b, idx) by {
        let k = idx / bs;
        lemma_fundamental_div_mod(idx, bs);
        assert(idx == bs * k + idx % bs);
        assert(0 <= idx % bs < bs);
        assert(k >= 0) by (nonlinear_arith)
            requires
                idx >= 0,
                bs > 0,
                idx == bs * k + idx % bs,
                0 <= idx % bs < bs,
        ;
        lemma_batch_starts(b, n, bs, len - 1);
        assert(n <= (len - 1) * bs + bs);
        assert((len - 1) * bs + bs == len * bs) by (nonlinear_arith);
        assert(k < len) by (nonlinear_arith)
            requires
                bs * k <= idx,
                idx < n,
                n <= len * bs,
                bs > 0,
        ;
        lemma_batch_starts(b, n, bs, k);
        assert(b[k].start == k * bs == bs * k);
        if k < len - 1 {
            assert(b[k].count == bs);
            assert(batch_covers(b, k, idx));
        } else {
            assert(b[k].start + b[k].count == n);
            assert(batch_covers(b, k, idx));
        }
    }
    assert forall|k1: int, k2: int, idx: int|
        #[trigger] batch_covers(b, k1, idx) && #[trigger] batch_covers(b, k2, idx) implies k1
        == k2 by {
        if k1 < k2 {
            lemma_batch_starts(b, n, bs, k1);
            lemma_batch_starts(b, n, bs, k2);
            assert((k1 + 1) * bs == k1 * bs + bs) by (nonlinear_arith);
            lemma_mul_inequality(k1 + 1, k2, bs);
            assert(idx < b[k1].start + b[k1].count);
            assert(b[k1].count <= bs);
            assert(b[k2].start <= idx);
        } else if k2 < k1 {
            lemma_batch_starts(b, n, bs, k1);
            lemma_batch_starts(b, n, bs, k2);
            assert((k2 + 1) * bs == k2 * bs + bs) by (nonlinear_arith);
            lemma_mul_inequality(k2 + 1, k1, bs);
            assert(idx < b[k2].start + b[k2].count);
            assert(b[k2].count <= bs);
            assert(b[k1].start <= idx);
        }
    }
}

/// Batch sizes: every batch holds at least `min(5, n)` fragments, on the
/// lists where the last batch is not a short remainder — that is, when all
/// fragments fit in one batch or the batch size divides `n` evenly.
pub proof fn lemma_batch_sizes(b: Seq<Batch>, n: int, bs: int)
    requires
        batches_structure(b, n, bs),
        bs >= 5,
        n >= 0,
        n <= bs || n % bs == 0,
    ensures
        forall|k: int|
            0 <= k < b.len() ==> (#[trigger] b[k].count) >= (if n < 5 {
                n
            } else {
                5
            }),
{
    if n > 0 {
        lemma_batch_sizes_positive(b, n, bs);
    }
}

proof fn lemma_batch_sizes_positive(b: Seq<Batch>, n: int, bs: int)
    requires
        batches_structure(b, n, bs),
        bs >= 5,
        n > 0,
        n <= bs || n % bs == 0,
    ensures
        forall|k: int|
            0 <= k < b.len() ==> (#[trigger] b[k].count) >= (if n < 5 {
                n
            } else {
                5
            }),
{
    let len = b.len() as int;
    if n <= bs {
        if len > 1 {
            lemma_batch_starts(b, n, bs, len - 1);
            assert(b[len - 1].start == (len - 1) * bs);
            assert((len - 1) * bs >= 1 * bs) by {
                lemma_mul_inequality(1, len - 1, bs);
            }
            assert(b[len - 1].start + b[len - 1].count == n);
            assert(b[len - 1].count <= 0);
        }
        assert(len == 1);
        assert(b[0].count == n);
    } else {
        assert forall|k: int| 0 <= k < len implies (#[trigger] b[k].count) >= (if n < 5 {
            n
        } else {
            5
        }) by {
            if k == len - 1 {
                lemma_batch_starts(b, n, bs, k);
                lemma_fundamental_div_mod(n, bs);
                let m = n / bs;
                assert(n == bs * m);
                assert(b[k].count == n - k * bs);
                assert(n - k * bs == (m - k) * bs) by {
                    lemma_mul_is_distributive_sub_other_way(bs, m, k);
                }
                assert(0 < (m - k) * bs <= bs);
                assert(m - k == 1) by (nonlinear_arith)
                    requires
                        0 < (m - k) * bs <= bs,
                        bs > 0,
                ;
                assert(b[k].count == 1 * bs);
            }
        }
    }
}

/// Renders the payload for fragments `[start, end)`.
fn build_payload(texts: &Vec<String>, start: usize, end: usize) -> (r: String)
    requires
        start < end <= texts@.len(),
    ensures
        r@ == spec_batch_payload(texts.deep_view(), start as int, end as int),
{
    let ghost tv = texts.deep_view();
    let mut s = String::new();
    let mut j: usize = start;
    proof {
        assert(s@ =~= spec_batch_payload(tv, start as int, start as int));
    }
    while j < end
        invariant
            start <= j <= end <= texts@.len(),
            tv == texts.deep_view(),
            s@ == spec_batch_payload(tv, start as int, j as int),
        decreases end - j,
    {
        if j > start {
            s.append("\n");
            proof {
                reveal_strlit("\n");
                assert("\n"@ =~= seq!['\n']);
            }
        }
        s.append("[");
        let num = usize_to_string(j);
        s.append(num.as_str());
        s.append("] ");
        s.append(trim_str(texts[j].as_str()));
        proof {
            assert(tv[j as int] == texts@[j as int]@);
            lemma_payload_snoc(tv, start as int, j as int);
            assert(s@ =~= spec_batch_payload(tv, start as int, j + 1));
        }
        j = j + 1;
    }
    s
}

/// Computes the batch size for `n` fragments over `f` concurrent batches.
pub fn get_indexed_batch_size(n: usize, f: usize) -> (r: usize)
    ensures
        r as int == spec_batch_size(n as int, f as int),
        r >= 5,
{
    let fe: usize = if f == 0 {
        1
    } else {
        f
    };
    let c: usize = if n == 0 {
        0
    } else {
        (n - 1) / fe + 1
    };
    proof {
        if n > 0 {
            lemma_div_plus_one(n - 1, fe as int);
            assert((n - 1 + fe) / (fe as int) == (n - 1) / (fe as int) + 1);
            assert(n + fe - 1 == n - 1 + fe);
        } else {
            vstd::arithmetic::div_mod::lemma_basic_div(fe - 1, fe as int);
        }
    }
    if c < 5 {
        5
    } else {
        c
    }
}

/// Partitions the fragment list into contiguous index-tagged batches of
/// `spec_batch_size` fragments each (the last may be shorter), covering
/// every fragment exactly once.
pub fn make_batches(texts: &Vec<String>, concurrent_batches: usize) -> (r: Vec<Batch>)
    ensures
        batches_structure(
            r@,
            texts@.len() as int,
            spec_batch_size(texts@.len() as int, concurrent_batches as int),
        ),
        forall|k: int|
            0 <= k < r@.len() ==> (#[trigger] r@[k].payload)@ == spec_batch_payload(
                texts.deep_view(),
                r@[k].start as int,
                r@[k].start + r@[k].count,
            ),
{
    let ghost tv = texts.deep_view();
    let n: usize = texts.len();
    let mut batches: Vec<Batch> = Vec::new();
    if n == 0 {
        return batches;
    }
    let bs = get_indexed_batch_size(n, concurrent_batches);
    let mut start: usize = 0;
    while start < n
        invariant
            0 <= start <= n,
            n == texts@.len(),
            tv == texts.deep_view(),
            bs as int == spec_batch_size(n as int, concurrent_batches as int),
            bs >= 5,
            batches@.len() > 0 ==> batches@[batches@.len() - 1].start + batches@[batches@.len()
                - 1].count == start,
            start == 0 ==> batches@.len() == 0,
            start > 0 ==> batches@.len() > 0 && batches@[0].start == 0,
            forall|k: int|
                1 <= k < batches@.len() ==> (#[trigger] batches@[k].start) == batches@[k
                    - 1].start + bs,
            forall|k: int| 0 <= k < batches@.len() - 1 ==> (#[trigger] batches@[k].count) == bs,
            forall|k: int|
                0 <= k < batches@.len() ==> 0 < (#[trigger] batches@[k].count) == bs,
            forall|k: int|
                0 <= k < batches@.len() ==> (#[trigger] batches@[k].payload)@
                    == spec_batch_payload(
                    tv,
                    batches@[k].start as int,
                    batches@[k].start + batches@[k].count,
                ),
        decreases n - start,
    {
        let end: usize = if n - start > bs {
            start + bs
        } else {
            n
        };
        let payload = build_payload(texts, start, end);
        batches.push(Batch { start, count: end - start, payload });
        if end < n {
            start = end;
        } else {
            proof {
                assert(batches@[batches@.len() - 1].start + batches@[batches@.len() - 1].count
                    == n);
            }
            return batches;
        }
    }
    batches
}

} // verus!
