use vstd::prelude::*;
use vstd::arithmetic::div_mod::lemma_fundamental_div_mod;

verus! {

/// The number of chunks a candidate list of length `n` is split into for `w`
/// workers: one chunk per worker, but never more chunks than candidates.
pub open spec fn chunk_count(n: nat, w: nat) -> nat {
    if n <= w {
        n
    } else {
        w
    }
}

/// How many candidates the first `i` chunks hold together, when `n`
/// candidates are spread over `k` chunks: the first `n % k` chunks hold
/// `n / k + 1` each, the rest `n / k` each.
spec fn consumed(i: int, base: int, extra: int) -> int {
    i * base + if i <= extra {
        i
    } else {
        extra
    }
}

/// Splits `items` into `chunk_count` contiguous chunks: every chunk is
/// non-empty, there are never more than `w` of them, and their concatenation
/// is exactly the input, so no candidate is dropped or duplicated.
pub fn partition<T>(items: Vec<T>, w: usize) -> (chunks: Vec<Vec<T>>)
    requires
        w >= 1,
    ensures
        chunks@.len() == chunk_count(items@.len(), w as nat),
        chunks@.len() <= w,
        forall|k: int| 0 <= k < chunks@.len() ==> (#[trigger] chunks@[k])@.len() > 0,
        chunks@.map_values(|c: Vec<T>| c@).flatten() == items@,
{
    let ghost orig = items@;
    let n: usize = items.len();
    let mut chunks: Vec<Vec<T>> = Vec::new();
    if n == 0 {
        assert(chunks@.map_values(|c: Vec<T>| c@).flatten() =~= orig);
        return chunks;
    }
    let k: usize = if w < n {
        w
    } else {
        n
    };
    let base: usize = n / k;
    let extra: usize = n % k;
    proof {
        lemma_fundamental_div_mod(n as int, k as int);
        assert(n as int == k as int * base as int + extra as int);
        assert(base >= 1) by (nonlinear_arith)
            requires
                n as int == k as int * base as int + extra as int,
                0 <= extra as int && (extra as int) < k as int,
                1 <= k as int && k <= n,
        {}
    }
    let mut rest = items;
    let mut i: usize = 0;
    while i < k
        invariant
            1 <= k <= n,
            n == orig.len(),
            base == n as int / k as int,
            extra == n as int % k as int,
            n as int == k as int * base as int + extra as int,
            0 <= extra < k,
            base >= 1,
            i <= k,
            chunks@.len() == i,
            0 <= consumed(i as int, base as int, extra as int) <= n,
            rest@ == orig.skip(consumed(i as int, base as int, extra as int)),
            forall|j: int| 0 <= j < chunks@.len() ==> (#[trigger] chunks@[j])@.len() > 0,
            chunks@.map_values(|c: Vec<T>| c@).flatten() == orig.take(
                consumed(i as int, base as int, extra as int),
            ),
        decreases k - i,
    {
        let ghost pos = consumed(i as int, base as int, extra as int);
        let size: usize = if i < extra {
            proof {
                assert((base as int) < n as int) by (nonlinear_arith)
                    requires
                        n as int == k as int * base as int + extra as int,
                        1 <= extra as int && (extra as int) < k as int,
                        base as int >= 0,
                {}
            }
            base + 1
        } else {
            base
        };
        proof {
            assert(consumed(i + 1, base as int, extra as int) == pos + size) by (nonlinear_arith)
                requires
                    pos == consumed(i as int, base as int, extra as int),
                    size as int == if (i as int) < extra as int {
                        base as int + 1
                    } else {
                        base as int
                    },
                    0 <= i as int,
                    0 <= extra as int,
                    consumed(i as int, base as int, extra as int) == i as int * base as int + if i
                        as int <= extra as int {
                        i as int
                    } else {
                        extra as int
                    },
                    consumed(i + 1, base as int, extra as int) == (i + 1) * base as int + if i + 1
                        <= extra as int {
                        i + 1
                    } else {
                        extra as int
                    },
            {}
            assert(consumed(i + 1, base as int, extra as int) <= n) by (nonlinear_arith)
                requires
                    n as int == k as int * base as int + extra as int,
                    0 <= extra as int && (extra as int) < k as int,
                    base as int >= 1,
                    0 <= i as int && (i as int) < k as int,
                    consumed(i + 1, base as int, extra as int) == (i + 1) * base as int + if i + 1
                        <= extra as int {
                        i + 1
                    } else {
                        extra as int
                    },
            {}
            assert(size <= rest@.len());
        }
        let tail = rest.split_off(size);
        proof {
            assert(rest@ =~= orig.subrange(pos, pos + size));
            assert(tail@ =~= orig.skip(pos + size));
            assert(chunks@.push(rest).map_values(|c: Vec<T>| c@) =~= chunks@.map_values(
                |c: Vec<T>| c@,
            ).push(rest@));
            chunks@.map_values(|c: Vec<T>| c@).lemma_flatten_push(rest@);
            assert(orig.take(pos) + orig.subrange(pos, pos + size) =~= orig.take(pos + size));
        }
        chunks.push(rest);
        rest = tail;
        i = i + 1;
    }
    proof {
        assert(consumed(k as int, base as int, extra as int) == n) by (nonlinear_arith)
            requires
                n as int == k as int * base as int + extra as int,
                0 <= extra as int && (extra as int) < k as int,
                consumed(k as int, base as int, extra as int) == k as int * base as int + if k as int
                    <= extra as int {
                    k as int
                } else {
                    extra as int
                },
        {}
        assert(orig.take(n as int) =~= orig);
    }
    chunks
}

} // verus!
