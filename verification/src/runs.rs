//! Coalescing dirty element numbers into contiguous runs.
use std::collections::BTreeSet;
use vstd::prelude::*;
use vstd::std_specs::iter::IteratorSpec;

verus! {

/// A run `(start, count)` covers the element numbers `start .. start + count`.
pub open spec fn run_covers(run: (u32, u32), x: int) -> bool {
    run.0 <= x < run.0 + run.1
}

/// Runs are non-empty, ascending, and separated by at least one element that no run covers.
pub open spec fn runs_well_formed(runs: Seq<(u32, u32)>) -> bool {
    &&& forall|k: int| 0 <= k < runs.len() ==> #[trigger] runs[k].1 >= 1
    &&& forall|k: int| 0 <= k < runs.len() - 1 ==> #[trigger] runs[k].0 + runs[k].1 < runs[k + 1].0
}

/// The element numbers that some run covers.
pub open spec fn runs_cover(runs: Seq<(u32, u32)>, x: int) -> bool {
    exists|k: int| 0 <= k < runs.len() && run_covers(#[trigger] runs[k], x)
}

/// Some of the first `n` keys equals `x`.
pub open spec fn seen(keys: Seq<&u32>, n: int, x: int) -> bool {
    exists|j: int| 0 <= j < n && *keys[j] == x
}

/// Walking a set of element numbers yields each of them once, in ascending order.
proof fn lemma_set_iter_ascending(set: &BTreeSet<u32>)
    ensures
        forall|a: int, b: int|
            0 <= a < b < set.iter().remaining().len() ==> *set.iter().remaining()[a]
                < *set.iter().remaining()[b],
        set.iter().remaining().unref().to_set() == set@,
{
    broadcast use vstd::std_specs::btree::group_btree_axioms;
    broadcast use vstd::laws_cmp::group_laws_cmp;

    let keys = set.iter().remaining();
    assert(vstd::laws_cmp::obeys_cmp::<&u32>());
    assert(vstd::std_specs::btree::increasing_seq(keys));
    assert forall|a: int, b: int| 0 <= a < b < keys.len() implies *keys[a] < *keys[b] by {
        assert(vstd::std_specs::cmp::OrdSpec::cmp_spec(&keys[a], &keys[b]) is Less);
        assert(vstd::std_specs::cmp::OrdSpec::cmp_spec(keys[a], keys[b]) is Less);
    }
}

/// The dirty element numbers, ascending, grouped into maximal runs of consecutive numbers
/// (one run per buffer upload). A set that holds every `u32` would need a run longer than
/// `u32::MAX`, so it is left out.
pub fn dirty_runs(dirty: &BTreeSet<u32>) -> (runs: Vec<(u32, u32)>)
    requires
        exists|x: u32| !dirty@.contains(x),
    ensures
        runs_well_formed(runs@),
        forall|x: u32| dirty@.contains(x) <==> runs_cover(runs@, x as int),
{
    broadcast use vstd::std_specs::btree::group_btree_axioms;

    let mut runs: Vec<(u32, u32)> = Vec::new();
    let ghost keys = dirty.iter().remaining();
    proof {
        lemma_set_iter_ascending(dirty);
    }
    for i in it: dirty.iter()
        invariant
            runs_well_formed(runs@),
            it.seq() == keys,
            forall|a: int, b: int| 0 <= a < b < keys.len() ==> *keys[a] < *keys[b],
            keys.unref().to_set() == dirty@,
            exists|x: u32| !dirty@.contains(x),
            forall|x: int| runs_cover(runs@, x) <==> #[trigger] seen(keys, it.index() as int, x),
            it.index() > 0 ==> runs@.len() > 0 && runs@.last().0 + runs@.last().1 == *keys[it.index()
                - 1] + 1,
            runs@.len() > 0 ==> runs@.last().1 <= it.index(),
    {
        let ghost k = it.index();
        let ghost old_runs = runs@;
        proof {
            if runs@.len() > 0 && runs@.last().0 + runs@.last().1 == *i && runs@.last().1 == u32::MAX {
                // the last run covers 0 .. u32::MAX and `i` is u32::MAX: every value is dirty
                assert forall|x: u32| dirty@.contains(x) by {
                    if x < *i {
                        assert(run_covers(runs@.last(), x as int));
                        assert(runs_cover(runs@, x as int));
                        assert(seen(keys, k as int, x as int));
                        let j = choose|j: int| 0 <= j < k && *keys[j] == x;
                        assert(keys.unref()[j] == x);
                        assert(keys.unref().contains(x));
                    } else {
                        assert(keys.unref()[k as int] == x);
                        assert(keys.unref().contains(x));
                    }
                }
                let y = choose|y: u32| !dirty@.contains(y);
                assert(false);
            }
        }
        let n = runs.len();
        if n > 0 && runs[n - 1].0 as u64 + runs[n - 1].1 as u64 == *i as u64 {
            let (s, c) = runs[n - 1];
            runs.set(n - 1, (s, c + 1));
            assert forall|x: int|
                runs_cover(runs@, x) <==> (runs_cover(old_runs, x) || x == *i) by {
                if runs_cover(runs@, x) {
                    let r = choose|r: int| 0 <= r < runs@.len() && run_covers(runs@[r], x);
                    if r < n - 1 || x < *i {
                        assert(run_covers(old_runs[r], x));
                    }
                }
                if runs_cover(old_runs, x) {
                    let r = choose|r: int| 0 <= r < old_runs.len() && run_covers(old_runs[r], x);
                    assert(run_covers(runs@[r], x));
                }
                if x == *i {
                    assert(run_covers(runs@[n - 1], x));
                }
            }
        } else {
            runs.push((*i, 1));
            assert forall|x: int|
                runs_cover(runs@, x) <==> (runs_cover(old_runs, x) || x == *i) by {
                if runs_cover(runs@, x) {
                    let r = choose|r: int| 0 <= r < runs@.len() && run_covers(runs@[r], x);
                    if r < n {
                        assert(run_covers(old_runs[r], x));
                    }
                }
                if runs_cover(old_runs, x) {
                    let r = choose|r: int| 0 <= r < old_runs.len() && run_covers(old_runs[r], x);
                    assert(run_covers(runs@[r], x));
                }
                if x == *i {
                    assert(run_covers(runs@[n as int], x));
                }
            }
        }
        assert forall|x: int|
            #[trigger] seen(keys, k + 1, x) <==> (seen(keys, k as int, x) || x == *i) by {
            if seen(keys, k + 1, x) {
                let j = choose|j: int| 0 <= j < k + 1 && *keys[j] == x;
                if j < k {
                    assert(0 <= j < k && *keys[j] == x);
                }
            }
            if x == *i {
                assert(0 <= k < k + 1 && *keys[k] == x);
            }
        }
    }
    proof {
        assert forall|x: u32| dirty@.contains(x) <==> runs_cover(runs@, x as int) by {
            if dirty@.contains(x) {
                assert(keys.unref().to_set().contains(x));
                assert(keys.unref().contains(x));
                let j = choose|j: int| 0 <= j < keys.unref().len() && keys.unref()[j] == x;
                assert(*keys[j] == x);
                assert(seen(keys, keys.len() as int, x as int));
            }
            if runs_cover(runs@, x as int) {
                assert(seen(keys, keys.len() as int, x as int));
                let j = choose|j: int| 0 <= j < keys.len() && *keys[j] == x;
                assert(keys.unref()[j] == x);
                assert(keys.unref().contains(x));
                assert(keys.unref().to_set().contains(x));
            }
        }
    }
    runs
}

} // verus!
