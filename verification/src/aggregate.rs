//! Aggregation of per-file results into one global tally.
//!
//! Each file's analysis yields an immutable usage mapping; a separate fold
//! merges them by pointwise addition. Addition of mappings is commutative
//! and associative, so the order in which files are folded cannot change
//! the global result; that guarantee is proved here.

use vstd::prelude::*;

use crate::analyzer::analyze_module;
use crate::analyzer::count_occ;
use crate::analyzer::file_usage;
use crate::ast::ModuleAst;
use crate::usage::UsageMap;
use crate::usage::count_in;
use crate::usage::map_plus;

verus! {

/// A parse failure reported by the source provider. The file it came
/// from contributes nothing to the global tally.
pub struct ParseError {
    pub message: String,
}

/// The views of a sequence of usage maps.
pub open spec fn views_of(s: Seq<UsageMap>) -> Seq<Map<Seq<char>, nat>> {
    s.map_values(|u: UsageMap| u@)
}

/// The pointwise sum of a sequence of usage mappings.
pub open spec fn sum_of_maps(s: Seq<Map<Seq<char>, nat>>) -> Map<Seq<char>, nat>
    decreases s,
{
    if s.len() == 0 {
        Map::empty()
    } else {
        map_plus(sum_of_maps(s.drop_last()), s.last())
    }
}

/// Merging is commutative.
pub proof fn lemma_map_plus_comm(a: Map<Seq<char>, nat>, b: Map<Seq<char>, nat>)
    ensures
        map_plus(a, b) == map_plus(b, a),
{
    assert(map_plus(a, b) =~= map_plus(b, a));
}

/// Merging is associative.
pub proof fn lemma_map_plus_assoc(
    a: Map<Seq<char>, nat>,
    b: Map<Seq<char>, nat>,
    c: Map<Seq<char>, nat>,
)
    ensures
        map_plus(map_plus(a, b), c) == map_plus(a, map_plus(b, c)),
{
    assert(map_plus(map_plus(a, b), c) =~= map_plus(a, map_plus(b, c)));
}

/// The empty mapping is the unit of merging.
pub proof fn lemma_map_plus_empty(a: Map<Seq<char>, nat>)
    ensures
        map_plus(Map::<Seq<char>, nat>::empty(), a) == a,
        map_plus(a, Map::<Seq<char>, nat>::empty()) == a,
{
    assert(map_plus(Map::<Seq<char>, nat>::empty(), a) =~= a);
    assert(map_plus(a, Map::<Seq<char>, nat>::empty()) =~= a);
}

/// Summing a sequence equals summing it with one element taken out,
/// merged with that element.
pub proof fn lemma_sum_remove(s: Seq<Map<Seq<char>, nat>>, i: int)
    requires
        0 <= i < s.len(),
    ensures
        sum_of_maps(s) == map_plus(sum_of_maps(s.remove(i)), s[i]),
    decreases s.len(),
{
    if i == s.len() - 1 {
        assert(s.remove(i) =~= s.drop_last());
    } else {
        let dl = s.drop_last();
        lemma_sum_remove(dl, i);
        assert(s.remove(i).drop_last() =~= dl.remove(i));
        assert(s.remove(i).last() == s.last());
        assert(sum_of_maps(s.remove(i)) == map_plus(sum_of_maps(dl.remove(i)), s.last()));
        lemma_map_plus_assoc(sum_of_maps(dl.remove(i)), s[i], s.last());
        lemma_map_plus_assoc(sum_of_maps(dl.remove(i)), s.last(), s[i]);
        lemma_map_plus_comm(s[i], s.last());
    }
}

/// Aggregating in any order gives the same global mapping: two sequences
/// holding the same mappings, however arranged, have the same sum.
pub proof fn lemma_sum_permutation(s1: Seq<Map<Seq<char>, nat>>, s2: Seq<Map<Seq<char>, nat>>)
    requires
        s1.to_multiset() == s2.to_multiset(),
    ensures
        sum_of_maps(s1) == sum_of_maps(s2),
    decreases s1.len(),
{
    broadcast use vstd::seq_lib::group_to_multiset_ensures;

    if s1.len() == 0 {
        assert(s2.to_multiset().len() == 0);
        assert(s2.len() == 0);
    } else {
        let last = s1.len() - 1;
        let x = s1[last];
        assert(s1.to_multiset().count(x) > 0) by {
            assert(s1.contains(x));
        }
        assert(s2.contains(x)) by {
            assert(s2.to_multiset().count(x) > 0);
        }
        let j = choose|j: int| 0 <= j < s2.len() && s2[j] == x;
        assert(s1.remove(last).to_multiset() == s1.to_multiset().remove(x));
        assert(s2.remove(j).to_multiset() == s2.to_multiset().remove(x));
        assert(s1.drop_last() =~= s1.remove(last));
        lemma_sum_permutation(s1.drop_last(), s2.remove(j));
        lemma_sum_remove(s2, j);
    }
}

/// Sums split over concatenation.
pub proof fn lemma_sum_append(a: Seq<Map<Seq<char>, nat>>, b: Seq<Map<Seq<char>, nat>>)
    ensures
        sum_of_maps(a + b) == map_plus(sum_of_maps(a), sum_of_maps(b)),
    decreases b,
{
    if b.len() == 0 {
        assert(a + b =~= a);
        lemma_map_plus_empty(sum_of_maps(a));
    } else {
        lemma_sum_append(a, b.drop_last());
        assert((a + b).drop_last() =~= a + b.drop_last());
        assert((a + b).last() == b.last());
        lemma_map_plus_assoc(sum_of_maps(a), sum_of_maps(b.drop_last()), b.last());
    }
}

/// The identifier occurrences a parse outcome holds: the module's on
/// success, none on failure.
pub open spec fn outcome_idents(o: Result<ModuleAst, ParseError>) -> Seq<Seq<char>> {
    match o {
        Ok(m) => m.idents(),
        Err(_) => Seq::empty(),
    }
}

/// The usage mapping a parse outcome contributes: the module's on
/// success, empty on failure.
pub open spec fn outcome_usage(o: Result<ModuleAst, ParseError>) -> Map<Seq<char>, nat> {
    match o {
        Ok(m) => file_usage(m),
        Err(_) => Map::empty(),
    }
}

/// The usage mappings contributed by a sequence of parse outcomes.
pub open spec fn outcome_usages(s: Seq<Result<ModuleAst, ParseError>>) -> Seq<
    Map<Seq<char>, nat>,
> {
    s.map_values(|o: Result<ModuleAst, ParseError>| outcome_usage(o))
}

/// Analyze every parse outcome and merge the results into one global
/// mapping. A file whose parse failed contributes nothing, and does not
/// stop the files after it from being counted. `None` exactly when some
/// name's total count would not fit in the machine's count range.
pub fn analyze_outcomes(outcomes: &Vec<Result<ModuleAst, ParseError>>) -> (r: Option<UsageMap>)
    requires
        forall|i: int, k: Seq<char>|
            0 <= i < outcomes@.len() ==> count_occ(outcome_idents(outcomes@[i]), k) <= usize::MAX,
    ensures
        match r {
            Some(g) => g.wf() && g@ == sum_of_maps(outcome_usages(outcomes@)),
            None => exists|k: Seq<char>|
                count_in(sum_of_maps(outcome_usages(outcomes@)), k) > usize::MAX,
        },
{
    let ghost all = outcome_usages(outcomes@);
    let mut g = UsageMap::new();
    proof {
        assert(all.take(0) =~= Seq::<Map<Seq<char>, nat>>::empty());
    }
    let mut i: usize = 0;
    while i < outcomes.len()
        invariant
            i <= outcomes@.len(),
            all == outcome_usages(outcomes@),
            forall|j: int, k: Seq<char>|
                0 <= j < outcomes@.len() ==> count_occ(outcome_idents(outcomes@[j]), k)
                    <= usize::MAX,
            g.wf(),
            g@ == sum_of_maps(all.take(i as int)),
        decreases outcomes@.len() - i,
    {
        proof {
            assert(all.take(i as int + 1).drop_last() =~= all.take(i as int));
            assert(all.take(i as int + 1).last() == outcome_usage(outcomes@[i as int]));
        }
        match &outcomes[i] {
            Ok(m) => {
                proof {
                    assert forall|k: Seq<char>| count_occ(m.idents(), k) <= usize::MAX by {
                        assert(count_occ(outcome_idents(outcomes@[i as int]), k) <= usize::MAX);
                    }
                }
                let u = analyze_module(m);
                if g.merge_fits(&u) {
                    g.merge_from(&u);
                } else {
                    proof {
                        let k = choose|k: Seq<char>|
                            !(g@.contains_key(k) && u@.contains_key(k) ==> g@[k] + u@[k]
                                <= usize::MAX);
                        assert(all =~= all.take(i as int + 1) + all.skip(i as int + 1));
                        lemma_sum_append(all.take(i as int + 1), all.skip(i as int + 1));
                        assert(count_in(sum_of_maps(all), k) > usize::MAX);
                    }
                    return None;
                }
            },
            Err(_) => {
                proof {
                    lemma_map_plus_empty(sum_of_maps(all.take(i as int)));
                }
            },
        }
        i += 1;
    }
    proof {
        assert(all.take(outcomes@.len() as int) =~= all);
    }
    Some(g)
}

/// Merge a batch of per-file usage mappings into one global mapping, by
/// pointwise addition. `None` exactly when some name's total count would
/// not fit in the machine's count range.
pub fn aggregate(results: &Vec<UsageMap>) -> (r: Option<UsageMap>)
    requires
        forall|i: int| 0 <= i < results@.len() ==> results@[i].wf(),
    ensures
        match r {
            Some(g) => g.wf() && g@ == sum_of_maps(views_of(results@)),
            None => exists|k: Seq<char>|
                count_in(sum_of_maps(views_of(results@)), k) > usize::MAX,
        },
{
    let ghost all = views_of(results@);
    let mut g = UsageMap::new();
    proof {
        assert(all.take(0) =~= Seq::<Map<Seq<char>, nat>>::empty());
    }
    let mut i: usize = 0;
    while i < results.len()
        invariant
            i <= results@.len(),
            all == views_of(results@),
            forall|j: int| 0 <= j < results@.len() ==> results@[j].wf(),
            g.wf(),
            g@ == sum_of_maps(all.take(i as int)),
        decreases results@.len() - i,
    {
        let u = &results[i];
        proof {
            assert(all.take(i as int + 1).drop_last() =~= all.take(i as int));
            assert(all.take(i as int + 1).last() == u@);
        }
        if g.merge_fits(u) {
            g.merge_from(u);
        } else {
            proof {
                let k = choose|k: Seq<char>|
                    !(g@.contains_key(k) && u@.contains_key(k) ==> g@[k] + u@[k] <= usize::MAX);
                assert(all =~= all.take(i as int + 1) + all.skip(i as int + 1));
                lemma_sum_append(all.take(i as int + 1), all.skip(i as int + 1));
                assert(count_in(sum_of_maps(all), k) > usize::MAX);
            }
            return None;
        }
        i += 1;
    }
    proof {
        assert(all.take(results@.len() as int) =~= all);
    }
    Some(g)
}

} // verus!
