use crate::retrieval::bm25::SearchResult;
use crate::text;
use vstd::prelude::*;

verus! {

/// Some result has the id.
pub open spec fn id_seen(s: Seq<SearchResult>, id: Seq<char>) -> bool {
    exists|j: int| 0 <= j < s.len() && (#[trigger] s[j]).id@ == id
}

/// The results without those whose id an earlier one has.
pub open spec fn deduped(s: Seq<SearchResult>) -> Seq<SearchResult>
    decreases s.len(),
{
    if s.len() == 0 {
        Seq::empty()
    } else {
        let before = s.drop_last();
        if id_seen(before, s.last().id@) {
            deduped(before)
        } else {
            deduped(before).push(s.last())
        }
    }
}

/// No two results share an id.
pub open spec fn distinct_ids(s: Seq<SearchResult>) -> bool {
    forall|i: int, j: int|
        0 <= i < j < s.len() ==> (#[trigger] s[i]).id@ != (#[trigger] s[j]).id@
}

/// What is left names exactly the ids that were there, each once.
pub proof fn deduped_keeps_ids(s: Seq<SearchResult>)
    ensures
        distinct_ids(deduped(s)),
        forall|id: Seq<char>| id_seen(deduped(s), id) <==> id_seen(s, id),
    decreases s.len(),
{
    if s.len() > 0 {
        let before = s.drop_last();
        let kept = deduped(before);
        let last = s.last();
        deduped_keeps_ids(before);
        assert forall|id: Seq<char>| id_seen(deduped(s), id) <==> id_seen(s, id) by {
            if id_seen(s, id) {
                let j = choose|j: int| 0 <= j < s.len() && (#[trigger] s[j]).id@ == id;
                if j < s.len() - 1 {
                    assert(before[j].id@ == id);
                    assert(id_seen(before, id));
                    assert(id_seen(kept, id));
                    let k = choose|k: int| 0 <= k < kept.len() && (#[trigger] kept[k]).id@ == id;
                    assert(deduped(s)[k].id@ == id);
                } else if id_seen(before, last.id@) {
                    assert(id_seen(kept, id));
                } else {
                    assert(deduped(s)[kept.len() as int].id@ == id);
                }
            }
            if id_seen(deduped(s), id) {
                let k = choose|k: int|
                    0 <= k < deduped(s).len() && (#[trigger] deduped(s)[k]).id@ == id;
                if k < kept.len() {
                    assert(kept[k].id@ == id);
                    assert(id_seen(before, id));
                    let j = choose|j: int| 0 <= j < before.len() && (#[trigger] before[j]).id@ == id;
                    assert(s[j].id@ == id);
                } else {
                    assert(s[s.len() - 1].id@ == id);
                }
            }
        }
        if !id_seen(before, last.id@) {
            assert(!id_seen(kept, last.id@));
        }
    }
}

/// Removing duplicates a second time changes nothing.
pub proof fn dedup_is_idempotent(s: Seq<SearchResult>)
    ensures
        deduped(deduped(s)) == deduped(s),
{
    deduped_keeps_ids(s);
    distinct_stays(deduped(s));
}

proof fn distinct_stays(s: Seq<SearchResult>)
    requires
        distinct_ids(s),
    ensures
        deduped(s) == s,
    decreases s.len(),
{
    if s.len() > 0 {
        let before = s.drop_last();
        assert forall|i: int, j: int| 0 <= i < j < before.len() implies (
        #[trigger] before[i]).id@ != (#[trigger] before[j]).id@ by {
            assert(s[i].id@ != s[j].id@);
        }
        distinct_stays(before);
        if id_seen(before, s.last().id@) {
            let j = choose|j: int| 0 <= j < before.len() && (#[trigger] before[j]).id@
                == s.last().id@;
            assert(s[j].id@ != s[s.len() - 1].id@);
        }
        assert(before.push(s.last()) =~= s);
    } else {
        assert(deduped(s) =~= s);
    }
}

/// Cleans up and bounds the list of results.
pub struct Reranker;

impl Default for Reranker {
    fn default() -> Self {
        Self::new()
    }
}

impl Reranker {
    pub fn new() -> Self {
        Reranker
    }

    /// Deduplicate results by id: the first one of each id stays.
    pub fn deduplicate(&self, results: &mut Vec<SearchResult>)
        ensures
            final(results)@ == deduped(old(results)@),
    {
        let ghost all = results@;
        let ghost mut k: int = 0;
        let mut i: usize = 0;
        assert(all.take(0) =~= Seq::empty());
        assert(results@ =~= deduped(all.take(0)) + all.skip(0));
        while i < results.len()
            invariant
                0 <= k <= all.len(),
                i == deduped(all.take(k)).len(),
                results@ == deduped(all.take(k)) + all.skip(k),
            decreases results@.len() - i,
        {
            let ghost head = deduped(all.take(k));
            assert(results@[i as int] == all[k]);
            let seen = seen_before(results, i);
            proof {
                assert(results@.take(i as int) =~= head);
                deduped_keeps_ids(all.take(k));
                assert(seen == id_seen(all.take(k), all[k].id@));
                assert(all.take(k + 1).drop_last() =~= all.take(k));
            }
            if seen {
                results.remove(i);
            } else {
                i = i + 1;
            }
            proof {
                k = k + 1;
                assert(results@ =~= deduped(all.take(k)) + all.skip(k));
            }
        }
        proof {
            assert(all.skip(k).len() == 0);
            assert(all.take(k) =~= all);
            assert(results@ =~= deduped(all));
        }
    }

    /// Apply fallback resource limits: no more than the smaller of the two stay.
    pub fn apply_fallback_limits(
        &self,
        results: &mut Vec<SearchResult>,
        max_input: usize,
        max_output: usize,
    )
        ensures
            final(results)@ == old(results)@.take(
                vstd::math::min(
                    old(results)@.len() as int,
                    vstd::math::min(max_input as int, max_output as int),
                ),
            ),
    {
        let most: usize = if max_output < max_input {
            max_output
        } else {
            max_input
        };
        let ghost before = results@;
        results.truncate(most);
        assert(results@ =~= before.take(
            vstd::math::min(
                before.len() as int,
                vstd::math::min(max_input as int, max_output as int),
            ),
        ));
    }
}

/// Whether one of the first `n` results has the id of the one at `n`.
fn seen_before(results: &Vec<SearchResult>, n: usize) -> (r: bool)
    requires
        n < results@.len(),
    ensures
        r == id_seen(results@.take(n as int), results@[n as int].id@),
{
    let mut j: usize = 0;
    while j < n
        invariant
            j <= n < results@.len(),
            forall|k: int| 0 <= k < j ==> (#[trigger] results@[k]).id@ != results@[n as int].id@,
        decreases n - j,
    {
        if text::same(results[j].id.as_str(), results[n].id.as_str()) {
            assert(results@.take(n as int)[j as int].id@ == results@[n as int].id@);
            return true;
        }
        j = j + 1;
    }
    assert forall|k: int| 0 <= k < n implies (#[trigger] results@.take(n as int)[k]).id@
        != results@[n as int].id@ by {
        assert(results@[k].id@ != results@[n as int].id@);
    }
    false
}

/// Of the results with one id the first stays, and what stays keeps its order: what is
/// left stands at ascending places, and these are the places where an id occurs for the
/// first time.
pub proof fn dedup_keeps_the_first(s: Seq<SearchResult>) -> (at: Seq<int>)
    ensures
        at.len() == deduped(s).len(),
        forall|i: int|
            0 <= i < at.len() ==> 0 <= #[trigger] at[i] < s.len() && deduped(s)[i] == s[at[i]],
        forall|i: int, j: int| 0 <= i < j < at.len() ==> #[trigger] at[i] < #[trigger] at[j],
        forall|k: int|
            0 <= k < s.len() ==> (#[trigger] at.contains(k) <==> forall|j: int|
                0 <= j < k ==> (#[trigger] s[j]).id@ != s[k].id@),
    decreases s.len(),
{
    if s.len() == 0 {
        Seq::empty()
    } else {
        let before = s.drop_last();
        let n = s.len() - 1;
        let old_at = dedup_keeps_the_first(before);
        let seen = id_seen(before, s.last().id@);
        let at = if seen {
            old_at
        } else {
            old_at.push(n)
        };
        assert forall|k: int| 0 <= k < s.len() implies (#[trigger] at.contains(k) <==> forall|
            j: int,
        |
            0 <= j < k ==> (#[trigger] s[j]).id@ != s[k].id@) by {
            if k < n {
                assert(old_at.contains(k) <==> forall|j: int|
                    0 <= j < k ==> (#[trigger] before[j]).id@ != before[k].id@);
                assert((forall|j: int| 0 <= j < k ==> (#[trigger] before[j]).id@ != before[k].id@)
                    <==> (forall|j: int| 0 <= j < k ==> (#[trigger] s[j]).id@ != s[k].id@)) by {
                    if forall|j: int| 0 <= j < k ==> (#[trigger] before[j]).id@ != before[k].id@ {
                        assert forall|j: int| 0 <= j < k implies (#[trigger] s[j]).id@
                            != s[k].id@ by {
                            assert(before[j].id@ != before[k].id@);
                        }
                    }
                    if forall|j: int| 0 <= j < k ==> (#[trigger] s[j]).id@ != s[k].id@ {
                        assert forall|j: int| 0 <= j < k implies (#[trigger] before[j]).id@
                            != before[k].id@ by {
                            assert(s[j].id@ != s[k].id@);
                        }
                    }
                }
                if old_at.contains(k) {
                    let m = choose|m: int| 0 <= m < old_at.len() && old_at[m] == k;
                    assert(at[m] == k);
                }
                if at.contains(k) {
                    let m = choose|m: int| 0 <= m < at.len() && at[m] == k;
                    assert(old_at[m] == k);
                }
            } else {
                if seen {
                    let j = choose|j: int| 0 <= j < before.len() && (#[trigger] before[j]).id@
                        == s.last().id@;
                    assert(s[j].id@ == s[n].id@);
                    if at.contains(n) {
                        let m = choose|m: int| 0 <= m < at.len() && at[m] == n;
                        assert(old_at[m] < before.len());
                    }
                } else {
                    assert(at[old_at.len() as int] == n);
                    assert forall|j: int| 0 <= j < n implies (#[trigger] s[j]).id@ != s[n].id@ by {
                        assert(before[j] == s[j]);
                    }
                }
            }
        }
        at
    }
}

} // verus!
