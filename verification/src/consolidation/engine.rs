use crate::models::kind;
use crate::models::MemoryKind;
use crate::text;
use vstd::prelude::*;

verus! {

/// From how many hundredths of shared words on two memories are near-duplicates, where
/// nothing else is asked for.
pub const NEAR_PERCENT: u32 = 85;

/// One group of duplicate memories: the keeper stays active, the others are to be
/// archived.
#[derive(Clone, Debug)]
pub struct ConsolidationGroup {
    pub keeper_id: String,
    pub duplicate_ids: Vec<String>,
    pub reason: String,
}

/// Consolidation result for a single memory kind.
#[derive(Clone, Debug)]
pub struct ConsolidationPlan {
    pub memory_type: String,
    pub groups: Vec<ConsolidationGroup>,
    pub archived: usize,
}

/// A group as a mathematical value.
pub struct GroupView {
    pub keeper_id: Seq<char>,
    pub duplicate_ids: Seq<Seq<char>>,
    pub reason: Seq<char>,
}

impl View for ConsolidationGroup {
    type V = GroupView;

    open spec fn view(&self) -> GroupView {
        GroupView {
            keeper_id: self.keeper_id@,
            duplicate_ids: text::texts(self.duplicate_ids@),
            reason: self.reason@,
        }
    }
}

pub open spec fn group_views(v: Seq<ConsolidationGroup>) -> Seq<GroupView> {
    Seq::new(v.len(), |i: int| v[i]@)
}

// ---------------------------------------------------------------------------
// Hashing
// ---------------------------------------------------------------------------

/// The FNV-1a hash of bytes.
pub open spec fn fnv(bytes: Seq<u8>) -> u64
    decreases bytes.len(),
{
    if bytes.len() == 0 {
        0xcbf29ce484222325u64
    } else {
        (fnv(bytes.drop_last()) ^ (bytes.last() as u64)).wrapping_mul(0x100000001b3u64)
    }
}

/// The hash of a text.
pub open spec fn text_hash(s: Seq<char>) -> u64 {
    fnv(vstd::utf8::encode_utf8(s))
}

fn hash_bytes(hash: u64, bytes: &[u8], Ghost(done): Ghost<Seq<u8>>) -> (r: u64)
    requires
        hash == fnv(done),
    ensures
        r == fnv(done + bytes@),
{
    let mut h: u64 = hash;
    let mut i: usize = 0;
    assert(done + bytes@.take(0) =~= done);
    while i < bytes.len()
        invariant
            i <= bytes@.len(),
            h == fnv(done + bytes@.take(i as int)),
        decreases bytes@.len() - i,
    {
        assert((done + bytes@.take(i + 1)).drop_last() =~= done + bytes@.take(i as int));
        assert((done + bytes@.take(i + 1)).last() == bytes@[i as int]);
        h = (h ^ (bytes[i] as u64)).wrapping_mul(0x100000001b3);
        i = i + 1;
    }
    assert(bytes@.take(i as int) =~= bytes@);
    h
}

fn hash_text(s: &str) -> (r: u64)
    ensures
        r == text_hash(s@),
{
    let r = hash_bytes(0xcbf29ce484222325, s.as_bytes(), Ghost(Seq::empty()));
    let ghost bytes = vstd::utf8::encode_utf8(s@);
    assert(Seq::<u8>::empty() + bytes =~= bytes);
    r
}

// ---------------------------------------------------------------------------
// Similarity
// ---------------------------------------------------------------------------

/// The words of a text, as a set.
pub open spec fn word_set(s: Seq<char>) -> Set<Seq<char>> {
    text::words(s).to_set()
}

/// The two texts share at least `percent` hundredths of their words, or have none.
pub open spec fn near(a: Seq<char>, b: Seq<char>, percent: int) -> bool {
    let common = word_set(a).intersect(word_set(b)).len();
    let all = word_set(a).union(word_set(b)).len();
    all == 0 || common * 100 >= percent * all
}

/// Every text is near itself, whatever is asked for up to all of its words.
pub proof fn near_is_reflexive(a: Seq<char>, percent: int)
    requires
        percent <= 100,
    ensures
        near(a, a, percent),
{
    let s = word_set(a);
    assert(s.intersect(s) =~= s);
    assert(s.union(s) =~= s);
    assert(s.len() * 100 >= percent * s.len()) by (nonlinear_arith)
        requires
            percent <= 100,
            s.len() >= 0,
    ;
}

/// The order of the two texts does not matter.
pub proof fn near_is_symmetric(a: Seq<char>, b: Seq<char>, percent: int)
    ensures
        near(a, b, percent) == near(b, a, percent),
{
    assert(word_set(a).intersect(word_set(b)) =~= word_set(b).intersect(word_set(a)));
    assert(word_set(a).union(word_set(b)) =~= word_set(b).union(word_set(a)));
}

proof fn union_and_intersection(a: Set<Seq<char>>, b: Set<Seq<char>>)
    requires
        a.finite(),
        b.finite(),
    ensures
        a.union(b).len() + a.intersect(b).len() == a.len() + b.len(),
    decreases a.len(),
{
    if a.len() == 0 {
        assert(a =~= Set::empty());
        assert(a.union(b) =~= b);
        assert(a.intersect(b) =~= Set::empty());
    } else {
        let x = a.choose();
        let rest = a.remove(x);
        union_and_intersection(rest, b);
        if b.contains(x) {
            assert(a.union(b) =~= rest.union(b));
            assert(a.intersect(b) =~= rest.intersect(b).insert(x));
            assert(!rest.intersect(b).contains(x));
        } else {
            assert(a.union(b) =~= rest.union(b).insert(x));
            assert(!rest.union(b).contains(x));
            assert(a.intersect(b) =~= rest.intersect(b));
        }
    }
}

proof fn distinct_words_count(s: Seq<char>)
    ensures
        text::first_seen(text::words(s)).to_set() == word_set(s),
        text::first_seen(text::words(s)).len() == word_set(s).len(),
        word_set(s).finite(),
{
    let all = text::words(s);
    let once = text::first_seen(all);
    text::first_seen_is_distinct(all);
    assert(once.to_set() =~= all.to_set()) by {
        assert forall|p: Seq<char>| once.to_set().contains(p) <==> all.to_set().contains(p) by {
            assert(once.contains(p) <==> all.contains(p));
        }
    }
    once.unique_seq_to_set();
    vstd::seq_lib::seq_to_set_is_finite(all);
}

// ---------------------------------------------------------------------------
// Groups
// ---------------------------------------------------------------------------

/// A group by the positions of its records.
pub struct IndexGroup {
    pub keeper: int,
    pub duplicates: Seq<int>,
    pub near: bool,
}

pub open spec fn same_hash(ts: Seq<Seq<char>>, i: int, j: int) -> bool {
    text_hash(ts[i]) == text_hash(ts[j])
}

/// No earlier record has the hash of record `i`.
pub open spec fn leads(ts: Seq<Seq<char>>, i: int) -> bool {
    forall|j: int| 0 <= j < i ==> !#[trigger] same_hash(ts, j, i)
}

/// The records after `i` and before `k` with the hash of record `i`.
pub open spec fn later_same(ts: Seq<Seq<char>>, i: int, k: int) -> Seq<int>
    decreases k,
{
    if k <= i + 1 || k <= 0 {
        Seq::empty()
    } else {
        let before = later_same(ts, i, k - 1);
        if same_hash(ts, i, k - 1) {
            before.push(k - 1)
        } else {
            before
        }
    }
}

/// The groups of equal hash whose earliest record stands before `k`.
pub open spec fn exact_groups(ts: Seq<Seq<char>>, k: int) -> Seq<IndexGroup>
    decreases k,
{
    if k <= 0 {
        Seq::empty()
    } else {
        let before = exact_groups(ts, k - 1);
        let duplicates = later_same(ts, k - 1, ts.len() as int);
        if leads(ts, k - 1) && duplicates.len() > 0 {
            before.push(IndexGroup { keeper: k - 1, duplicates, near: false })
        } else {
            before
        }
    }
}

/// Another record has the hash of record `i`.
pub open spec fn has_twin(ts: Seq<Seq<char>>, i: int) -> bool {
    exists|j: int| 0 <= j < ts.len() && j != i && #[trigger] same_hash(ts, i, j)
}

pub open spec fn twins(ts: Seq<Seq<char>>) -> Set<int> {
    Set::new(|i: int| 0 <= i < ts.len() && has_twin(ts, i))
}

/// The records after `a` and before `k` that are near record `a` and not taken.
pub open spec fn near_free(
    ts: Seq<Seq<char>>,
    taken: Set<int>,
    a: int,
    k: int,
    percent: int,
) -> Seq<int>
    decreases k,
{
    if k <= a + 1 || k <= 0 {
        Seq::empty()
    } else {
        let before = near_free(ts, taken, a, k - 1, percent);
        if !taken.contains(k - 1) && near(ts[a], ts[k - 1], percent) {
            before.push(k - 1)
        } else {
            before
        }
    }
}

/// What is taken, and the groups found, once the records before `k` have been
/// looked at: each free record takes the free ones near it.
pub open spec fn near_groups(ts: Seq<Seq<char>>, start: Set<int>, percent: int, k: int) -> (
    Set<int>,
    Seq<IndexGroup>,
)
    decreases k,
{
    if k <= 0 {
        (start, Seq::empty())
    } else {
        let (taken, groups) = near_groups(ts, start, percent, k - 1);
        let duplicates = near_free(ts, taken, k - 1, ts.len() as int, percent);
        if taken.contains(k - 1) || duplicates.len() == 0 {
            (taken, groups)
        } else {
            (
                taken.insert(k - 1).union(duplicates.to_set()),
                groups.push(IndexGroup { keeper: k - 1, duplicates, near: true }),
            )
        }
    }
}

/// All groups: those of equal hash, then, if asked for, those of near records among
/// the rest.
pub open spec fn plan_groups(ts: Seq<Seq<char>>, include_near_dup: bool, percent: int) -> Seq<
    IndexGroup,
> {
    let n = ts.len() as int;
    if include_near_dup {
        exact_groups(ts, n) + near_groups(ts, twins(ts), percent, n).1
    } else {
        exact_groups(ts, n)
    }
}

/// A number of hundredths as a decimal fraction without trailing zeros.
pub open spec fn fraction(percent: nat) -> Seq<char> {
    let whole = text::decimal(percent / 100);
    let rest = percent % 100;
    if rest == 0 {
        whole
    } else if rest % 10 == 0 {
        whole + "."@ + text::decimal(rest / 10)
    } else {
        whole + "."@ + text::decimal(rest / 10) + text::decimal(rest % 10)
    }
}

pub open spec fn reason(near: bool, percent: nat) -> Seq<char> {
    if near {
        "near(jaccard>="@ + fraction(percent) + ")"@
    } else {
        "exact"@
    }
}

/// The texts of a list of records.
pub open spec fn record_texts(recs: Seq<(String, String)>) -> Seq<Seq<char>> {
    Seq::new(recs.len(), |i: int| recs[i].1@)
}

pub open spec fn ids_at(recs: Seq<(String, String)>, at: Seq<int>) -> Seq<Seq<char>> {
    Seq::new(at.len(), |i: int| recs[at[i]].0@)
}

/// A group with the ids of its records.
pub open spec fn named(recs: Seq<(String, String)>, g: IndexGroup, percent: nat) -> GroupView {
    GroupView {
        keeper_id: recs[g.keeper].0@,
        duplicate_ids: ids_at(recs, g.duplicates),
        reason: reason(g.near, percent),
    }
}

pub open spec fn all_named(
    recs: Seq<(String, String)>,
    groups: Seq<IndexGroup>,
    percent: nat,
) -> Seq<GroupView> {
    Seq::new(groups.len(), |i: int| named(recs, groups[i], percent))
}

pub open spec fn positions(v: Seq<usize>) -> Seq<int> {
    Seq::new(v.len(), |i: int| v[i] as int)
}

/// Plans which of a project's memories say the same thing.
pub struct ConsolidationEngine;

impl Default for ConsolidationEngine {
    fn default() -> Self {
        Self::new()
    }
}

impl ConsolidationEngine {
    pub fn new() -> Self {
        ConsolidationEngine
    }

    /// A content hash for deduplication, the same on every machine and in every
    /// version: FNV-1a over the two texts, as sixteen hexadecimal digits.
    pub fn content_hash(summary: &str, content: &str) -> (r: String)
        ensures
            r@ == text::hex(
                fnv(vstd::utf8::encode_utf8(summary@) + vstd::utf8::encode_utf8(content@)) as int,
                16,
            ),
    {
        let h: u64 = hash_text(summary);
        let h: u64 = hash_bytes(h, content.as_bytes(), Ghost(vstd::utf8::encode_utf8(summary@)));
        text::hex_of(h, 16)
    }

    /// Check if two texts are near-duplicates using Jaccard similarity: they share
    /// at least `threshold` hundredths of their words.
    pub fn jaccard_similarity(a: &str, b: &str, threshold: u32) -> (r: bool)
        ensures
            r == near(a@, b@, threshold as int),
    {
        let wa = text::distinct(&text::word_list(a));
        let wb = text::distinct(&text::word_list(b));
        let ghost sa = text::texts(wa@);
        let ghost sb = text::texts(wb@);
        let ghost mut both: Seq<Seq<char>> = Seq::empty();
        proof {
            distinct_words_count(a@);
            distinct_words_count(b@);
            text::first_seen_is_distinct(text::words(a@));
            text::first_seen_is_distinct(text::words(b@));
        }
        let mut common: usize = 0;
        let mut i: usize = 0;
        while i < wa.len()
            invariant
                i <= wa@.len(),
                sa == text::texts(wa@),
                sb == text::texts(wb@),
                sa.no_duplicates(),
                common == both.len(),
                common <= i,
                both.no_duplicates(),
                forall|p: Seq<char>|
                    both.contains(p) <==> sa.take(i as int).contains(p) && sb.contains(p),
            decreases wa@.len() - i,
        {
            let ghost before = both;
            let ghost word = sa[i as int];
            let shared = text::has_text(&wb, wa[i].as_str());
            proof {
                assert(sa.take(i + 1) =~= sa.take(i as int).push(word));
                assert(!sa.take(i as int).contains(word)) by {
                    if sa.take(i as int).contains(word) {
                        let j = choose|j: int|
                            0 <= j < i && sa.take(i as int)[j] == word;
                        assert(sa[j] == sa[i as int]);
                    }
                }
                if shared {
                    both = both.push(word);
                }
                assert forall|p: Seq<char>|
                    both.contains(p) <==> sa.take(i + 1).contains(p) && sb.contains(p) by {
                    text::push_contains(sa.take(i as int), word, p);
                    text::push_contains(before, word, p);
                }
            }
            if shared {
                common = common + 1;
            }
            i = i + 1;
        }
        proof {
            assert(sa.take(i as int) =~= sa);
            both.unique_seq_to_set();
            assert(both.to_set() =~= word_set(a@).intersect(word_set(b@))) by {
                assert forall|p: Seq<char>|
                    both.to_set().contains(p) <==> word_set(a@).intersect(
                        word_set(b@),
                    ).contains(p) by {
                    assert(both.contains(p) <==> sa.contains(p) && sb.contains(p));
                }
            }
            union_and_intersection(word_set(a@), word_set(b@));
        }
        let union: u128 = wa.len() as u128 + wb.len() as u128 - common as u128;
        assert(union == word_set(a@).union(word_set(b@)).len());
        assert(threshold * union <= 0xffff_ffff * (2 * usize::MAX)) by (nonlinear_arith)
            requires
                threshold <= 0xffff_ffff,
                union <= 2 * usize::MAX,
        ;
        union == 0 || common as u128 * 100 >= threshold as u128 * union
    }

    /// Build a consolidation plan for one kind from its active memories, given as id
    /// and text, the oldest first. The keeper of a group is its earliest memory.
    pub fn plan_for_kind(
        &self,
        kind: MemoryKind,
        recs: &Vec<(String, String)>,
        include_near_dup: bool,
        threshold: u32,
    ) -> (r: ConsolidationPlan)
        ensures
            r.memory_type@ == kind::kind_name(kind),
            group_views(r.groups@) == all_named(
                recs@,
                plan_groups(record_texts(recs@), include_near_dup, threshold as int),
                threshold as nat,
            ),
            r.archived == 0,
    {
        let ghost ts = record_texts(recs@);
        let ghost n = ts.len() as int;
        let hashes = hash_all(recs);
        let mut groups: Vec<ConsolidationGroup> = Vec::new();
        let mut taken: Vec<bool> = Vec::new();
        let mut i: usize = 0;
        assert(group_views(groups@) =~= all_named(recs@, exact_groups(ts, 0), threshold as nat));
        while i < recs.len()
            invariant
                i <= recs@.len(),
                ts == record_texts(recs@),
                n == ts.len(),
                hashes@.len() == n,
                forall|j: int| 0 <= j < n ==> #[trigger] hashes@[j] == text_hash(ts[j]),
                taken@.len() == i,
                forall|j: int| 0 <= j < i ==> #[trigger] taken@[j] == has_twin(ts, j),
                group_views(groups@) == all_named(
                    recs@,
                    exact_groups(ts, i as int),
                    threshold as nat,
                ),
            decreases recs@.len() - i,
        {
            let first = is_first(&hashes, i, Ghost(ts));
            let same = same_after(&hashes, i, Ghost(ts));
            proof {
                twin_by_sides(ts, i as int);
            }
            taken.push(!first || same.len() > 0);
            if first && same.len() > 0 {
                let group = ConsolidationGroup {
                    keeper_id: recs[i].0.clone(),
                    duplicate_ids: pick_ids(recs, &same),
                    reason: "exact".to_owned(),
                };
                let ghost before = group_views(groups@);
                let ghost seen = group@;
                groups.push(group);
                assert(group_views(groups@) =~= before.push(seen));
            }
            i = i + 1;
            assert(group_views(groups@) =~= all_named(
                recs@,
                exact_groups(ts, i as int),
                threshold as nat,
            ));
        }
        let ghost exact = exact_groups(ts, n);
        if include_near_dup {
            let ghost start = twins(ts);
            let label = near_reason(threshold);
            let mut a: usize = 0;
            assert(group_views(groups@) =~= all_named(
                recs@,
                exact + near_groups(ts, start, threshold as int, 0).1,
                threshold as nat,
            ));
            while a < recs.len()
                invariant
                    a <= recs@.len(),
                    ts == record_texts(recs@),
                    n == ts.len(),
                    taken@.len() == n,
                    start == twins(ts),
                    label@ == reason(true, threshold as nat),
                    forall|j: int|
                        0 <= j < n ==> #[trigger] taken@[j] == near_groups(
                            ts,
                            start,
                            threshold as int,
                            a as int,
                        ).0.contains(j),
                    group_views(groups@) == all_named(
                        recs@,
                        exact + near_groups(ts, start, threshold as int, a as int).1,
                        threshold as nat,
                    ),
                decreases recs@.len() - a,
            {
                let ghost state = near_groups(ts, start, threshold as int, a as int);
                if !taken[a] {
                    let found = near_after(recs, &taken, a, threshold, Ghost(state.0));
                    if found.len() > 0 {
                        let ghost old_taken = taken@;
                        mark(&mut taken, a, &found);
                        let group = ConsolidationGroup {
                            keeper_id: recs[a].0.clone(),
                            duplicate_ids: pick_ids(recs, &found),
                            reason: label.clone(),
                        };
                        let ghost before = group_views(groups@);
                        let ghost seen = group@;
                        groups.push(group);
                        assert(group_views(groups@) =~= before.push(seen));
                    }
                }
                a = a + 1;
                assert(group_views(groups@) =~= all_named(
                    recs@,
                    exact + near_groups(ts, start, threshold as int, a as int).1,
                    threshold as nat,
                ));
            }
        }
        ConsolidationPlan { memory_type: kind.as_str().to_owned(), groups, archived: 0 }
    }
}

fn hash_all(recs: &Vec<(String, String)>) -> (r: Vec<u64>)
    ensures
        r@.len() == recs@.len(),
        forall|j: int|
            0 <= j < r@.len() ==> #[trigger] r@[j] == text_hash(record_texts(recs@)[j]),
{
    let mut r: Vec<u64> = Vec::new();
    let mut i: usize = 0;
    while i < recs.len()
        invariant
            i <= recs@.len(),
            r@.len() == i,
            forall|j: int| 0 <= j < i ==> #[trigger] r@[j] == text_hash(record_texts(recs@)[j]),
        decreases recs@.len() - i,
    {
        r.push(hash_text(recs[i].1.as_str()));
        i = i + 1;
    }
    r
}

/// Whether no earlier record has the same hash.
fn is_first(hashes: &Vec<u64>, i: usize, Ghost(ts): Ghost<Seq<Seq<char>>>) -> (r: bool)
    requires
        i < hashes@.len() == ts.len(),
        forall|j: int| 0 <= j < ts.len() ==> #[trigger] hashes@[j] == text_hash(ts[j]),
    ensures
        r == leads(ts, i as int),
{
    let mut j: usize = 0;
    while j < i
        invariant
            j <= i < hashes@.len() == ts.len(),
            forall|k: int| 0 <= k < ts.len() ==> #[trigger] hashes@[k] == text_hash(ts[k]),
            forall|k: int| 0 <= k < j ==> !#[trigger] same_hash(ts, k, i as int),
        decreases i - j,
    {
        if hashes[j] == hashes[i] {
            assert(same_hash(ts, j as int, i as int));
            return false;
        }
        j = j + 1;
    }
    true
}

/// The later records with the same hash.
fn same_after(hashes: &Vec<u64>, i: usize, Ghost(ts): Ghost<Seq<Seq<char>>>) -> (r: Vec<usize>)
    requires
        i < hashes@.len() == ts.len(),
        forall|j: int| 0 <= j < ts.len() ==> #[trigger] hashes@[j] == text_hash(ts[j]),
    ensures
        positions(r@) == later_same(ts, i as int, ts.len() as int),
        forall|k: int| 0 <= k < r@.len() ==> i < #[trigger] r@[k] < ts.len(),
{
    let mut r: Vec<usize> = Vec::new();
    let n: usize = hashes.len();
    let mut j: usize = i + 1;
    assert(positions(r@) =~= later_same(ts, i as int, i + 1));
    while j < n
        invariant
            i < j <= n == hashes@.len() == ts.len(),
            forall|k: int| 0 <= k < ts.len() ==> #[trigger] hashes@[k] == text_hash(ts[k]),
            positions(r@) == later_same(ts, i as int, j as int),
            forall|k: int| 0 <= k < r@.len() ==> i < #[trigger] r@[k] < ts.len(),
        decreases hashes@.len() - j,
    {
        if hashes[j] == hashes[i] {
            let ghost before = positions(r@);
            r.push(j);
            assert(positions(r@) =~= before.push(j as int));
        }
        j = j + 1;
    }
    r
}

/// The ids of the records at the given positions.
fn pick_ids(recs: &Vec<(String, String)>, at: &Vec<usize>) -> (r: Vec<String>)
    requires
        forall|k: int| 0 <= k < at@.len() ==> #[trigger] at@[k] < recs@.len(),
    ensures
        text::texts(r@) == ids_at(recs@, positions(at@)),
{
    let mut r: Vec<String> = Vec::new();
    let ghost all = ids_at(recs@, positions(at@));
    let mut k: usize = 0;
    assert(text::texts(r@) =~= all.take(0));
    while k < at.len()
        invariant
            k <= at@.len(),
            all == ids_at(recs@, positions(at@)),
            forall|k: int| 0 <= k < at@.len() ==> #[trigger] at@[k] < recs@.len(),
            text::texts(r@) == all.take(k as int),
        decreases at@.len() - k,
    {
        let ghost before = text::texts(r@);
        r.push(recs[at[k]].0.clone());
        assert(text::texts(r@) =~= before.push(all[k as int]));
        k = k + 1;
        assert(all.take(k as int) =~= all.take(k - 1).push(all[k - 1]));
    }
    assert(all.take(k as int) =~= all);
    r
}

fn near_reason(threshold: u32) -> (r: String)
    ensures
        r@ == reason(true, threshold as nat),
{
    let mut s = "near(jaccard>=".to_owned();
    s.append(fraction_of(threshold).as_str());
    s.append(")");
    s
}

fn fraction_of(percent: u32) -> (r: String)
    ensures
        r@ == fraction(percent as nat),
{
    let mut s = text::decimal_of((percent / 100) as u64);
    let rest: u32 = percent % 100;
    if rest != 0 {
        s.append(".");
        s.append(text::decimal_of((rest / 10) as u64).as_str());
        if rest % 10 != 0 {
            s.append(text::decimal_of((rest % 10) as u64).as_str());
        }
    }
    s
}

/// The later records that are near record `a` and not taken.
fn near_after(
    recs: &Vec<(String, String)>,
    taken: &Vec<bool>,
    a: usize,
    threshold: u32,
    Ghost(set): Ghost<Set<int>>,
) -> (r: Vec<usize>)
    requires
        a < recs@.len() == taken@.len(),
        forall|j: int| 0 <= j < recs@.len() ==> #[trigger] taken@[j] == set.contains(j),
    ensures
        positions(r@) == near_free(
            record_texts(recs@),
            set,
            a as int,
            recs@.len() as int,
            threshold as int,
        ),
        forall|k: int| 0 <= k < r@.len() ==> a < #[trigger] r@[k] < recs@.len(),
{
    let ghost ts = record_texts(recs@);
    let mut r: Vec<usize> = Vec::new();
    let n: usize = recs.len();
    let mut b: usize = a + 1;
    assert(positions(r@) =~= near_free(ts, set, a as int, a + 1, threshold as int));
    while b < n
        invariant
            a < b <= n == recs@.len() == taken@.len(),
            ts == record_texts(recs@),
            forall|j: int| 0 <= j < recs@.len() ==> #[trigger] taken@[j] == set.contains(j),
            positions(r@) == near_free(ts, set, a as int, b as int, threshold as int),
            forall|k: int| 0 <= k < r@.len() ==> a < #[trigger] r@[k] < recs@.len(),
        decreases recs@.len() - b,
    {
        if !taken[b] && ConsolidationEngine::jaccard_similarity(
            recs[a].1.as_str(),
            recs[b].1.as_str(),
            threshold,
        ) {
            let ghost before = positions(r@);
            r.push(b);
            assert(positions(r@) =~= before.push(b as int));
        }
        b = b + 1;
    }
    r
}

/// Mark a record and those it takes.
fn mark(taken: &mut Vec<bool>, a: usize, found: &Vec<usize>)
    requires
        a < old(taken)@.len(),
        forall|k: int| 0 <= k < found@.len() ==> #[trigger] found@[k] < old(taken)@.len(),
    ensures
        final(taken)@.len() == old(taken)@.len(),
        forall|j: int|
            0 <= j < final(taken)@.len() ==> #[trigger] final(taken)@[j] == (old(taken)@[j] || j
                == a || positions(found@).contains(j)),
{
    let ghost start = taken@;
    taken.set(a, true);
    let mut k: usize = 0;
    while k < found.len()
        invariant
            k <= found@.len(),
            a < start.len(),
            taken@.len() == start.len(),
            forall|k: int| 0 <= k < found@.len() ==> #[trigger] found@[k] < start.len(),
            forall|j: int|
                0 <= j < start.len() ==> #[trigger] taken@[j] == (start[j] || j == a || positions(
                    found@,
                ).take(k as int).contains(j)),
        decreases found@.len() - k,
    {
        let ghost before = positions(found@).take(k as int);
        let ghost x = found@[k as int] as int;
        taken.set(found[k], true);
        k = k + 1;
        proof {
            let now = positions(found@).take(k as int);
            assert(now =~= before.push(x));
            assert forall|j: int| now.contains(j) <==> (before.contains(j) || j == x) by {
                if before.contains(j) {
                    let m = choose|m: int| 0 <= m < before.len() && before[m] == j;
                    assert(now[m] == j);
                }
                if j == x {
                    assert(now[before.len() as int] == j);
                }
                if now.contains(j) {
                    let m = choose|m: int| 0 <= m < now.len() && now[m] == j;
                    if m < before.len() {
                        assert(before[m] == j);
                    }
                }
            }
        }
    }
    assert(positions(found@).take(k as int) =~= positions(found@));
}

/// A record has a twin exactly where an earlier or a later one has its hash.
proof fn twin_by_sides(ts: Seq<Seq<char>>, i: int)
    requires
        0 <= i < ts.len(),
    ensures
        has_twin(ts, i) <==> !leads(ts, i) || later_same(ts, i, ts.len() as int).len() > 0,
{
    later_same_members(ts, i, ts.len() as int);
    if !leads(ts, i) {
        let j = choose|j: int| 0 <= j < i && #[trigger] same_hash(ts, j, i);
        assert(same_hash(ts, i, j));
    }
    if later_same(ts, i, ts.len() as int).len() > 0 {
        let j = later_same(ts, i, ts.len() as int)[0];
        assert(same_hash(ts, i, j));
    }
    if has_twin(ts, i) {
        let j = choose|j: int| 0 <= j < ts.len() && j != i && #[trigger] same_hash(ts, i, j);
        if j < i {
            assert(same_hash(ts, j, i));
        } else {
            assert(later_same(ts, i, ts.len() as int).contains(j));
        }
    }
}

/// The records listed are those in the range with the same hash, in order.
proof fn later_same_members(ts: Seq<Seq<char>>, i: int, k: int)
    requires
        0 <= i,
    ensures
        forall|j: int|
            later_same(ts, i, k).contains(j) <==> i < j < k && #[trigger] same_hash(ts, i, j),
        forall|p: int|
            0 <= p < later_same(ts, i, k).len() ==> i < #[trigger] later_same(ts, i, k)[p] < k
                && same_hash(ts, i, later_same(ts, i, k)[p]),
        forall|p: int, q: int|
            0 <= p < q < later_same(ts, i, k).len() ==> #[trigger] later_same(ts, i, k)[p]
                < #[trigger] later_same(ts, i, k)[q],
    decreases k,
{
    if k > i + 1 {
        later_same_members(ts, i, k - 1);
        let before = later_same(ts, i, k - 1);
        let now = later_same(ts, i, k);
        assert forall|j: int| now.contains(j) <==> i < j < k && #[trigger] same_hash(
            ts,
            i,
            j,
        ) by {
            if before.contains(j) {
                let m = choose|m: int| 0 <= m < before.len() && before[m] == j;
                assert(now[m] == j);
            }
            if now.contains(j) {
                let m = choose|m: int| 0 <= m < now.len() && now[m] == j;
                if m < before.len() {
                    assert(before[m] == j);
                    assert(before.contains(j));
                }
            }
            if j == k - 1 && same_hash(ts, i, j) {
                assert(now[before.len() as int] == j);
            }
        }
    }
}

// ---------------------------------------------------------------------------
// What a plan keeps
// ---------------------------------------------------------------------------

/// Record `x` is the keeper or a duplicate of a group.
pub open spec fn belongs(g: IndexGroup, x: int) -> bool {
    g.keeper == x || g.duplicates.contains(x)
}

proof fn exact_groups_shape(ts: Seq<Seq<char>>, k: int)
    requires
        k <= ts.len(),
    ensures
        forall|p: int|
            0 <= p < exact_groups(ts, k).len() ==> {
                let g = #[trigger] exact_groups(ts, k)[p];
                &&& 0 <= g.keeper < k
                &&& leads(ts, g.keeper)
                &&& g.duplicates == later_same(ts, g.keeper, ts.len() as int)
                &&& g.duplicates.len() > 0
            },
        forall|p: int, q: int|
            0 <= p < q < exact_groups(ts, k).len() ==> (#[trigger] exact_groups(ts, k)[p]).keeper
                < (#[trigger] exact_groups(ts, k)[q]).keeper,
        forall|i: int|
            0 <= i < k && #[trigger] leads(ts, i) && later_same(ts, i, ts.len() as int).len() > 0
                ==> exists|p: int|
                0 <= p < exact_groups(ts, k).len() && (#[trigger] exact_groups(ts, k)[p]).keeper
                    == i,
    decreases k,
{
    if k > 0 {
        exact_groups_shape(ts, k - 1);
        let before = exact_groups(ts, k - 1);
        let now = exact_groups(ts, k);
        assert forall|i: int|
            0 <= i < k && #[trigger] leads(ts, i) && later_same(ts, i, ts.len() as int).len()
                > 0 implies exists|p: int|
            0 <= p < now.len() && (#[trigger] now[p]).keeper == i by {
            if i < k - 1 {
                let p = choose|p: int|
                    0 <= p < before.len() && (#[trigger] before[p]).keeper == i;
                assert(now[p].keeper == i);
            } else {
                assert(now[before.len() as int].keeper == i);
            }
        }
    }
}

proof fn near_free_members(ts: Seq<Seq<char>>, taken: Set<int>, a: int, k: int, percent: int)
    requires
        0 <= a,
    ensures
        forall|x: int|
            #[trigger] near_free(ts, taken, a, k, percent).contains(x) ==> a < x < k
                && !taken.contains(x),
    decreases k,
{
    if k > a + 1 {
        near_free_members(ts, taken, a, k - 1, percent);
        let before = near_free(ts, taken, a, k - 1, percent);
        let now = near_free(ts, taken, a, k, percent);
        assert forall|x: int| #[trigger] now.contains(x) implies a < x < k && !taken.contains(
            x,
        ) by {
            let m = choose|m: int| 0 <= m < now.len() && now[m] == x;
            if m < before.len() {
                assert(before[m] == x);
                assert(before.contains(x));
            }
        }
    }
}

proof fn near_groups_shape(ts: Seq<Seq<char>>, start: Set<int>, percent: int, k: int)
    requires
        0 <= k <= ts.len(),
    ensures
        forall|x: int| start.contains(x) ==> near_groups(ts, start, percent, k).0.contains(x),
        forall|p: int, x: int|
            0 <= p < near_groups(ts, start, percent, k).1.len() && #[trigger] belongs(
                near_groups(ts, start, percent, k).1[p],
                x,
            ) ==> {
                &&& 0 <= near_groups(ts, start, percent, k).1[p].keeper <= x < ts.len()
                &&& !start.contains(x)
                &&& near_groups(ts, start, percent, k).0.contains(x)
            },
        forall|p: int, x: int|
            0 <= p < near_groups(ts, start, percent, k).1.len() && near_groups(
                ts,
                start,
                percent,
                k,
            ).1[p].duplicates.contains(x) ==> near_groups(ts, start, percent, k).1[p].keeper < x,
        forall|p: int, q: int, x: int|
            0 <= p < q < near_groups(ts, start, percent, k).1.len() && #[trigger] belongs(
                near_groups(ts, start, percent, k).1[p],
                x,
            ) ==> !#[trigger] belongs(near_groups(ts, start, percent, k).1[q], x),
    decreases k,
{
    if k > 0 {
        near_groups_shape(ts, start, percent, k - 1);
        let (taken, before) = near_groups(ts, start, percent, k - 1);
        let (now_taken, now) = near_groups(ts, start, percent, k);
        let a = k - 1;
        let dups = near_free(ts, taken, a, ts.len() as int, percent);
        near_free_members(ts, taken, a, ts.len() as int, percent);
        if !taken.contains(a) && dups.len() > 0 {
            let last = IndexGroup { keeper: a, duplicates: dups, near: true };
            assert(now =~= before.push(last));
            assert forall|x: int| belongs(last, x) implies a <= x < ts.len() && !taken.contains(
                x,
            ) && now_taken.contains(x) by {
                if dups.contains(x) {
                    assert(dups.to_set().contains(x));
                }
            }
            assert forall|p: int, x: int|
                0 <= p < now.len() && #[trigger] belongs(now[p], x) implies 0 <= now[p].keeper <= x
                < ts.len() && !start.contains(x) && now_taken.contains(x) by {
                if p < before.len() {
                    assert(belongs(before[p], x));
                } else {
                    assert(belongs(last, x));
                }
            }
            assert forall|p: int, q: int, x: int|
                0 <= p < q < now.len() && #[trigger] belongs(
                    now[p],
                    x,
                ) implies !#[trigger] belongs(now[q], x) by {
                assert(belongs(before[p], x));
                if q < before.len() {
                    assert(!belongs(before[q], x));
                } else {
                    assert(taken.contains(x));
                    assert(!belongs(last, x));
                }
            }
            assert forall|p: int, x: int|
                0 <= p < now.len() && now[p].duplicates.contains(x) implies now[p].keeper < x by {
                if p < before.len() {
                    assert(before[p].duplicates.contains(x));
                }
            }
        }
    }
}

/// The keeper of a group is earlier than every memory that is to be archived for it.
pub proof fn keeper_is_earliest(
    ts: Seq<Seq<char>>,
    include_near_dup: bool,
    percent: int,
    p: int,
    x: int,
)
    requires
        0 <= p < plan_groups(ts, include_near_dup, percent).len(),
        plan_groups(ts, include_near_dup, percent)[p].duplicates.contains(x),
    ensures
        0 <= plan_groups(ts, include_near_dup, percent)[p].keeper < x < ts.len(),
{
    let n = ts.len() as int;
    let exact = exact_groups(ts, n);
    exact_groups_shape(ts, n);
    if p < exact.len() {
        let g = exact[p];
        assert(plan_groups(ts, include_near_dup, percent)[p] == g);
        later_same_members(ts, g.keeper, n);
        let m = choose|m: int| 0 <= m < g.duplicates.len() && g.duplicates[m] == x;
        assert(g.keeper < g.duplicates[m] < n);
    } else {
        near_groups_shape(ts, twins(ts), percent, n);
        let found = near_groups(ts, twins(ts), percent, n).1;
        let g = found[p - exact.len()];
        assert(plan_groups(ts, include_near_dup, percent)[p] == g);
        assert(belongs(g, x));
        assert(belongs(g, g.keeper));
    }
}

/// No memory is in two groups; so no keeper is archived for another group.
pub proof fn groups_are_disjoint(
    ts: Seq<Seq<char>>,
    include_near_dup: bool,
    percent: int,
    p: int,
    q: int,
    x: int,
)
    requires
        0 <= p < q < plan_groups(ts, include_near_dup, percent).len(),
        belongs(plan_groups(ts, include_near_dup, percent)[p], x),
    ensures
        !belongs(plan_groups(ts, include_near_dup, percent)[q], x),
{
    let n = ts.len() as int;
    let exact = exact_groups(ts, n);
    let groups = plan_groups(ts, include_near_dup, percent);
    exact_groups_shape(ts, n);
    if include_near_dup {
        near_groups_shape(ts, twins(ts), percent, n);
    }
    if p < exact.len() {
        let g = exact[p];
        assert(groups[p] == g);
        exact_member(ts, g.keeper, x);
        if q < exact.len() {
            let h = exact[q];
            assert(groups[q] == h);
            if belongs(h, x) {
                exact_member(ts, h.keeper, x);
                assert(same_hash(ts, g.keeper, h.keeper));
            }
        } else {
            let found = near_groups(ts, twins(ts), percent, n).1;
            assert(groups[q] == found[q - exact.len()]);
            exact_member_has_twin(ts, g.keeper, x);
            if belongs(groups[q], x) {
                assert(belongs(found[q - exact.len()], x));
                assert(twins(ts).contains(x));
            }
        }
    } else {
        let found = near_groups(ts, twins(ts), percent, n).1;
        assert(groups[p] == found[p - exact.len()]);
        assert(groups[q] == found[q - exact.len()]);
        assert(belongs(found[p - exact.len()], x));
        assert(!belongs(found[q - exact.len()], x));
    }
}

proof fn exact_member(ts: Seq<Seq<char>>, keeper: int, x: int)
    requires
        0 <= keeper < ts.len(),
        keeper == x || later_same(ts, keeper, ts.len() as int).contains(x),
    ensures
        keeper <= x < ts.len(),
        same_hash(ts, keeper, x),
{
    later_same_members(ts, keeper, ts.len() as int);
}

proof fn exact_member_has_twin(ts: Seq<Seq<char>>, keeper: int, x: int)
    requires
        0 <= keeper < ts.len(),
        later_same(ts, keeper, ts.len() as int).len() > 0,
        keeper == x || later_same(ts, keeper, ts.len() as int).contains(x),
    ensures
        has_twin(ts, x),
        0 <= x < ts.len(),
{
    let later = later_same(ts, keeper, ts.len() as int);
    later_same_members(ts, keeper, ts.len() as int);
    if x == keeper {
        assert(same_hash(ts, x, later[0]));
    } else {
        assert(same_hash(ts, keeper, x));
        assert(same_hash(ts, x, keeper));
    }
}

/// Of two memories with the same hash, the later one is to be archived.
pub proof fn exact_duplicates_are_found(
    ts: Seq<Seq<char>>,
    include_near_dup: bool,
    percent: int,
    i: int,
    j: int,
)
    requires
        0 <= i < j < ts.len(),
        same_hash(ts, i, j),
    ensures
        exists|p: int|
            0 <= p < plan_groups(ts, include_near_dup, percent).len() && (
            #[trigger] plan_groups(ts, include_near_dup, percent)[p]).duplicates.contains(j),
{
    let n = ts.len() as int;
    let first = leader(ts, i);
    leader_leads(ts, i);
    later_same_members(ts, first, n);
    assert(same_hash(ts, first, j));
    assert(later_same(ts, first, n).contains(j));
    exact_groups_shape(ts, n);
    assert(leads(ts, first));
    let p = choose|p: int|
        0 <= p < exact_groups(ts, n).len() && (#[trigger] exact_groups(ts, n)[p]).keeper == first;
    assert(plan_groups(ts, include_near_dup, percent)[p] == exact_groups(ts, n)[p]);
}

/// The earliest record with the hash of record `i`, looked for from the front.
spec fn leader(ts: Seq<Seq<char>>, i: int) -> int
    decreases i,
{
    if i <= 0 || leads(ts, i) {
        i
    } else {
        let j = choose|j: int| 0 <= j < i && #[trigger] same_hash(ts, j, i);
        if 0 <= j < i {
            leader(ts, j)
        } else {
            i
        }
    }
}

proof fn leader_leads(ts: Seq<Seq<char>>, i: int)
    requires
        0 <= i < ts.len(),
    ensures
        0 <= leader(ts, i) <= i,
        leads(ts, leader(ts, i)),
        same_hash(ts, leader(ts, i), i),
    decreases i,
{
    if i > 0 && !leads(ts, i) {
        let j = choose|j: int| 0 <= j < i && #[trigger] same_hash(ts, j, i);
        leader_leads(ts, j);
    }
}

// ---------------------------------------------------------------------------
// Applying a plan
// ---------------------------------------------------------------------------

/// The ids that a list of groups wants archived, group by group.
pub open spec fn doomed(groups: Seq<GroupView>) -> Seq<Seq<char>>
    decreases groups.len(),
{
    if groups.len() == 0 {
        Seq::empty()
    } else {
        doomed(groups.drop_last()) + groups.last().duplicate_ids
    }
}

/// How many of the attempts succeeded.
pub open spec fn successes(outcomes: Seq<bool>) -> nat
    decreases outcomes.len(),
{
    if outcomes.len() == 0 {
        0
    } else {
        successes(outcomes.drop_last()) + if outcomes.last() {
            1nat
        } else {
            0
        }
    }
}

/// The numbers of archived memories of several plans, added up.
pub open spec fn archived_sum(plans: Seq<ConsolidationPlan>) -> nat
    decreases plans.len(),
{
    if plans.len() == 0 {
        0
    } else {
        archived_sum(plans.drop_last()) + plans.last().archived as nat
    }
}

impl ConsolidationPlan {
    /// The ids of the memories to archive.
    pub fn to_archive(&self) -> (r: Vec<String>)
        ensures
            text::texts(r@) == doomed(group_views(self.groups@)),
    {
        let ghost all = group_views(self.groups@);
        let mut r: Vec<String> = Vec::new();
        let mut i: usize = 0;
        assert(text::texts(r@) =~= doomed(all.take(0)));
        while i < self.groups.len()
            invariant
                i <= self.groups@.len(),
                all == group_views(self.groups@),
                text::texts(r@) == doomed(all.take(i as int)),
            decreases self.groups@.len() - i,
        {
            assert(all.take(i + 1).drop_last() =~= all.take(i as int));
            let ids = &self.groups[i].duplicate_ids;
            let ghost start = text::texts(r@);
            let ghost more = text::texts(ids@);
            assert(more == all[i as int].duplicate_ids);
            let mut k: usize = 0;
            assert(start + more.take(0) =~= start);
            while k < ids.len()
                invariant
                    k <= ids@.len(),
                    more == text::texts(ids@),
                    text::texts(r@) == start + more.take(k as int),
                decreases ids@.len() - k,
            {
                let ghost before = text::texts(r@);
                r.push(ids[k].clone());
                assert(text::texts(r@) =~= before.push(more[k as int]));
                k = k + 1;
                assert(start + more.take(k as int) =~= (start + more.take(k - 1)).push(
                    more[k - 1],
                ));
            }
            assert(more.take(k as int) =~= more);
            i = i + 1;
        }
        assert(all.take(i as int) =~= all);
        r
    }

    /// Record which of the attempts to archive succeeded.
    pub fn record_archived(&mut self, outcomes: &Vec<bool>)
        ensures
            final(self).archived == successes(outcomes@),
            final(self).memory_type == old(self).memory_type,
            final(self).groups == old(self).groups,
    {
        let mut n: usize = 0;
        let mut i: usize = 0;
        assert(outcomes@.take(0) =~= Seq::empty());
        while i < outcomes.len()
            invariant
                i <= outcomes@.len(),
                n <= i,
                n == successes(outcomes@.take(i as int)),
            decreases outcomes@.len() - i,
        {
            assert(outcomes@.take(i + 1).drop_last() =~= outcomes@.take(i as int));
            if outcomes[i] {
                n = n + 1;
            }
            i = i + 1;
        }
        assert(outcomes@.take(i as int) =~= outcomes@);
        self.archived = n;
    }
}

/// How many memories several plans archived in all.
pub fn total_archived(plans: &Vec<ConsolidationPlan>) -> (r: usize)
    ensures
        r == text::tallied(archived_sum(plans@)),
{
    let mut n: usize = 0;
    let mut i: usize = 0;
    assert(plans@.take(0) =~= Seq::empty());
    while i < plans.len()
        invariant
            i <= plans@.len(),
            n == text::tallied(archived_sum(plans@.take(i as int))),
        decreases plans@.len() - i,
    {
        assert(plans@.take(i + 1).drop_last() =~= plans@.take(i as int));
        n = text::tally(n, plans[i].archived);
        i = i + 1;
    }
    assert(plans@.take(i as int) =~= plans@);
    n
}

// ---------------------------------------------------------------------------
// What groups are made of
// ---------------------------------------------------------------------------

/// Every byte goes into the hash, one after the other, and a text is hashed whole.
pub proof fn every_byte_is_hashed(bytes: Seq<u8>, b: u8, s: Seq<char>)
    ensures
        fnv(Seq::<u8>::empty()) == 0xcbf29ce484222325u64,
        fnv(bytes.push(b)) == (fnv(bytes) ^ (b as u64)).wrapping_mul(0x100000001b3u64),
        text_hash(s) == fnv(vstd::utf8::encode_utf8(s)),
{
    assert(bytes.push(b).drop_last() =~= bytes);
}

/// A group of exact duplicates holds a record and all later ones whose whole text has the
/// same hash, in order, and no other.
pub proof fn exact_groups_hold_equal_texts(
    ts: Seq<Seq<char>>,
    include_near_dup: bool,
    percent: int,
    p: int,
)
    requires
        0 <= p < plan_groups(ts, include_near_dup, percent).len(),
        !plan_groups(ts, include_near_dup, percent)[p].near,
    ensures
        ({
            let g = plan_groups(ts, include_near_dup, percent)[p];
            &&& 0 <= g.keeper < ts.len()
            &&& g.duplicates.len() > 0
            &&& forall|i: int, j: int|
                0 <= i < j < g.duplicates.len() ==> #[trigger] g.duplicates[i]
                    < #[trigger] g.duplicates[j]
            &&& forall|x: int| #[trigger]
                g.duplicates.contains(x) <==> 0 <= x < ts.len() && x != g.keeper && fnv(
                    vstd::utf8::encode_utf8(ts[x]),
                ) == fnv(vstd::utf8::encode_utf8(ts[g.keeper]))
        }),
{
    let n = ts.len() as int;
    let exact = exact_groups(ts, n);
    exact_groups_shape(ts, n);
    if include_near_dup {
        near_groups_are_near(ts, twins(ts), percent, n);
        assert(p < exact.len());
    }
    let g = exact[p];
    assert(plan_groups(ts, include_near_dup, percent)[p] == g);
    later_same_members(ts, g.keeper, n);
    assert forall|x: int| #[trigger] g.duplicates.contains(x) <==> 0 <= x < ts.len() && x
        != g.keeper && fnv(vstd::utf8::encode_utf8(ts[x])) == fnv(
        vstd::utf8::encode_utf8(ts[g.keeper]),
    ) by {
        assert(g.duplicates.contains(x) <==> g.keeper < x < n && same_hash(ts, g.keeper, x));
        if 0 <= x < g.keeper {
            assert(!same_hash(ts, x, g.keeper));
        }
    }
}

/// Two texts are near where they share enough of their words.
pub proof fn near_counts_words(a: Seq<char>, b: Seq<char>, percent: int)
    ensures
        near(a, b, percent) <==> {
            let both = text::words(a).to_set().intersect(text::words(b).to_set()).len();
            let all = text::words(a).to_set().union(text::words(b).to_set()).len();
            all == 0 || both * 100 >= percent * all
        },
{
}

proof fn near_free_exactly(ts: Seq<Seq<char>>, taken: Set<int>, a: int, k: int, percent: int)
    requires
        0 <= a,
    ensures
        forall|x: int| #[trigger]
            near_free(ts, taken, a, k, percent).contains(x) <==> a < x < k && !taken.contains(x)
                && near(ts[a], ts[x], percent),
    decreases k,
{
    if k > a + 1 {
        near_free_exactly(ts, taken, a, k - 1, percent);
        let before = near_free(ts, taken, a, k - 1, percent);
        let now = near_free(ts, taken, a, k, percent);
        assert forall|x: int| #[trigger] now.contains(x) <==> a < x < k && !taken.contains(x)
            && near(ts[a], ts[x], percent) by {
            if before.contains(x) {
                let m = choose|m: int| 0 <= m < before.len() && before[m] == x;
                assert(now[m] == x);
            }
            if now.contains(x) {
                let m = choose|m: int| 0 <= m < now.len() && now[m] == x;
                if m < before.len() {
                    assert(before[m] == x);
                    assert(before.contains(x));
                }
            }
            if x == k - 1 && !taken.contains(x) && near(ts[a], ts[x], percent) {
                assert(now[before.len() as int] == x);
            }
        }
    }
}

proof fn near_groups_are_near(ts: Seq<Seq<char>>, start: Set<int>, percent: int, k: int)
    requires
        0 <= k <= ts.len(),
    ensures
        forall|p: int|
            0 <= p < near_groups(ts, start, percent, k).1.len() ==> {
                let g = #[trigger] near_groups(ts, start, percent, k).1[p];
                &&& g.near
                &&& 0 <= g.keeper < k
                &&& g.duplicates.len() > 0
                &&& forall|x: int|
                    #[trigger] g.duplicates.contains(x) ==> near(ts[g.keeper], ts[x], percent)
            },
        forall|x: int| #[trigger]
            near_groups(ts, start, percent, k).0.contains(x) ==> start.contains(x) || exists|
                p: int,
            |
                0 <= p < near_groups(ts, start, percent, k).1.len() && #[trigger] belongs(
                    near_groups(ts, start, percent, k).1[p],
                    x,
                ),
    decreases k,
{
    if k > 0 {
        near_groups_are_near(ts, start, percent, k - 1);
        let (taken, before) = near_groups(ts, start, percent, k - 1);
        let (now_taken, now) = near_groups(ts, start, percent, k);
        let a = k - 1;
        let dups = near_free(ts, taken, a, ts.len() as int, percent);
        near_free_exactly(ts, taken, a, ts.len() as int, percent);
        if !taken.contains(a) && dups.len() > 0 {
            let last = IndexGroup { keeper: a, duplicates: dups, near: true };
            assert(now =~= before.push(last));
            assert forall|x: int| #[trigger] now_taken.contains(x) implies start.contains(x)
                || exists|p: int| 0 <= p < now.len() && #[trigger] belongs(now[p], x) by {
                if taken.contains(x) && !start.contains(x) {
                    let p = choose|p: int| 0 <= p < before.len() && #[trigger] belongs(before[p], x);
                    assert(belongs(now[p], x));
                } else if !taken.contains(x) {
                    assert(belongs(last, x));
                    assert(belongs(now[before.len() as int], x));
                }
            }
        }
    }
}

proof fn near_groups_grow(ts: Seq<Seq<char>>, start: Set<int>, percent: int, k: int, n: int)
    requires
        0 <= k <= n,
    ensures
        near_groups(ts, start, percent, k).1.len() <= near_groups(ts, start, percent, n).1.len(),
        forall|p: int|
            0 <= p < near_groups(ts, start, percent, k).1.len() ==> #[trigger] near_groups(
                ts,
                start,
                percent,
                n,
            ).1[p] == near_groups(ts, start, percent, k).1[p],
    decreases n,
{
    if k < n {
        near_groups_grow(ts, start, percent, k, n - 1);
    }
}

/// A group of near duplicates is only made where that is asked for, and each of its
/// records is near the keeper.
pub proof fn near_groups_hold_near_texts(
    ts: Seq<Seq<char>>,
    include_near_dup: bool,
    percent: int,
    p: int,
    x: int,
)
    requires
        0 <= p < plan_groups(ts, include_near_dup, percent).len(),
        plan_groups(ts, include_near_dup, percent)[p].near,
        plan_groups(ts, include_near_dup, percent)[p].duplicates.contains(x),
    ensures
        include_near_dup,
        near(ts[plan_groups(ts, include_near_dup, percent)[p].keeper], ts[x], percent),
{
    let n = ts.len() as int;
    let exact = exact_groups(ts, n);
    exact_groups_exact(ts, n);
    if p < exact.len() {
        assert(plan_groups(ts, include_near_dup, percent)[p] == exact[p]);
    }
    near_groups_are_near(ts, twins(ts), percent, n);
    let found = near_groups(ts, twins(ts), percent, n).1;
    assert(plan_groups(ts, include_near_dup, percent)[p] == found[p - exact.len()]);
}

proof fn exact_groups_exact(ts: Seq<Seq<char>>, k: int)
    ensures
        forall|p: int|
            0 <= p < exact_groups(ts, k).len() ==> !(#[trigger] exact_groups(ts, k)[p]).near,
    decreases k,
{
    if k > 0 {
        exact_groups_exact(ts, k - 1);
        let before = exact_groups(ts, k - 1);
        let now = exact_groups(ts, k);
        assert forall|p: int| 0 <= p < now.len() implies !(#[trigger] now[p]).near by {
            if p < before.len() {
                assert(now[p] == before[p]);
            }
        }
    }
}

/// Where near duplicates are looked for, of two near texts at least one is in a group.
pub proof fn near_pairs_are_grouped(ts: Seq<Seq<char>>, percent: int, i: int, j: int) -> (p: int)
    requires
        0 <= i < j < ts.len(),
        near(ts[i], ts[j], percent),
    ensures
        0 <= p < plan_groups(ts, true, percent).len(),
        belongs(plan_groups(ts, true, percent)[p], i) || belongs(
            plan_groups(ts, true, percent)[p],
            j,
        ),
{
    let n = ts.len() as int;
    let start = twins(ts);
    let exact = exact_groups(ts, n);
    let found = near_groups(ts, start, percent, n).1;
    let all = plan_groups(ts, true, percent);
    if start.contains(i) || start.contains(j) {
        let x = if start.contains(i) {
            i
        } else {
            j
        };
        let p = twin_is_grouped(ts, x);
        assert(all[p] == exact[p]);
        p
    } else {
        let (taken, before) = near_groups(ts, start, percent, i);
        near_groups_are_near(ts, start, percent, i);
        near_groups_grow(ts, start, percent, i, n);
        if taken.contains(i) || taken.contains(j) {
            let x = if taken.contains(i) {
                i
            } else {
                j
            };
            let p = choose|p: int| 0 <= p < before.len() && #[trigger] belongs(before[p], x);
            assert(found[p] == before[p]);
            assert(all[exact.len() + p] == before[p]);
            exact.len() + p
        } else {
            near_free_exactly(ts, taken, i, n, percent);
            let dups = near_free(ts, taken, i, n, percent);
            assert(dups.contains(j));
            near_groups_grow(ts, start, percent, i + 1, n);
            let next = near_groups(ts, start, percent, i + 1).1;
            let p = before.len() as int;
            assert(next[p].keeper == i);
            assert(found[p] == next[p]);
            assert(all[exact.len() + p] == next[p]);
            exact.len() + p
        }
    }
}

proof fn twin_is_grouped(ts: Seq<Seq<char>>, i: int) -> (p: int)
    requires
        0 <= i < ts.len(),
        has_twin(ts, i),
    ensures
        0 <= p < exact_groups(ts, ts.len() as int).len(),
        belongs(exact_groups(ts, ts.len() as int)[p], i),
{
    let n = ts.len() as int;
    let first = leader(ts, i);
    leader_leads(ts, i);
    later_same_members(ts, first, n);
    exact_groups_shape(ts, n);
    twin_by_sides(ts, i);
    if first < i {
        assert(later_same(ts, first, n).contains(i));
    }
    assert(leads(ts, first) && later_same(ts, first, n).len() > 0);
    choose|p: int| 0 <= p < exact_groups(ts, n).len() && (#[trigger] exact_groups(ts, n)[p]).keeper
        == first
}

/// A group names its keeper and its duplicates by their own ids and says how they were
/// found.
pub proof fn groups_name_their_records(recs: Seq<(String, String)>, g: IndexGroup, percent: nat)
    ensures
        named(recs, g, percent).keeper_id == recs[g.keeper].0@,
        named(recs, g, percent).duplicate_ids.len() == g.duplicates.len(),
        forall|i: int|
            0 <= i < g.duplicates.len() ==> #[trigger] named(recs, g, percent).duplicate_ids[i]
                == recs[g.duplicates[i]].0@,
        !g.near ==> named(recs, g, percent).reason == "exact"@,
        forall|i: int| 0 <= i < recs.len() ==> #[trigger] record_texts(recs)[i] == recs[i].1@,
        record_texts(recs).len() == recs.len(),
{
}

/// What is archived are the duplicates of every group, group by group, and no keeper
/// besides.
pub proof fn all_duplicates_are_archived(a: Seq<GroupView>, b: Seq<GroupView>, g: GroupView)
    ensures
        doomed(Seq::<GroupView>::empty()) == Seq::<Seq<char>>::empty(),
        doomed(seq![g]) == g.duplicate_ids,
        doomed(a + b) == doomed(a) + doomed(b),
    decreases b.len(),
{
    assert(seq![g].drop_last() =~= Seq::<GroupView>::empty());
    assert(doomed(seq![g].drop_last()) =~= Seq::<Seq<char>>::empty());
    assert(doomed(seq![g]) =~= g.duplicate_ids);
    if b.len() == 0 {
        assert(a + b =~= a);
        assert(doomed(a) + doomed(b) =~= doomed(a));
    } else {
        all_duplicates_are_archived(a, b.drop_last(), g);
        assert((a + b).drop_last() =~= a + b.drop_last());
        assert(doomed(a + b) =~= doomed(a) + doomed(b));
    }
}

/// Successes are counted one by one, and the plans' counts are added up.
pub proof fn archived_are_counted(
    outcomes: Seq<bool>,
    a: Seq<ConsolidationPlan>,
    plan: ConsolidationPlan,
)
    ensures
        successes(outcomes) == outcomes.filter(|done: bool| done).len(),
        archived_sum(Seq::<ConsolidationPlan>::empty()) == 0,
        archived_sum(a.push(plan)) == archived_sum(a) + plan.archived,
    decreases outcomes.len(),
{
    reveal(Seq::filter);
    assert(a.push(plan).drop_last() =~= a);
    if outcomes.len() > 0 {
        archived_are_counted(outcomes.drop_last(), a, plan);
    }
}

/// A group shows its own keeper, duplicates and reason, and a plan each of its groups.
pub proof fn groups_show_what_they_hold(v: Seq<ConsolidationGroup>, i: int)
    requires
        0 <= i < v.len(),
    ensures
        group_views(v).len() == v.len(),
        group_views(v)[i].keeper_id == v[i].keeper_id@,
        group_views(v)[i].reason == v[i].reason@,
        group_views(v)[i].duplicate_ids.len() == v[i].duplicate_ids@.len(),
        forall|k: int|
            0 <= k < v[i].duplicate_ids@.len() ==> #[trigger] group_views(v)[i].duplicate_ids[k]
                == v[i].duplicate_ids@[k]@,
{
}

} // verus!
