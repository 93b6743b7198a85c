use crate::models::{DecisionMemory, EpisodicMemory, FailureMemory, ProceduralMemory};
use crate::order;
use crate::order::{Ranked, SortKey};
use crate::text;
use vstd::prelude::*;

verus! {

/// The rank of a score of 1.
pub const RANK_OF_ONE: i64 = 0x3f80_0000;

/// The rank of an infinite score. What lies beyond it, on either side of zero, is no
/// number.
pub const RANK_OF_INFINITY: i64 = 0x7f80_0000;

/// A relevance score: an integer that orders as the score does, and the score with
/// two decimals. The integer is made of the bits of a 32-bit IEEE 754 number without its
/// sign, negative where the number is.
#[derive(Clone, Debug)]
pub struct Score {
    pub rank: i64,
    pub text: String,
}

/// A memory that full-text search found.
#[derive(Clone, Debug)]
pub struct ScoredMemory<T> {
    pub memory: T,
    pub score: Score,
}

/// A single search result. `importance` holds the bits of a 32-bit IEEE 754 number.
#[derive(Clone, Debug)]
pub struct SearchResult {
    pub id: String,
    pub memory_type: String,
    pub summary: String,
    pub score: Score,
    pub importance: u32,
    pub created_at: i64,
    pub tags: Vec<String>,
}

/// The bits of 0.5.
pub const HALF: u32 = 0x3f00_0000;

/// The bits of 1.0.
pub const ONE: u32 = 0x3f80_0000;

/// A number brought into the range from 0 to 1, bit for bit: what lies above
/// becomes 1, what lies below becomes 0, and what is no number stays.
pub open spec fn clamped(bits: u32) -> u32 {
    if ONE < bits <= 0x7f80_0000 {
        ONE
    } else if 0x8000_0000 < bits <= 0xff80_0000 {
        0
    } else {
        bits
    }
}

/// The bits of a fifth of the severity, and no more than 1.
pub open spec fn severity_share(severity: u8) -> u32 {
    match severity {
        0 => 0,
        1 => 0x3e4c_cccd,
        2 => 0x3ecc_cccd,
        3 => 0x3f19_999a,
        4 => 0x3f4c_cccd,
        _ => ONE,
    }
}

/// The fields of a memory that a search result shows.
pub trait Searchable: Sized {
    spec fn id_text(&self) -> Seq<char>;

    spec fn summary_text(&self) -> Seq<char>;

    spec fn created(&self) -> i64;

    spec fn importance_bits(&self) -> u32;

    spec fn tag_texts(&self) -> Seq<Seq<char>>;

    fn search_id(&self) -> (r: &str)
        ensures
            r@ == self.id_text(),
    ;

    fn search_summary(&self) -> (r: &str)
        ensures
            r@ == self.summary_text(),
    ;

    fn search_created_at(&self) -> (r: i64)
        ensures
            r == self.created(),
    ;

    fn search_importance(&self) -> (r: u32)
        ensures
            r == self.importance_bits(),
    ;

    fn search_tags(&self) -> (r: &Vec<String>)
        ensures
            text::texts(r@) == self.tag_texts(),
    ;
}

impl Searchable for EpisodicMemory {
    open spec fn id_text(&self) -> Seq<char> {
        self.id@
    }

    open spec fn summary_text(&self) -> Seq<char> {
        self.summary@
    }

    open spec fn created(&self) -> i64 {
        self.created_at
    }

    open spec fn importance_bits(&self) -> u32 {
        clamped(self.importance)
    }

    open spec fn tag_texts(&self) -> Seq<Seq<char>> {
        text::texts(self.tags@)
    }

    fn search_id(&self) -> (r: &str) {
        self.id.as_str()
    }

    fn search_summary(&self) -> (r: &str) {
        self.summary.as_str()
    }

    fn search_created_at(&self) -> (r: i64) {
        self.created_at
    }

    fn search_importance(&self) -> (r: u32) {
        let bits = self.importance;
        if ONE < bits && bits <= 0x7f80_0000 {
            ONE
        } else if 0x8000_0000 < bits && bits <= 0xff80_0000 {
            0
        } else {
            bits
        }
    }

    fn search_tags(&self) -> (r: &Vec<String>) {
        &self.tags
    }
}

impl Searchable for DecisionMemory {
    open spec fn id_text(&self) -> Seq<char> {
        self.id@
    }

    open spec fn summary_text(&self) -> Seq<char> {
        self.title@
    }

    open spec fn created(&self) -> i64 {
        self.created_at
    }

    open spec fn importance_bits(&self) -> u32 {
        HALF
    }

    open spec fn tag_texts(&self) -> Seq<Seq<char>> {
        text::texts(self.tags@)
    }

    fn search_id(&self) -> (r: &str) {
        self.id.as_str()
    }

    fn search_summary(&self) -> (r: &str) {
        self.title.as_str()
    }

    fn search_created_at(&self) -> (r: i64) {
        self.created_at
    }

    fn search_importance(&self) -> (r: u32) {
        HALF
    }

    fn search_tags(&self) -> (r: &Vec<String>) {
        &self.tags
    }
}

impl Searchable for FailureMemory {
    open spec fn id_text(&self) -> Seq<char> {
        self.id@
    }

    open spec fn summary_text(&self) -> Seq<char> {
        self.incident@
    }

    open spec fn created(&self) -> i64 {
        self.created_at
    }

    open spec fn importance_bits(&self) -> u32 {
        severity_share(self.severity)
    }

    open spec fn tag_texts(&self) -> Seq<Seq<char>> {
        text::texts(self.tags@)
    }

    fn search_id(&self) -> (r: &str) {
        self.id.as_str()
    }

    fn search_summary(&self) -> (r: &str) {
        self.incident.as_str()
    }

    fn search_created_at(&self) -> (r: i64) {
        self.created_at
    }

    fn search_importance(&self) -> (r: u32) {
        match self.severity {
            0 => 0,
            1 => 0x3e4c_cccd,
            2 => 0x3ecc_cccd,
            3 => 0x3f19_999a,
            4 => 0x3f4c_cccd,
            _ => ONE,
        }
    }

    fn search_tags(&self) -> (r: &Vec<String>) {
        &self.tags
    }
}

impl Searchable for ProceduralMemory {
    open spec fn id_text(&self) -> Seq<char> {
        self.id@
    }

    open spec fn summary_text(&self) -> Seq<char> {
        self.workflow_name@
    }

    open spec fn created(&self) -> i64 {
        self.created_at
    }

    open spec fn importance_bits(&self) -> u32 {
        HALF
    }

    open spec fn tag_texts(&self) -> Seq<Seq<char>> {
        text::texts(self.tags@)
    }

    fn search_id(&self) -> (r: &str) {
        self.id.as_str()
    }

    fn search_summary(&self) -> (r: &str) {
        self.workflow_name.as_str()
    }

    fn search_created_at(&self) -> (r: i64) {
        self.created_at
    }

    fn search_importance(&self) -> (r: u32) {
        HALF
    }

    fn search_tags(&self) -> (r: &Vec<String>) {
        &self.tags
    }
}

/// `result` shows `scored` as a memory of the given type.
pub open spec fn shows<T: Searchable>(
    result: SearchResult,
    scored: ScoredMemory<T>,
    memory_type: Seq<char>,
) -> bool {
    &&& result.id@ == scored.memory.id_text()
    &&& result.memory_type@ == memory_type
    &&& result.summary@ == scored.memory.summary_text()
    &&& result.score == scored.score
    &&& result.importance == scored.memory.importance_bits()
    &&& result.created_at == scored.memory.created()
    &&& text::texts(result.tags@) == scored.memory.tag_texts()
}

/// A sort key that puts the greater number first.
#[derive(Clone, Copy, Debug)]
pub struct Descending(pub i64);

impl Ranked for Descending {
    open spec fn lt(&self, other: &Self) -> bool {
        self.0 > other.0
    }

    proof fn lt_asymmetric(a: &Self, b: &Self) {
    }

    proof fn le_transitive(a: &Self, b: &Self, c: &Self) {
    }
}

impl SortKey for Descending {
    fn is_lt(&self, other: &Self) -> (r: bool) {
        self.0 > other.0
    }
}

/// The results with the key that puts the best one first.
pub open spec fn by_score(s: Seq<SearchResult>) -> Seq<(Descending, SearchResult)> {
    Seq::new(s.len(), |i: int| (Descending(s[i].score.rank), s[i]))
}

/// The results, the best one first and equals in the order in which they came.
pub open spec fn best_first(s: Seq<SearchResult>) -> Seq<SearchResult> {
    order::seconds(order::ordered(by_score(s)))
}

/// BM25 retrieval: what becomes of the rows that full-text search finds.
pub struct BM25Retriever;

impl Default for BM25Retriever {
    fn default() -> Self {
        Self::new()
    }
}

impl BM25Retriever {
    pub fn new() -> Self {
        BM25Retriever
    }

    /// Convert scored memories of any type into search results.
    pub fn to_results<T: Searchable>(scored_mems: Vec<ScoredMemory<T>>, memory_type: &str) -> (r:
        Vec<SearchResult>)
        ensures
            r@.len() == scored_mems@.len(),
            forall|i: int|
                0 <= i < r@.len() ==> shows(#[trigger] r@[i], scored_mems@[i], memory_type@),
    {
        let mut rest = scored_mems;
        let mut r: Vec<SearchResult> = Vec::new();
        let ghost all = scored_mems@;
        assert(all.skip(0) =~= all);
        while rest.len() > 0
            invariant
                r@.len() + rest@.len() == all.len(),
                rest@ == all.skip(r@.len() as int),
                forall|i: int| 0 <= i < r@.len() ==> shows(#[trigger] r@[i], all[i], memory_type@),
            decreases rest@.len(),
        {
            let ghost n = r@.len() as int;
            let scored = rest.remove(0);
            assert(scored == all[n]);
            let result = SearchResult {
                id: scored.memory.search_id().to_owned(),
                memory_type: memory_type.to_owned(),
                summary: scored.memory.search_summary().to_owned(),
                importance: scored.memory.search_importance(),
                created_at: scored.memory.search_created_at(),
                tags: text::copy_list(scored.memory.search_tags()),
                score: scored.score,
            };
            assert(shows(result, all[n], memory_type@));
            r.push(result);
            assert(rest@ =~= all.skip(n + 1));
        }
        r
    }

    /// Combine the results of several searches: the best ones, best first, and no
    /// more than `limit`.
    pub fn combine(results: Vec<SearchResult>, limit: usize) -> (r: Vec<SearchResult>)
        ensures
            r@ == best_first(results@).take(
                vstd::math::min(limit as int, results@.len() as int),
            ),
    {
        let ghost all = results@;
        let mut rest = results;
        let mut keyed: Vec<(Descending, SearchResult)> = Vec::new();
        assert(all.skip(0) =~= all);
        assert(by_score(all).take(0) =~= Seq::empty());
        while rest.len() > 0
            invariant
                keyed@.len() + rest@.len() == all.len(),
                rest@ == all.skip(keyed@.len() as int),
                keyed@ == by_score(all).take(keyed@.len() as int),
            decreases rest@.len(),
        {
            let ghost n = keyed@.len() as int;
            let result = rest.remove(0);
            keyed.push((Descending(result.score.rank), result));
            assert(by_score(all).take(n + 1) =~= by_score(all).take(n).push(by_score(all)[n]));
            assert(rest@ =~= all.skip(n + 1));
        }
        assert(by_score(all).take(keyed@.len() as int) =~= by_score(all));
        let mut sorted = order::sort(keyed);
        proof {
            order::ordered_is_sorted(by_score(all));
        }
        let ghost full = sorted@;
        let mut r: Vec<SearchResult> = Vec::new();
        assert(full.skip(0) =~= full);
        while sorted.len() > 0 && r.len() < limit
            invariant
                r@.len() + sorted@.len() == full.len(),
                r@.len() <= limit,
                sorted@ == full.skip(r@.len() as int),
                r@ == order::seconds(full).take(r@.len() as int),
            decreases sorted@.len(),
        {
            let ghost n = r@.len() as int;
            let next = sorted.remove(0);
            r.push(next.1);
            assert(order::seconds(full).take(n + 1) =~= order::seconds(full).take(n).push(full[n].1));
            assert(sorted@ =~= full.skip(n + 1));
        }
        r
    }
}

// ---------------------------------------------------------------------------
// Laws
// ---------------------------------------------------------------------------

/// The result made from an episode carries that episode's own id, summary, time, tags
/// and score; its importance is held between 0 and 1.
pub proof fn episodic_results_show_their_memory(
    r: SearchResult,
    s: ScoredMemory<EpisodicMemory>,
    memory_type: Seq<char>,
)
    requires
        shows(r, s, memory_type),
    ensures
        r.id@ == s.memory.id@,
        r.memory_type@ == memory_type,
        r.summary@ == s.memory.summary@,
        r.created_at == s.memory.created_at,
        r.score == s.score,
        r.tags@.len() == s.memory.tags@.len(),
        forall|i: int| 0 <= i < r.tags@.len() ==> (#[trigger] r.tags@[i])@ == s.memory.tags@[i]@,
        s.memory.importance <= 0x3f80_0000 ==> r.importance == s.memory.importance,
        0x3f80_0000 < s.memory.importance <= 0x7f80_0000 ==> r.importance == 0x3f80_0000,
        0x8000_0000 < s.memory.importance <= 0xff80_0000 ==> r.importance == 0,
{
    text::same_texts(r.tags@, s.memory.tags@);
}

/// The result made from a decision carries that decision's own id, title, time, tags and
/// score.
pub proof fn decision_results_show_their_memory(
    r: SearchResult,
    s: ScoredMemory<DecisionMemory>,
    memory_type: Seq<char>,
)
    requires
        shows(r, s, memory_type),
    ensures
        r.id@ == s.memory.id@,
        r.memory_type@ == memory_type,
        r.summary@ == s.memory.title@,
        r.created_at == s.memory.created_at,
        r.score == s.score,
        r.tags@.len() == s.memory.tags@.len(),
        forall|i: int| 0 <= i < r.tags@.len() ==> (#[trigger] r.tags@[i])@ == s.memory.tags@[i]@,
        r.importance == 0x3f00_0000,
{
    text::same_texts(r.tags@, s.memory.tags@);
}

/// The result made from a failure carries that failure's own id, incident, time, tags and
/// score; its importance is a fifth of the severity, and no more than 1.
pub proof fn failure_results_show_their_memory(
    r: SearchResult,
    s: ScoredMemory<FailureMemory>,
    memory_type: Seq<char>,
)
    requires
        shows(r, s, memory_type),
    ensures
        r.id@ == s.memory.id@,
        r.memory_type@ == memory_type,
        r.summary@ == s.memory.incident@,
        r.created_at == s.memory.created_at,
        r.score == s.score,
        r.tags@.len() == s.memory.tags@.len(),
        forall|i: int| 0 <= i < r.tags@.len() ==> (#[trigger] r.tags@[i])@ == s.memory.tags@[i]@,
        s.memory.severity == 0 ==> r.importance == 0,
        s.memory.severity == 1 ==> r.importance == 0x3e4c_cccd,
        s.memory.severity == 2 ==> r.importance == 0x3ecc_cccd,
        s.memory.severity == 3 ==> r.importance == 0x3f19_999a,
        s.memory.severity == 4 ==> r.importance == 0x3f4c_cccd,
        s.memory.severity >= 5 ==> r.importance == 0x3f80_0000,
{
    text::same_texts(r.tags@, s.memory.tags@);
}

/// The result made from a procedure carries that procedure's own id, name, time, tags and
/// score.
pub proof fn procedural_results_show_their_memory(
    r: SearchResult,
    s: ScoredMemory<ProceduralMemory>,
    memory_type: Seq<char>,
)
    requires
        shows(r, s, memory_type),
    ensures
        r.id@ == s.memory.id@,
        r.memory_type@ == memory_type,
        r.summary@ == s.memory.workflow_name@,
        r.created_at == s.memory.created_at,
        r.score == s.score,
        r.tags@.len() == s.memory.tags@.len(),
        forall|i: int| 0 <= i < r.tags@.len() ==> (#[trigger] r.tags@[i])@ == s.memory.tags@[i]@,
        r.importance == 0x3f00_0000,
{
    text::same_texts(r.tags@, s.memory.tags@);
}

/// Putting results in order neither drops nor adds one, and puts the higher score first.
pub proof fn best_come_first(s: Seq<SearchResult>)
    ensures
        best_first(s).len() == s.len(),
        best_first(s).to_multiset() == s.to_multiset(),
        forall|i: int, j: int|
            0 <= i < j < s.len() ==> (#[trigger] best_first(s)[i]).score.rank >= (
            #[trigger] best_first(s)[j]).score.rank,
{
    let items = by_score(s);
    let sorted = order::ordered(items);
    order::ordered_is_sorted(items);
    order::ordered_seconds_permutation(items);
    assert(order::seconds(items) =~= s);
    let keyed = |p: (Descending, SearchResult)| p.0.0 == p.1.score.rank;
    order::ordered_keeps(items, keyed);
    assert forall|i: int, j: int| 0 <= i < j < s.len() implies (
    #[trigger] best_first(s)[i]).score.rank >= (#[trigger] best_first(s)[j]).score.rank by {
        assert(!sorted[j].0.lt(&sorted[i].0));
        assert(keyed(sorted[i]) && keyed(sorted[j]));
    }
}

/// Results of the same score stay in the order in which they came.
pub proof fn equals_keep_their_order(s: Seq<SearchResult>, rank: i64)
    ensures
        best_first(s).filter(|r: SearchResult| r.score.rank == rank) == s.filter(
            |r: SearchResult| r.score.rank == rank,
        ),
{
    let items = by_score(s);
    assert(order::seconds(items) =~= s);
    order::ordered_seconds_stable(
        items,
        Descending(rank),
        |r: SearchResult| r.score.rank == rank,
    );
}

} // verus!
