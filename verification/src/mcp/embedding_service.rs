//! Semantic retrieval around the embedding model: which memories are embedded, which
//! vector hits join the results, and when cached vectors are dropped. The vectors
//! themselves are numbers that this library does not compute with.
use crate::cli::search;
use crate::config;
use crate::config::SemanticConfig;
use crate::retrieval::bm25::SearchResult;
use crate::text;
use vstd::prelude::*;

verus! {

// ---------------------------------------------------------------------------
// Rebuilding embeddings
// ---------------------------------------------------------------------------

/// What a reindexing run counted.
#[derive(Clone, Copy, Debug)]
pub struct ReindexReport {
    pub total: usize,
    pub embedded: usize,
    pub skipped: usize,
    pub failed: usize,
    pub dry_run: bool,
}

/// What becomes of one memory in a reindexing run.
#[derive(Clone, Copy, Debug, PartialEq, Eq, Structural)]
pub enum ReindexStep {
    /// It has an embedding already.
    Skip,
    /// It would be embedded.
    Count,
    /// It is to be embedded.
    Embed,
}

/// How one memory ended up in the counts.
#[derive(Clone, Copy, Debug, PartialEq, Eq, Structural)]
pub enum ReindexOutcome {
    Embedded,
    Skipped,
    Failed,
}

/// Memories that have an embedding are skipped unless the run is forced; a dry run
/// embeds nothing.
pub open spec fn reindex_step(known: bool, force: bool, dry_run: bool) -> ReindexStep {
    if !force && known {
        ReindexStep::Skip
    } else if dry_run {
        ReindexStep::Count
    } else {
        ReindexStep::Embed
    }
}

/// Decide on one memory. `already` holds the ids of the memories with an embedding.
pub fn decide_reindex(already: &Vec<String>, id: &str, force: bool, dry_run: bool) -> (r:
    ReindexStep)
    ensures
        r == reindex_step(text::texts(already@).contains(id@), force, dry_run),
{
    if !force && text::has_text(already, id) {
        ReindexStep::Skip
    } else if dry_run {
        ReindexStep::Count
    } else {
        ReindexStep::Embed
    }
}

/// What a memory counts as: `stored` says whether embedding it and storing the vector
/// succeeded.
pub fn reindex_outcome(step: ReindexStep, stored: bool) -> (r: ReindexOutcome)
    ensures
        r == match step {
            ReindexStep::Skip => ReindexOutcome::Skipped,
            ReindexStep::Count => ReindexOutcome::Embedded,
            ReindexStep::Embed => if stored {
                ReindexOutcome::Embedded
            } else {
                ReindexOutcome::Failed
            },
        },
{
    match step {
        ReindexStep::Skip => ReindexOutcome::Skipped,
        ReindexStep::Count => ReindexOutcome::Embedded,
        ReindexStep::Embed => if stored {
            ReindexOutcome::Embedded
        } else {
            ReindexOutcome::Failed
        },
    }
}

impl ReindexReport {
    /// Nothing counted yet.
    pub fn new(dry_run: bool) -> (r: Self)
        ensures
            r.total == 0,
            r.embedded == 0,
            r.skipped == 0,
            r.failed == 0,
            r.dry_run == dry_run,
            r.adds_up(),
    {
        ReindexReport { total: 0, embedded: 0, skipped: 0, failed: 0, dry_run }
    }

    /// Every memory is counted as exactly one of three things.
    pub open spec fn adds_up(&self) -> bool {
        self.total == self.embedded + self.skipped + self.failed
    }

    /// Count one memory. One that fails never stops the run.
    pub fn record(&mut self, outcome: ReindexOutcome)
        requires
            old(self).adds_up(),
            old(self).total < usize::MAX,
        ensures
            final(self).adds_up(),
            final(self).total == old(self).total + 1,
            final(self).embedded == old(self).embedded + if outcome == ReindexOutcome::Embedded {
                1int
            } else {
                0
            },
            final(self).skipped == old(self).skipped + if outcome == ReindexOutcome::Skipped {
                1int
            } else {
                0
            },
            final(self).failed == old(self).failed + if outcome == ReindexOutcome::Failed {
                1int
            } else {
                0
            },
            final(self).dry_run == old(self).dry_run,
    {
        self.total = self.total + 1;
        match outcome {
            ReindexOutcome::Embedded => {
                self.embedded = self.embedded + 1;
            },
            ReindexOutcome::Skipped => {
                self.skipped = self.skipped + 1;
            },
            ReindexOutcome::Failed => {
                self.failed = self.failed + 1;
            },
        }
    }
}

/// A second run, without force, over memories that have their embeddings embeds
/// nothing.
pub proof fn reindexing_again_skips(dry_run: bool)
    ensures
        reindex_step(true, false, dry_run) == ReindexStep::Skip,
{
}

/// The message of a run without a model.
pub fn inactive_message() -> (r: &'static str)
    ensures
        r@
            == "semantic search is not active: enable [semantic] in ~/.engram/config.toml and ensure the model is available"@,
{
    "semantic search is not active: enable [semantic] in ~/.engram/config.toml and ensure the model is available"
}

// ---------------------------------------------------------------------------
// The model
// ---------------------------------------------------------------------------

/// Where the model comes from.
#[derive(Debug)]
pub enum ModelPlan {
    Disabled,
    /// It lies in a directory that the user provides, and nothing is fetched.
    Local(String),
    /// It is fetched into this directory if it is not there.
    Fetched(String),
}

pub enum ModelPlanView {
    Disabled,
    Local(Seq<char>),
    Fetched(Seq<char>),
}

impl View for ModelPlan {
    type V = ModelPlanView;

    open spec fn view(&self) -> ModelPlanView {
        match *self {
            ModelPlan::Disabled => ModelPlanView::Disabled,
            ModelPlan::Local(d) => ModelPlanView::Local(d@),
            ModelPlan::Fetched(d) => ModelPlanView::Fetched(d@),
        }
    }
}

/// The plan for the model: models that are fetched lie below the home directory, under
/// the last part of their id.
pub open spec fn model_plan_of(c: SemanticConfig, home: Seq<char>) -> ModelPlanView {
    if !c.enabled {
        ModelPlanView::Disabled
    } else {
        match text::opt_text(c.model_path) {
            Some(dir) => ModelPlanView::Local(dir),
            None => ModelPlanView::Fetched(
                config::joined_path(
                    config::joined_path(home, ".engram/models"@),
                    text::split(c.model_id@, '/').last(),
                ),
            ),
        }
    }
}

/// Plan where the model comes from. `home` is empty where the home directory is not
/// known.
pub fn model_plan(c: &SemanticConfig, home: &str) -> (r: ModelPlan)
    ensures
        r@ == model_plan_of(*c, home@),
{
    if !c.enabled {
        return ModelPlan::Disabled;
    }
    match &c.model_path {
        Some(dir) => ModelPlan::Local(dir.clone()),
        None => {
            let parts = text::split_at_char(c.model_id.as_str(), '/');
            proof {
                text::split_is_not_empty(c.model_id@, '/');
                assert(text::texts(parts@).len() == parts@.len());
            }
            let n: usize = parts.len();
            assert(text::texts(parts@)[n - 1] == parts@[n - 1]@);
            let dir = config::join_path(home, ".engram/models");
            ModelPlan::Fetched(config::join_path(dir.as_str(), parts[n - 1].as_str()))
        },
    }
}

// ---------------------------------------------------------------------------
// Fusion
// ---------------------------------------------------------------------------

/// Some result has an id.
pub open spec fn holds_id(pool: Seq<SearchResult>, id: Seq<char>) -> bool {
    exists|i: int| 0 <= i < pool.len() && (#[trigger] pool[i]).id@ == id
}

/// The vector hits that are not among the results, each with its type and id.
pub open spec fn missing_of(
    hits: Seq<(String, String)>,
    results: Seq<SearchResult>,
) -> Seq<(Seq<char>, Seq<char>)>
    decreases hits.len(),
{
    if hits.len() == 0 {
        Seq::empty()
    } else {
        let before = missing_of(hits.drop_last(), results);
        let (id, ty) = hits.last();
        if holds_id(results, id@) {
            before
        } else {
            before.push((ty@, id@))
        }
    }
}

pub open spec fn pair_views(v: Seq<(String, String)>) -> Seq<(Seq<char>, Seq<char>)> {
    Seq::new(v.len(), |i: int| (v[i].0@, v[i].1@))
}

fn has_id(pool: &Vec<SearchResult>, id: &str) -> (r: bool)
    ensures
        r == holds_id(pool@, id@),
{
    let mut i: usize = 0;
    while i < pool.len()
        invariant
            i <= pool@.len(),
            forall|k: int| 0 <= k < i ==> (#[trigger] pool@[k]).id@ != id@,
        decreases pool@.len() - i,
    {
        if text::same(pool[i].id.as_str(), id) {
            return true;
        }
        i = i + 1;
    }
    false
}

/// The vector hits (id and type) that have to be fetched, as type and id.
pub fn missing_hits(hits: &Vec<(String, String)>, results: &Vec<SearchResult>) -> (r: Vec<
    (String, String),
>)
    ensures
        pair_views(r@) == missing_of(hits@, results@),
{
    let ghost all = hits@;
    let mut r: Vec<(String, String)> = Vec::new();
    let mut i: usize = 0;
    assert(all.take(0) =~= Seq::empty());
    assert(pair_views(r@) =~= Seq::empty());
    while i < hits.len()
        invariant
            i <= hits@.len(),
            all == hits@,
            pair_views(r@) == missing_of(all.take(i as int), results@),
        decreases hits@.len() - i,
    {
        assert(all.take(i + 1).drop_last() =~= all.take(i as int));
        assert(all.take(i + 1).last() == hits@[i as int]);
        if !has_id(results, hits[i].0.as_str()) {
            let ghost before = pair_views(r@);
            r.push((hits[i].1.clone(), hits[i].0.clone()));
            assert(pair_views(r@) =~= before.push((hits@[i as int].1@, hits@[i as int].0@)));
        }
        i = i + 1;
    }
    assert(all.take(i as int) =~= all);
    r
}

/// A fetched memory passes the caller's filters, as the other results did.
pub open spec fn passes_filters(
    r: SearchResult,
    memory_type: Option<Seq<char>>,
    wanted: Seq<Seq<char>>,
    before: Option<i64>,
) -> bool {
    &&& match memory_type {
        Some(t) => r.memory_type@ == t,
        None => true,
    }
    &&& search::passes(text::texts(r.tags@), r.created_at as int, wanted, before)
}

/// The results with those of the fetched memories added that pass the filters and are
/// not among them yet.
pub open spec fn enriched(
    results: Seq<SearchResult>,
    fetched: Seq<SearchResult>,
    memory_type: Option<Seq<char>>,
    wanted: Seq<Seq<char>>,
    before: Option<i64>,
) -> Seq<SearchResult>
    decreases fetched.len(),
{
    if fetched.len() == 0 {
        results
    } else {
        let so_far = enriched(results, fetched.drop_last(), memory_type, wanted, before);
        let r = fetched.last();
        if passes_filters(r, memory_type, wanted, before) && !holds_id(so_far, r.id@) {
            so_far.push(r)
        } else {
            so_far
        }
    }
}

/// Add the fetched memories that pass the filters to the results: the vector path does
/// not get around them.
pub fn enrich(
    results: Vec<SearchResult>,
    fetched: Vec<SearchResult>,
    memory_type: Option<&str>,
    tags: &Vec<String>,
    before: Option<i64>,
) -> (r: Vec<SearchResult>)
    ensures
        r@ == enriched(
            results@,
            fetched@,
            text::opt_str(memory_type),
            text::texts(tags@),
            before,
        ),
{
    let ghost all = fetched@;
    let ghost wanted_type = text::opt_str(memory_type);
    let ghost wanted = text::texts(tags@);
    let mut rest = fetched;
    let mut r = results;
    let ghost mut done: int = 0;
    assert(all.skip(0) =~= all);
    assert(all.take(0) =~= Seq::empty());
    while rest.len() > 0
        invariant
            0 <= done <= all.len(),
            rest@ == all.skip(done),
            wanted_type == text::opt_str(memory_type),
            wanted == text::texts(tags@),
            r@ == enriched(results@, all.take(done), wanted_type, wanted, before),
        decreases rest@.len(),
    {
        let m = rest.remove(0);
        proof {
            assert(m == all[done]);
            assert(all.take(done + 1).drop_last() =~= all.take(done));
            assert(all.take(done + 1).last() == m);
        }
        let type_ok = match memory_type {
            Some(t) => text::same(m.memory_type.as_str(), t),
            None => true,
        };
        if type_ok && search::matches_filters(&m.tags, m.created_at, tags, before) && !has_id(
            &r,
            m.id.as_str(),
        ) {
            r.push(m);
        }
        proof {
            assert(rest@ =~= all.skip(done + 1));
            done = done + 1;
        }
    }
    assert(all.take(done) =~= all);
    r
}

/// Where a result with an id stands.
pub open spec fn place_of(pool: Seq<SearchResult>, id: Seq<char>) -> Option<int> {
    text::position(Seq::new(pool.len(), |i: int| pool[i].id@), id)
}

/// What is picked from a pool in the order of ids, and what is left.
pub open spec fn picked(ids: Seq<Seq<char>>, pool: Seq<SearchResult>) -> (
    Seq<SearchResult>,
    Seq<SearchResult>,
)
    decreases ids.len(),
{
    if ids.len() == 0 {
        (Seq::empty(), pool)
    } else {
        let (taken, left) = picked(ids.drop_last(), pool);
        match place_of(left, ids.last()) {
            Some(i) => (taken.push(left[i]), left.remove(i)),
            None => (taken, left),
        }
    }
}

fn find_result(pool: &Vec<SearchResult>, id: &str) -> (r: Option<usize>)
    ensures
        match r {
            Some(i) => i < pool@.len() && place_of(pool@, id@) == Some(i as int),
            None => place_of(pool@, id@) is None,
        },
{
    let ghost ids = Seq::new(pool@.len(), |i: int| pool@[i].id@);
    proof {
        text::position_is_first(ids, id@);
    }
    let mut i: usize = 0;
    while i < pool.len()
        invariant
            i <= pool@.len(),
            ids == Seq::new(pool@.len(), |i: int| pool@[i].id@),
            forall|k: int| 0 <= k < i ==> #[trigger] ids[k] != id@,
        decreases pool@.len() - i,
    {
        assert(ids[i as int] == pool@[i as int].id@);
        if text::same(pool[i].id.as_str(), id) {
            proof {
                text::position_is_first(ids, id@);
            }
            return Some(i);
        }
        i = i + 1;
    }
    None
}

/// Put results in the order of fused ids. Ids without a result are passed over, and
/// results that no id names are dropped.
pub fn pick_in_order(ids: &Vec<String>, pool: Vec<SearchResult>) -> (r: Vec<SearchResult>)
    ensures
        r@ == picked(text::texts(ids@), pool@).0,
{
    let ghost all = text::texts(ids@);
    let ghost start = pool@;
    let mut left = pool;
    let mut taken: Vec<SearchResult> = Vec::new();
    let mut i: usize = 0;
    assert(all.take(0) =~= Seq::empty());
    while i < ids.len()
        invariant
            i <= ids@.len(),
            all == text::texts(ids@),
            picked(all.take(i as int), start) == (taken@, left@),
        decreases ids@.len() - i,
    {
        assert(all.take(i + 1).drop_last() =~= all.take(i as int));
        assert(all.take(i + 1).last() == ids@[i as int]@);
        match find_result(&left, ids[i].as_str()) {
            Some(k) => {
                let m = left.remove(k);
                taken.push(m);
            },
            None => {},
        }
        i = i + 1;
    }
    assert(all.take(i as int) =~= all);
    taken
}

/// No memory of another type than the one asked for joins the results.
pub proof fn explicit_types_hold(
    results: Seq<SearchResult>,
    fetched: Seq<SearchResult>,
    memory_type: Seq<char>,
    wanted: Seq<Seq<char>>,
    before: Option<i64>,
    i: int,
)
    requires
        results.len() <= i < enriched(results, fetched, Some(memory_type), wanted, before).len(),
    ensures
        passes_filters(
            enriched(results, fetched, Some(memory_type), wanted, before)[i],
            Some(memory_type),
            wanted,
            before,
        ),
    decreases fetched.len(),
{
    if fetched.len() > 0 {
        let so_far = enriched(results, fetched.drop_last(), Some(memory_type), wanted, before);
        if i < so_far.len() {
            explicit_types_hold(
                results,
                fetched.drop_last(),
                memory_type,
                wanted,
                before,
                i,
            );
        }
    }
}

/// No result is lost when memories join: the ones that were there come first.
pub proof fn enriching_keeps_results(
    results: Seq<SearchResult>,
    fetched: Seq<SearchResult>,
    memory_type: Option<Seq<char>>,
    wanted: Seq<Seq<char>>,
    before: Option<i64>,
)
    ensures
        results.len() <= enriched(results, fetched, memory_type, wanted, before).len(),
        enriched(results, fetched, memory_type, wanted, before).take(results.len() as int)
            == results,
    decreases fetched.len(),
{
    if fetched.len() > 0 {
        enriching_keeps_results(results, fetched.drop_last(), memory_type, wanted, before);
        let so_far = enriched(results, fetched.drop_last(), memory_type, wanted, before);
        let now = enriched(results, fetched, memory_type, wanted, before);
        assert(now.take(results.len() as int) =~= so_far.take(results.len() as int));
    } else {
        assert(results.take(results.len() as int) =~= results);
    }
}

// ---------------------------------------------------------------------------
// Cached vectors
// ---------------------------------------------------------------------------

/// Cached vectors, one entry for each project and model. `T` stands for the vectors.
pub struct VectorCache<T> {
    entries: Vec<(String, String, T)>,
}

/// The keys of a cache with what they hold.
pub open spec fn entry_views<T>(v: Seq<(String, String, T)>) -> Seq<((Seq<char>, Seq<char>), T)> {
    Seq::new(v.len(), |i: int| ((v[i].0@, v[i].1@), v[i].2))
}

/// The newest entry under a key.
pub open spec fn cached<T>(s: Seq<((Seq<char>, Seq<char>), T)>, key: (Seq<char>, Seq<char>)) -> Option<
    T,
>
    decreases s.len(),
{
    if s.len() == 0 {
        None
    } else if s.last().0 == key {
        Some(s.last().1)
    } else {
        cached(s.drop_last(), key)
    }
}

/// The entries of other projects.
pub open spec fn retained<T>(s: Seq<((Seq<char>, Seq<char>), T)>, project: Seq<char>) -> Seq<
    ((Seq<char>, Seq<char>), T),
>
    decreases s.len(),
{
    if s.len() == 0 {
        Seq::empty()
    } else if s.last().0.0 == project {
        retained(s.drop_last(), project)
    } else {
        retained(s.drop_last(), project).push(s.last())
    }
}

impl<T> View for VectorCache<T> {
    type V = Seq<((Seq<char>, Seq<char>), T)>;

    closed spec fn view(&self) -> Seq<((Seq<char>, Seq<char>), T)> {
        entry_views(self.entries@)
    }
}

impl<T> VectorCache<T> {
    pub fn new() -> (r: Self)
        ensures
            r@ == Seq::<((Seq<char>, Seq<char>), T)>::empty(),
    {
        let r = VectorCache { entries: Vec::new() };
        assert(r@ =~= Seq::empty());
        r
    }

    /// The vectors of a project under a model, if they are cached.
    pub fn get(&self, project_id: &str, model_id: &str) -> (r: Option<&T>)
        ensures
            match r {
                Some(v) => cached(self@, (project_id@, model_id@)) == Some(*v),
                None => cached(self@, (project_id@, model_id@)) is None,
            },
    {
        let ghost all = self@;
        let ghost key = (project_id@, model_id@);
        let mut i: usize = self.entries.len();
        assert(all.take(i as int) =~= all);
        while i > 0
            invariant
                i <= self.entries@.len(),
                all == entry_views(self.entries@),
                key == (project_id@, model_id@),
                cached(all, key) == cached(all.take(i as int), key),
            decreases i,
        {
            let e = &self.entries[i - 1];
            assert(all.take(i as int).last() == all[i - 1]);
            assert(all.take(i as int).drop_last() =~= all.take(i - 1));
            if text::same(e.0.as_str(), project_id) && text::same(e.1.as_str(), model_id) {
                return Some(&e.2);
            }
            i = i - 1;
        }
        None
    }

    /// Cache the vectors of a project under a model.
    pub fn insert(&mut self, project_id: &str, model_id: &str, vectors: T)
        ensures
            final(self)@ == old(self)@.push(((project_id@, model_id@), vectors)),
    {
        let ghost before = self@;
        self.entries.push((project_id.to_owned(), model_id.to_owned(), vectors));
        assert(self@ =~= before.push(((project_id@, model_id@), vectors)));
    }

    /// Drop the cached vectors of a project, after any write that can change them, or
    /// all of them.
    pub fn invalidate_vectors(&mut self, project: Option<&str>)
        ensures
            final(self)@ == match text::opt_str(project) {
                Some(p) => retained(old(self)@, p),
                None => Seq::empty(),
            },
    {
        let ghost all = self@;
        let p = match project {
            Some(p) => p,
            None => {
                self.entries = Vec::new();
                assert(self@ =~= Seq::empty());
                return;
            },
        };
        let ghost start = self.entries@;
        let mut kept: Vec<(String, String, T)> = Vec::new();
        let ghost mut done: int = 0;
        assert(start.skip(0) =~= start);
        assert(all.take(0) =~= Seq::empty());
        assert(entry_views(kept@) =~= Seq::empty());
        while self.entries.len() > 0
            invariant
                0 <= done <= start.len(),
                all == entry_views(start),
                self.entries@ == start.skip(done),
                entry_views(kept@) == retained(all.take(done), p@),
            decreases self.entries@.len(),
        {
            let e = self.entries.remove(0);
            proof {
                assert(e == start[done]);
                assert(all.take(done + 1).drop_last() =~= all.take(done));
                assert(all.take(done + 1).last() == all[done]);
            }
            if !text::same(e.0.as_str(), p) {
                let ghost before = entry_views(kept@);
                kept.push(e);
                assert(entry_views(kept@) =~= before.push(all[done]));
            }
            proof {
                assert(self.entries@ =~= start.skip(done + 1));
                done = done + 1;
            }
        }
        assert(all.take(done) =~= all);
        self.entries = kept;
    }
}

/// What was cached is found again.
pub proof fn cached_vectors_are_found<T>(
    s: Seq<((Seq<char>, Seq<char>), T)>,
    key: (Seq<char>, Seq<char>),
    v: T,
)
    ensures
        cached(s.push((key, v)), key) == Some(v),
{
}

/// Dropping a project's vectors drops them under every model and leaves those of other
/// projects alone.
pub proof fn invalidation_is_by_project<T>(
    s: Seq<((Seq<char>, Seq<char>), T)>,
    project: Seq<char>,
    key: (Seq<char>, Seq<char>),
)
    ensures
        cached(retained(s, project), key) == if key.0 == project {
            None
        } else {
            cached(s, key)
        },
    decreases s.len(),
{
    if s.len() > 0 {
        invalidation_is_by_project(s.drop_last(), project, key);
        let before = retained(s.drop_last(), project);
        if s.last().0.0 != project {
            assert(before.push(s.last()).drop_last() =~= before);
        }
    }
}

// ---------------------------------------------------------------------------
// What is fetched, added and put in order
// ---------------------------------------------------------------------------

/// Every vector hit that no result stands for is fetched, in the order of the hits, and no
/// other.
pub proof fn missing_hits_are_all_fetched(
    hits: Seq<(String, String)>,
    results: Seq<SearchResult>,
)
    ensures
        missing_of(hits, results) == hits.filter(
            |h: (String, String)|
                forall|i: int| 0 <= i < results.len() ==> (#[trigger] results[i]).id@ != h.0@,
        ).map_values(|h: (String, String)| (h.1@, h.0@)),
    decreases hits.len(),
{
    reveal(Seq::filter);
    let lacks = |h: (String, String)|
        forall|i: int| 0 <= i < results.len() ==> (#[trigger] results[i]).id@ != h.0@;
    let turned = |h: (String, String)| (h.1@, h.0@);
    if hits.len() > 0 {
        let rest = hits.drop_last();
        let h = hits.last();
        missing_hits_are_all_fetched(rest, results);
        assert(lacks(h) == !holds_id(results, h.0@));
        assert(rest.filter(lacks).push(h).map_values(turned) =~= rest.filter(lacks).map_values(
            turned,
        ).push(turned(h)));
    } else {
        assert(missing_of(hits, results) =~= hits.filter(lacks).map_values(turned));
    }
}

/// A memory passes the filters where it is of the type asked for, carries one of the tags
/// asked for, and was made before the time given, each where it is asked for.
pub proof fn filters_are_all_applied(
    r: SearchResult,
    memory_type: Option<Seq<char>>,
    wanted: Seq<Seq<char>>,
    before: Option<i64>,
)
    ensures
        passes_filters(r, memory_type, wanted, before) <==> {
            &&& memory_type matches Some(t) ==> r.memory_type@ == t
            &&& wanted.len() > 0 ==> exists|i: int|
                0 <= i < r.tags@.len() && wanted.contains((#[trigger] r.tags@[i])@)
            &&& before matches Some(b) ==> r.created_at < b
        },
{
    let tags = text::texts(r.tags@);
    assert(tags.len() == r.tags@.len());
    if search::share_text(tags, wanted) {
        let i = choose|i: int| 0 <= i < tags.len() && wanted.contains(#[trigger] tags[i]);
        assert(tags[i] == r.tags@[i]@);
        assert(wanted.contains(r.tags@[i]@));
    }
    if exists|i: int| 0 <= i < r.tags@.len() && wanted.contains((#[trigger] r.tags@[i])@) {
        let i = choose|i: int| 0 <= i < r.tags@.len() && wanted.contains((#[trigger] r.tags@[i])@);
        assert(tags[i] == r.tags@[i]@);
        assert(wanted.contains(tags[i]));
    }
}

/// Every fetched memory that passes the filters is among the results in the end, and what
/// was added was fetched and passes them.
pub proof fn passing_memories_join(
    results: Seq<SearchResult>,
    fetched: Seq<SearchResult>,
    memory_type: Option<Seq<char>>,
    wanted: Seq<Seq<char>>,
    before: Option<i64>,
)
    ensures
        ({
            let all = enriched(results, fetched, memory_type, wanted, before);
            &&& forall|k: int|
                0 <= k < fetched.len() && passes_filters(
                    #[trigger] fetched[k],
                    memory_type,
                    wanted,
                    before,
                ) ==> exists|i: int| 0 <= i < all.len() && (#[trigger] all[i]).id@ == fetched[k].id@
            &&& forall|i: int|
                results.len() <= i < all.len() ==> fetched.contains(#[trigger] all[i])
                    && passes_filters(all[i], memory_type, wanted, before)
        }),
    decreases fetched.len(),
{
    let all = enriched(results, fetched, memory_type, wanted, before);
    if fetched.len() > 0 {
        let rest = fetched.drop_last();
        let r = fetched.last();
        let so_far = enriched(results, rest, memory_type, wanted, before);
        passing_memories_join(results, rest, memory_type, wanted, before);
        assert forall|k: int|
            0 <= k < fetched.len() && passes_filters(
                #[trigger] fetched[k],
                memory_type,
                wanted,
                before,
            ) implies exists|i: int|
            0 <= i < all.len() && (#[trigger] all[i]).id@ == fetched[k].id@ by {
            if k < rest.len() {
                assert(rest[k] == fetched[k]);
                let i = choose|i: int|
                    0 <= i < so_far.len() && (#[trigger] so_far[i]).id@ == rest[k].id@;
                assert(all[i].id@ == fetched[k].id@);
            } else if holds_id(so_far, r.id@) {
                let i = choose|i: int| 0 <= i < so_far.len() && (#[trigger] so_far[i]).id@ == r.id@;
                assert(all[i].id@ == fetched[k].id@);
            } else {
                assert(all[so_far.len() as int].id@ == fetched[k].id@);
            }
        }
        assert forall|i: int| results.len() <= i < all.len() implies fetched.contains(
            #[trigger] all[i],
        ) && passes_filters(all[i], memory_type, wanted, before) by {
            if i < so_far.len() {
                assert(all[i] == so_far[i]);
                let m = choose|m: int| 0 <= m < rest.len() && rest[m] == so_far[i];
                assert(fetched[m] == all[i]);
            } else {
                assert(fetched[fetched.len() - 1] == all[i]);
            }
        }
    }
}

/// No two results share an id.
pub open spec fn own_ids(pool: Seq<SearchResult>) -> bool {
    forall|i: int, j: int|
        0 <= i < j < pool.len() ==> (#[trigger] pool[i]).id@ != (#[trigger] pool[j]).id@
}

/// Results are put in the order of the ids: of the ids that some result has, each gets its
/// result, in their order.
pub proof fn results_follow_the_ids(ids: Seq<Seq<char>>, pool: Seq<SearchResult>)
    requires
        ids.no_duplicates(),
        own_ids(pool),
    ensures
        picked(ids, pool).0.map_values(|r: SearchResult| r.id@) == ids.filter(
            |id: Seq<char>| exists|i: int| 0 <= i < pool.len() && (#[trigger] pool[i]).id@ == id,
        ),
        forall|i: int|
            0 <= i < picked(ids, pool).0.len() ==> pool.contains(
                #[trigger] picked(ids, pool).0[i],
            ),
    decreases ids.len(),
{
    picking(ids, pool);
}

proof fn picking(ids: Seq<Seq<char>>, pool: Seq<SearchResult>)
    requires
        ids.no_duplicates(),
        own_ids(pool),
    ensures
        picked(ids, pool).0.map_values(|r: SearchResult| r.id@) == ids.filter(
            |id: Seq<char>| exists|i: int| 0 <= i < pool.len() && (#[trigger] pool[i]).id@ == id,
        ),
        forall|i: int|
            0 <= i < picked(ids, pool).0.len() ==> pool.contains(
                #[trigger] picked(ids, pool).0[i],
            ),
        own_ids(picked(ids, pool).1),
        forall|id: Seq<char>|
            !ids.contains(id) ==> (#[trigger] holds_id(picked(ids, pool).1, id) <==> holds_id(
                pool,
                id,
            )),
        forall|i: int|
            0 <= i < picked(ids, pool).1.len() ==> pool.contains(
                #[trigger] picked(ids, pool).1[i],
            ),
    decreases ids.len(),
{
    reveal(Seq::filter);
    let held = |id: Seq<char>| exists|i: int|
        0 <= i < pool.len() && (#[trigger] pool[i]).id@ == id;
    let id_of = |r: SearchResult| r.id@;
    let (now, now_left) = picked(ids, pool);
    if ids.len() > 0 {
        let rest = ids.drop_last();
        let id = ids.last();
        assert(!rest.contains(id)) by {
            if rest.contains(id) {
                let k = choose|k: int| 0 <= k < rest.len() && rest[k] == id;
                assert(ids[k] == ids[ids.len() - 1]);
            }
        }
        assert(rest.no_duplicates()) by {
            assert forall|i: int, j: int|
                0 <= i < rest.len() && 0 <= j < rest.len() && i != j implies rest[i] != rest[j] by {
                assert(ids[i] != ids[j]);
            }
        }
        picking(rest, pool);
        let (taken, left) = picked(rest, pool);
        let names = Seq::new(left.len(), |i: int| left[i].id@);
        text::position_is_first(names, id);
        assert(held(id) == holds_id(pool, id));
        assert(holds_id(left, id) <==> holds_id(pool, id));
        match place_of(left, id) {
            Some(p) => {
                assert(names[p] == left[p].id@);
                assert(holds_id(left, id));
                assert(taken.push(left[p]).map_values(id_of) =~= taken.map_values(id_of).push(id));
                assert forall|i: int| 0 <= i < now.len() implies pool.contains(
                    #[trigger] now[i],
                ) by {
                    if i < taken.len() {
                        assert(now[i] == taken[i]);
                    } else {
                        assert(pool.contains(left[p]));
                    }
                }
                assert forall|i: int| 0 <= i < now_left.len() implies pool.contains(
                    #[trigger] now_left[i],
                ) by {
                    if i < p {
                        assert(now_left[i] == left[i]);
                    } else {
                        assert(now_left[i] == left[i + 1]);
                    }
                }
                assert forall|i: int, j: int| 0 <= i < j < now_left.len() implies (
                #[trigger] now_left[i]).id@ != (#[trigger] now_left[j]).id@ by {
                    let a = if i < p { i } else { i + 1 };
                    let b = if j < p { j } else { j + 1 };
                    assert(left[a].id@ != left[b].id@);
                }
                assert forall|x: Seq<char>| !ids.contains(x) implies (#[trigger] holds_id(
                    now_left,
                    x,
                ) <==> holds_id(pool, x)) by {
                    assert(ids[ids.len() - 1] == id);
                    assert(x != id);
                    assert(!rest.contains(x)) by {
                        if rest.contains(x) {
                            let k = choose|k: int| 0 <= k < rest.len() && rest[k] == x;
                            assert(ids[k] == x);
                        }
                    }
                    assert(holds_id(left, x) <==> holds_id(pool, x));
                    if holds_id(left, x) {
                        let k = choose|k: int| 0 <= k < left.len() && (#[trigger] left[k]).id@ == x;
                        if k < p {
                            assert(now_left[k].id@ == x);
                        } else {
                            assert(now_left[k - 1].id@ == x);
                        }
                    }
                    if holds_id(now_left, x) {
                        let k = choose|k: int|
                            0 <= k < now_left.len() && (#[trigger] now_left[k]).id@ == x;
                        let m = if k < p { k } else { k + 1 };
                        assert(left[m].id@ == x);
                    }
                }
            },
            None => {
                assert(!holds_id(left, id)) by {
                    if holds_id(left, id) {
                        let k = choose|k: int| 0 <= k < left.len() && (#[trigger] left[k]).id@ == id;
                        assert(names[k] == id);
                    }
                }
                assert forall|x: Seq<char>| !ids.contains(x) implies (#[trigger] holds_id(
                    now_left,
                    x,
                ) <==> holds_id(pool, x)) by {
                    assert(!rest.contains(x)) by {
                        if rest.contains(x) {
                            let k = choose|k: int| 0 <= k < rest.len() && rest[k] == x;
                            assert(ids[k] == x);
                        }
                    }
                }
            },
        }
    } else {
        assert(now.map_values(id_of) =~= ids.filter(held));
        assert forall|i: int| 0 <= i < now_left.len() implies pool.contains(
            #[trigger] now_left[i],
        ) by {
            assert(now_left[i] == pool[i]);
        }
    }
}

/// The newest vectors under a key are found, other keys are not in the way, and dropping a
/// project keeps all entries of the others.
pub proof fn the_newest_vectors_are_found<T>(
    s: Seq<((Seq<char>, Seq<char>), T)>,
    key: (Seq<char>, Seq<char>),
    other: (Seq<char>, Seq<char>),
    v: T,
)
    ensures
        cached(Seq::<((Seq<char>, Seq<char>), T)>::empty(), key) is None,
        cached(s.push((key, v)), key) == Some(v),
        other != key ==> cached(s.push((other, v)), key) == cached(s, key),
        retained(s, key.0) == s.filter(|e: ((Seq<char>, Seq<char>), T)| (e.0).0 != key.0),
    decreases s.len(),
{
    reveal(Seq::filter);
    assert(s.push((key, v)).drop_last() =~= s);
    assert(s.push((other, v)).drop_last() =~= s);
    if s.len() > 0 {
        the_newest_vectors_are_found(s.drop_last(), key, other, v);
    }
}

/// A memory is embedded just where it has no vector yet or the run is forced, and never on
/// a dry run.
pub proof fn reindexing_fills_the_gaps(known: bool, force: bool, dry_run: bool)
    ensures
        reindex_step(known, force, dry_run) == ReindexStep::Embed <==> (!known || force)
            && !dry_run,
        reindex_step(known, force, dry_run) == ReindexStep::Count <==> (!known || force) && dry_run,
        reindex_step(known, force, dry_run) == ReindexStep::Skip <==> known && !force,
{
}

/// A model is used only where it is enabled: from the directory given, or else from one
/// below the home directory under the last part of its name.
pub proof fn models_come_from_where_they_are_configured(
    c: SemanticConfig,
    home: Seq<char>,
    owner: Seq<char>,
    name: Seq<char>,
)
    requires
        !name.contains('/'),
        c.model_id@ == owner + seq!['/'] + name,
    ensures
        !c.enabled ==> model_plan_of(c, home) == ModelPlanView::Disabled,
        c.enabled && c.model_path is Some ==> model_plan_of(c, home) == ModelPlanView::Local(
            c.model_path->0@,
        ),
        c.enabled && c.model_path is None ==> model_plan_of(c, home) == ModelPlanView::Fetched(
            config::joined_path(config::joined_path(home, ".engram/models"@), name),
        ),
{
    let front = owner + seq!['/'];
    assert(c.model_id@ =~= front + name);
    text::split_behind_separator(front, name, '/');
    text::split_without_separator(name, '/');
    assert(text::split(c.model_id@, '/').last() == name);
}

} // verus!
