//! What the tools decide: which search is run, which memories are made, what is
//! answered. Whoever serves the tools reads and writes the database in between.
use crate::answers;
use crate::collectors;
use crate::collectors::{CollectOptions, Dimension};
use crate::config::{Config, Real};
use crate::consolidation::engine;
use crate::consolidation::engine::{ConsolidationGroup, ConsolidationPlan};
use crate::context::composer;
use crate::context::composer::{ContextBudget, ContextComposer};
use crate::json;
use crate::json::{Json, JsonView};
use crate::mcp::tools::Tool;
use crate::models::kind;
use crate::models::{
    DecisionMemory, EpisodicMemory, FailureMemory, MemoryIntent, MemoryKind, ProceduralMemory,
};
use crate::retrieval::bm25::SearchResult;
use crate::retrieval::intent_classifier;
use crate::retrieval::intent_classifier::IntentClassifier;
use crate::retrieval::planner;
use crate::retrieval::planner::{RetrievalPlan, RetrievalPlanner};
use crate::text;
use vstd::prelude::*;

verus! {

// ---------------------------------------------------------------------------
// Inputs
// ---------------------------------------------------------------------------

/// Input of `search_memory`.
#[derive(Debug)]
pub struct SearchMemoryInput {
    pub project_id: String,
    pub query: String,
    pub memory_type: Option<String>,
    /// The configured default where it is missing.
    pub limit: Option<usize>,
}

/// Input of `related_files`.
#[derive(Debug)]
pub struct RelatedFilesInput {
    pub project_id: String,
    pub file: String,
}

/// Input of `timeline`.
#[derive(Debug)]
pub struct TimelineInput {
    pub project_id: String,
    pub days: i64,
}

/// Input of `recent_failures`.
#[derive(Debug)]
pub struct RecentFailuresInput {
    pub project_id: String,
    pub service: Option<String>,
    /// The configured default where it is missing.
    pub limit: Option<usize>,
}

/// Input of `architectural_decisions`.
#[derive(Debug)]
pub struct ArchitecturalDecisionsInput {
    pub project_id: String,
    pub topic: Option<String>,
    /// The configured default where it is missing.
    pub limit: Option<usize>,
}

/// Input of `query_stats`.
#[derive(Debug)]
pub struct QueryStatsInput {
    pub project_id: String,
    pub days: i64,
    /// The configured default where it is missing.
    pub limit: Option<usize>,
}

/// Input of `create_episodic`.
#[derive(Debug)]
pub struct CreateEpisodicInput {
    pub project_id: String,
    pub session_id: String,
    pub summary: String,
    pub content: String,
    pub files_touched: Vec<String>,
    pub related_commits: Vec<String>,
    pub importance: Real,
    pub tags: Vec<String>,
}

/// Input of `create_decision`.
#[derive(Debug)]
pub struct CreateDecisionInput {
    pub project_id: String,
    pub title: String,
    pub context: String,
    pub rationale: String,
    pub tradeoffs: String,
    pub related_files: Vec<String>,
    pub tags: Vec<String>,
}

/// Input of `create_failure`.
#[derive(Debug)]
pub struct CreateFailureInput {
    pub project_id: String,
    pub incident: String,
    pub root_cause: String,
    pub fix: String,
    pub prevention: String,
    pub severity: u8,
    pub tags: Vec<String>,
}

/// Input of `create_procedural`.
#[derive(Debug)]
pub struct CreateProceduralInput {
    pub project_id: String,
    pub workflow_name: String,
    pub steps: Vec<String>,
    pub related_tools: Vec<String>,
    pub tags: Vec<String>,
}

/// Input of `ingest_commits`.
#[derive(Debug)]
pub struct IngestCommitsInput {
    pub project_id: String,
    pub repo_path: String,
    pub count: usize,
    pub session_id: Option<String>,
}

/// Input of `collect_sources`.
#[derive(Debug)]
pub struct CollectSourcesInput {
    pub project_id: String,
    pub repo_path: String,
    /// Comma-separated list of dimensions; all of them where it is missing or empty.
    pub dimensions: Option<String>,
    pub max_commits: usize,
}

/// Input of `forget_memory`.
#[derive(Debug)]
pub struct ForgetMemoryInput {
    pub project_id: String,
    pub memory_type: String,
    pub id: String,
}

/// Input of `restore_memory`.
#[derive(Debug)]
pub struct RestoreMemoryInput {
    pub project_id: String,
    pub memory_type: String,
    pub id: String,
}

/// Input of `update_memory`: every further member is part of the patch.
#[derive(Debug)]
pub struct UpdateMemoryInput {
    pub project_id: String,
    pub memory_type: String,
    pub id: String,
    pub patch: Vec<(String, Json)>,
}

/// Input of `forget_batch`, which changes nothing unless it is applied.
#[derive(Debug)]
pub struct ForgetBatchInput {
    pub project_id: String,
    pub memory_type: Option<String>,
    pub tags: Vec<String>,
    pub before: Option<i64>,
    pub apply: bool,
}

/// Input of `list_archived`.
#[derive(Debug)]
pub struct ListArchivedInput {
    pub project_id: String,
    pub memory_type: Option<String>,
    /// The configured default where it is missing.
    pub limit: Option<usize>,
}

/// Input of `consolidate_memories`, which changes nothing unless it is applied.
#[derive(Debug)]
pub struct ConsolidateInput {
    pub project_id: String,
    pub memory_type: Option<String>,
    pub include_near_dup: bool,
    pub apply: bool,
}

/// How many days back a tool looks by default.
pub const DEFAULT_DAYS: i64 = 7;

/// The severity of a failure by default.
pub const DEFAULT_SEVERITY: u8 = 3;

/// How many commits are ingested by default.
pub const DEFAULT_INGEST_COUNT: usize = 20;

/// How many commits are looked at for evidence by default.
pub const DEFAULT_COLLECT_COMMITS: usize = 200;

/// The importance of an episode by default.
pub fn default_importance() -> (r: Real)
    ensures
        r.bits == 0x3f00_0000,
        r.text@ == "0.5"@,
{
    Real::new(0x3f00_0000, "0.5")
}

// ---------------------------------------------------------------------------
// Search
// ---------------------------------------------------------------------------

/// Where a search looks.
#[derive(Debug)]
pub enum SearchRoute {
    /// In the one type that was asked for.
    ByType(String),
    /// In every type.
    All,
}

pub enum RouteView {
    ByType(Seq<char>),
    All,
}

impl View for SearchRoute {
    type V = RouteView;

    open spec fn view(&self) -> RouteView {
        match *self {
            SearchRoute::ByType(t) => RouteView::ByType(t@),
            SearchRoute::All => RouteView::All,
        }
    }
}

/// Only an explicit type narrows a search: whatever its intents, a query is looked up in
/// every type.
pub open spec fn route(memory_type: Option<Seq<char>>) -> RouteView {
    match memory_type {
        Some(t) => RouteView::ByType(t),
        None => RouteView::All,
    }
}

/// The intents that adjust the ranking: those of the query where routing by intent is on,
/// else none in particular.
pub open spec fn ranking_intents(intent_routing: bool, intents: Seq<MemoryIntent>) -> Seq<
    MemoryIntent,
> {
    if intent_routing {
        intents
    } else {
        seq![MemoryIntent::General]
    }
}

/// `plan` is the plan for some intents.
pub open spec fn is_plan_for(plan: RetrievalPlan, intents: Seq<MemoryIntent>) -> bool {
    &&& plan.sources@ == planner::planned_sources(intents)
    &&& plan.relevance_floor == planner::strongest(
        intents,
        |m: MemoryIntent| planner::relevance_floor(m),
    )
    &&& plan.recency_floor == planner::strongest(
        intents,
        |m: MemoryIntent| planner::recency_floor(m),
    )
}

/// The limit that a caller gave, or else the configured one.
pub open spec fn limit_of(given: Option<usize>, default_limit: usize) -> usize {
    match given {
        Some(n) => n,
        None => default_limit,
    }
}

/// How a search is run.
#[derive(Debug)]
pub struct SearchSetup {
    /// How the results are ranked.
    pub plan: RetrievalPlan,
    pub route: SearchRoute,
    /// The most results.
    pub limit: usize,
}

pub open spec fn hits_of(
    results: Seq<SearchResult>,
    shown: Seq<(serde_json::Number, serde_json::Number)>,
) -> Seq<JsonView> {
    Seq::new(
        results.len(),
        |i: int|
            answers::hit(
                results[i].id@,
                results[i].memory_type@,
                results[i].summary@,
                JsonView::Number(shown[i].0),
                JsonView::Number(shown[i].1),
                results[i].created_at as int,
            ),
    )
}

pub open spec fn result_ids(results: Seq<SearchResult>) -> Seq<Seq<char>> {
    Seq::new(results.len(), |i: int| results[i].id@)
}

/// The logic behind the tools that search.
pub struct DefaultMemoryProvider {
    pub config: Config,
    pub classifier: IntentClassifier,
    pub planner: RetrievalPlanner,
    pub composer: ContextComposer,
}

impl DefaultMemoryProvider {
    pub fn new(config: Config) -> (r: Self)
        ensures
            r.config == config,
            r.classifier@ == intent_classifier::keyword_table(),
    {
        DefaultMemoryProvider {
            config,
            classifier: IntentClassifier::new(),
            planner: RetrievalPlanner::new(),
            composer: ContextComposer::new(),
        }
    }

    /// The limit of a search or list tool: the one given, or else the configured default.
    pub fn limit(&self, given: Option<usize>) -> (r: usize)
        ensures
            r == limit_of(given, self.config.retrieval.default_limit),
    {
        match given {
            Some(n) => n,
            None => self.config.retrieval.default_limit,
        }
    }

    /// Plan a search: classify the query, plan the ranking for its intents, choose where
    /// to look and how many results to take.
    pub fn plan_search(&self, input: &SearchMemoryInput) -> (r: SearchSetup)
        ensures
            exists|intents: Seq<MemoryIntent>|
                {
                    &&& #[trigger] intent_classifier::is_classification(
                        self.classifier@,
                        text::lowercase(input.query@),
                        intents,
                    )
                    &&& text::is_plain(input.query@) ==> intent_classifier::is_classification(
                        self.classifier@,
                        text::ascii_lowered(input.query@),
                        intents,
                    )
                    &&& is_plan_for(
                        r.plan,
                        ranking_intents(self.config.retrieval.intent_routing, intents),
                    )
                },
            r.route@ == route(text::opt_text(input.memory_type)),
            r.limit == limit_of(input.limit, self.config.retrieval.default_limit),
    {
        let intents = self.classifier.classify(input.query.as_str());
        let general = [MemoryIntent::General];
        let plan = if self.config.retrieval.intent_routing {
            self.planner.plan(intents.as_slice())
        } else {
            assert(general@ =~= seq![MemoryIntent::General]);
            self.planner.plan(&general)
        };
        let route = match &input.memory_type {
            Some(t) => SearchRoute::ByType(t.clone()),
            None => SearchRoute::All,
        };
        let limit: usize = self.limit(input.limit);
        assert(intent_classifier::is_classification(
            self.classifier@,
            text::lowercase(input.query@),
            intents@,
        ));
        SearchSetup { plan, route, limit }
    }

    /// The answer to a search and the ids of its hits. `shown` holds the rounded
    /// relevance and importance of each result.
    pub fn finish_search(
        &self,
        results: &Vec<SearchResult>,
        shown: &Vec<(serde_json::Number, serde_json::Number)>,
    ) -> (r: (Json, Vec<String>))
        requires
            results@.len() == shown@.len(),
            self.config.context.memory_budget_percent <= 100,
            self.config.context.context_window_tokens * self.config.context.memory_budget_percent
                <= usize::MAX,
        ensures
            r.0@ == answers::search_answer(
                hits_of(results@, shown@),
                composer::composed(
                    results@,
                    self.config.context.context_window_tokens
                        * self.config.context.memory_budget_percent / 100,
                ),
            ),
            text::texts(r.1@) == result_ids(results@),
    {
        let budget = ContextBudget::new(
            self.config.context.context_window_tokens,
            self.config.context.memory_budget_percent,
        );
        let context = self.composer.compose_context(results.as_slice(), &budget);
        let ghost want = hits_of(results@, shown@);
        let ghost want_ids = result_ids(results@);
        let mut items: Vec<Json> = Vec::new();
        let mut ids: Vec<String> = Vec::new();
        let mut i: usize = 0;
        assert(json::views(items@) =~= want.take(0));
        assert(text::texts(ids@) =~= want_ids.take(0));
        while i < results.len()
            invariant
                i <= results@.len(),
                results@.len() == shown@.len(),
                want == hits_of(results@, shown@),
                want_ids == result_ids(results@),
                json::views(items@) == want.take(i as int),
                text::texts(ids@) == want_ids.take(i as int),
            decreases results@.len() - i,
        {
            let ghost before = json::views(items@);
            let ghost before_ids = text::texts(ids@);
            let r = &results[i];
            let item = answers::hit_json(
                r.id.as_str(),
                r.memory_type.as_str(),
                r.summary.as_str(),
                json::copy_number(&shown[i].0),
                json::copy_number(&shown[i].1),
                r.created_at,
            );
            assert(item@ == want[i as int]);
            items.push(item);
            assert(json::views(items@) =~= before.push(want[i as int]));
            ids.push(r.id.clone());
            assert(text::texts(ids@) =~= before_ids.push(want_ids[i as int]));
            i = i + 1;
            assert(want.take(i as int) =~= want.take(i - 1).push(want[i - 1]));
            assert(want_ids.take(i as int) =~= want_ids.take(i - 1).push(want_ids[i - 1]));
        }
        assert(want.take(i as int) =~= want);
        assert(want_ids.take(i as int) =~= want_ids);
        (answers::search_answer_json(items, context.as_str()), ids)
    }
}

/// What a list tool searches for: nothing where no text is given, and then it lists
/// what is most recent.
pub open spec fn wanted_text(s: Option<Seq<char>>) -> Option<Seq<char>> {
    match s {
        Some(t) => if t.len() > 0 {
            Some(t)
        } else {
            None
        },
        None => None,
    }
}

pub fn list_query(s: Option<&str>) -> (r: Option<&str>)
    ensures
        text::opt_str(r) == wanted_text(text::opt_str(s)),
{
    match s {
        Some(t) => {
            if t.is_empty() {
                None
            } else {
                Some(t)
            }
        },
        None => None,
    }
}

// ---------------------------------------------------------------------------
// Reading tools
// ---------------------------------------------------------------------------

pub open spec fn relation_items(edges: Seq<(String, String)>) -> Seq<JsonView> {
    Seq::new(edges.len(), |i: int| answers::relation(edges[i].0@, edges[i].1@))
}

/// The answer to `related_files`: the neighbors of a file, each with the type of the
/// relation.
pub fn related_files(entity_id: Option<&str>, file: &str, edges: &Vec<(String, String)>) -> (r:
    Json)
    ensures
        r@ == answers::related(
            match text::opt_str(entity_id) {
                Some(id) => id,
                None => ""@,
            },
            file@,
            relation_items(edges@),
        ),
{
    let ghost want = relation_items(edges@);
    let mut items: Vec<Json> = Vec::new();
    let mut i: usize = 0;
    assert(json::views(items@) =~= want.take(0));
    while i < edges.len()
        invariant
            i <= edges@.len(),
            want == relation_items(edges@),
            json::views(items@) == want.take(i as int),
        decreases edges@.len() - i,
    {
        let ghost before = json::views(items@);
        let item = answers::relation_json(edges[i].0.as_str(), edges[i].1.as_str());
        assert(item@ == want[i as int]);
        items.push(item);
        assert(json::views(items@) =~= before.push(want[i as int]));
        i = i + 1;
        assert(want.take(i as int) =~= want.take(i - 1).push(want[i - 1]));
    }
    assert(want.take(i as int) =~= want);
    let id = match entity_id {
        Some(id) => id,
        None => "",
    };
    answers::related_json(id, file, items)
}

pub open spec fn day_items(days: Seq<(String, i64)>) -> Seq<JsonView> {
    Seq::new(days.len(), |i: int| answers::day_count(days[i].0@, days[i].1 as int))
}

/// The answer to `timeline`: how many episodes each day has.
pub fn timeline(days: &Vec<(String, i64)>) -> (r: Json)
    ensures
        r@ == answers::timeline(day_items(days@)),
{
    let ghost want = day_items(days@);
    let mut items: Vec<Json> = Vec::new();
    let mut i: usize = 0;
    assert(json::views(items@) =~= want.take(0));
    while i < days.len()
        invariant
            i <= days@.len(),
            want == day_items(days@),
            json::views(items@) == want.take(i as int),
        decreases days@.len() - i,
    {
        let ghost before = json::views(items@);
        let item = answers::day_count_json(days[i].0.as_str(), days[i].1);
        assert(item@ == want[i as int]);
        items.push(item);
        assert(json::views(items@) =~= before.push(want[i as int]));
        i = i + 1;
        assert(want.take(i as int) =~= want.take(i - 1).push(want[i - 1]));
    }
    assert(want.take(i as int) =~= want);
    answers::timeline_json(items)
}

/// How often a query was asked, how many results it had on average (rounded), and when
/// it was last asked.
#[derive(Debug)]
pub struct QueryStat {
    pub query: String,
    pub count: i64,
    pub average: serde_json::Number,
    pub last_at: i64,
}

pub open spec fn stat_items(rows: Seq<QueryStat>) -> Seq<JsonView> {
    Seq::new(
        rows.len(),
        |i: int|
            answers::query_count(
                rows[i].query@,
                rows[i].count as int,
                JsonView::Number(rows[i].average),
                rows[i].last_at as int,
            ),
    )
}

/// The answer to `query_stats`.
pub fn query_stats(rows: &Vec<QueryStat>) -> (r: Json)
    ensures
        r@ == answers::query_list(stat_items(rows@)),
{
    let ghost want = stat_items(rows@);
    let mut items: Vec<Json> = Vec::new();
    let mut i: usize = 0;
    assert(json::views(items@) =~= want.take(0));
    while i < rows.len()
        invariant
            i <= rows@.len(),
            want == stat_items(rows@),
            json::views(items@) == want.take(i as int),
        decreases rows@.len() - i,
    {
        let ghost before = json::views(items@);
        let row = &rows[i];
        let item = answers::query_count_json(
            row.query.as_str(),
            row.count,
            json::copy_number(&row.average),
            row.last_at,
        );
        assert(item@ == want[i as int]);
        items.push(item);
        assert(json::views(items@) =~= before.push(want[i as int]));
        i = i + 1;
        assert(want.take(i as int) =~= want.take(i - 1).push(want[i - 1]));
    }
    assert(want.take(i as int) =~= want);
    answers::query_list_json(items)
}

pub open spec fn failure_items(ms: Seq<FailureMemory>) -> Seq<JsonView> {
    Seq::new(
        ms.len(),
        |i: int|
            answers::failure_brief(
                ms[i].id@,
                ms[i].incident@,
                ms[i].severity as int,
                ms[i].created_at as int,
            ),
    )
}

/// The answer to `recent_failures`.
pub fn recent_failures(ms: &Vec<FailureMemory>) -> (r: Json)
    ensures
        r@ == answers::failure_list(failure_items(ms@)),
{
    let ghost want = failure_items(ms@);
    let mut items: Vec<Json> = Vec::new();
    let mut i: usize = 0;
    assert(json::views(items@) =~= want.take(0));
    while i < ms.len()
        invariant
            i <= ms@.len(),
            want == failure_items(ms@),
            json::views(items@) == want.take(i as int),
        decreases ms@.len() - i,
    {
        let ghost before = json::views(items@);
        let m = &ms[i];
        let item = answers::failure_brief_json(
            m.id.as_str(),
            m.incident.as_str(),
            m.severity,
            m.created_at,
        );
        assert(item@ == want[i as int]);
        items.push(item);
        assert(json::views(items@) =~= before.push(want[i as int]));
        i = i + 1;
        assert(want.take(i as int) =~= want.take(i - 1).push(want[i - 1]));
    }
    assert(want.take(i as int) =~= want);
    answers::failure_list_json(items)
}

pub open spec fn decision_items(ms: Seq<DecisionMemory>) -> Seq<JsonView> {
    Seq::new(
        ms.len(),
        |i: int|
            answers::decision_brief(
                ms[i].id@,
                ms[i].title@,
                ms[i].rationale@,
                ms[i].created_at as int,
            ),
    )
}

/// The answer to `architectural_decisions`.
pub fn architectural_decisions(ms: &Vec<DecisionMemory>) -> (r: Json)
    ensures
        r@ == answers::decision_list(decision_items(ms@)),
{
    let ghost want = decision_items(ms@);
    let mut items: Vec<Json> = Vec::new();
    let mut i: usize = 0;
    assert(json::views(items@) =~= want.take(0));
    while i < ms.len()
        invariant
            i <= ms@.len(),
            want == decision_items(ms@),
            json::views(items@) == want.take(i as int),
        decreases ms@.len() - i,
    {
        let ghost before = json::views(items@);
        let m = &ms[i];
        let item = answers::decision_brief_json(
            m.id.as_str(),
            m.title.as_str(),
            m.rationale.as_str(),
            m.created_at,
        );
        assert(item@ == want[i as int]);
        items.push(item);
        assert(json::views(items@) =~= before.push(want[i as int]));
        i = i + 1;
        assert(want.take(i as int) =~= want.take(i - 1).push(want[i - 1]));
    }
    assert(want.take(i as int) =~= want);
    answers::decision_list_json(items)
}

// ---------------------------------------------------------------------------
// Writing tools
// ---------------------------------------------------------------------------

/// The importance of an episode lies between 0 and 1, both included.
pub open spec fn is_importance(r: Real) -> bool {
    r.bits <= 0x3f80_0000 || r.bits == 0x8000_0000
}

/// The episodic memory that an input asks for, or why there is none.
pub fn create_episodic(input: CreateEpisodicInput, id: String, now: i64) -> (r: Result<
    EpisodicMemory,
    String,
>)
    ensures
        match r {
            Ok(m) => {
                &&& is_importance(input.importance)
                &&& m.id == id
                &&& m.project_id == input.project_id
                &&& m.session_id == input.session_id
                &&& m.summary == input.summary
                &&& m.content == input.content
                &&& m.files_touched == input.files_touched
                &&& m.related_commits == input.related_commits
                &&& m.importance == input.importance.bits
                &&& m.tags == input.tags
                &&& m.created_at == now
                &&& m.updated_at == now
            },
            Err(e) => !is_importance(input.importance) && e@
                == "importance must be between 0.0 and 1.0, got "@ + input.importance.text@,
        },
{
    let bits = input.importance.bits;
    if !(bits <= 0x3f80_0000 || bits == 0x8000_0000) {
        let mut e = "importance must be between 0.0 and 1.0, got ".to_owned();
        e.append(input.importance.text.as_str());
        return Err(e);
    }
    Ok(
        EpisodicMemory {
            id,
            project_id: input.project_id,
            session_id: input.session_id,
            summary: input.summary,
            content: input.content,
            files_touched: input.files_touched,
            related_commits: input.related_commits,
            importance: bits,
            tags: input.tags,
            created_at: now,
            updated_at: now,
        },
    )
}

/// The decision that an input asks for.
pub fn create_decision(input: CreateDecisionInput, id: String, now: i64) -> (m: DecisionMemory)
    ensures
        m.id == id,
        m.project_id == input.project_id,
        m.title == input.title,
        m.context == input.context,
        m.rationale == input.rationale,
        m.tradeoffs == input.tradeoffs,
        m.related_files == input.related_files,
        m.tags == input.tags,
        m.created_at == now,
        m.updated_at == now,
{
    DecisionMemory {
        id,
        project_id: input.project_id,
        title: input.title,
        context: input.context,
        rationale: input.rationale,
        tradeoffs: input.tradeoffs,
        related_files: input.related_files,
        tags: input.tags,
        created_at: now,
        updated_at: now,
    }
}

/// The failure that an input asks for, or why there is none: its severity goes from 1
/// to 5.
pub fn create_failure(input: CreateFailureInput, id: String, now: i64) -> (r: Result<
    FailureMemory,
    String,
>)
    ensures
        match r {
            Ok(m) => {
                &&& 1 <= input.severity <= 5
                &&& m.id == id
                &&& m.project_id == input.project_id
                &&& m.incident == input.incident
                &&& m.root_cause == input.root_cause
                &&& m.fix == input.fix
                &&& m.prevention == input.prevention
                &&& m.severity == input.severity
                &&& m.tags == input.tags
                &&& m.created_at == now
                &&& m.updated_at == now
            },
            Err(e) => !(1 <= input.severity <= 5) && e@
                == "severity must be between 1 and 5, got "@ + text::decimal(
                input.severity as nat,
            ),
        },
{
    if input.severity < 1 || input.severity > 5 {
        let mut e = "severity must be between 1 and 5, got ".to_owned();
        e.append(text::decimal_of(input.severity as u64).as_str());
        return Err(e);
    }
    Ok(
        FailureMemory {
            id,
            project_id: input.project_id,
            incident: input.incident,
            root_cause: input.root_cause,
            fix: input.fix,
            prevention: input.prevention,
            severity: input.severity,
            tags: input.tags,
            created_at: now,
            updated_at: now,
        },
    )
}

/// The procedure that an input asks for.
pub fn create_procedural(input: CreateProceduralInput, id: String, now: i64) -> (m:
    ProceduralMemory)
    ensures
        m.id == id,
        m.project_id == input.project_id,
        m.workflow_name == input.workflow_name,
        m.steps == input.steps,
        m.related_tools == input.related_tools,
        m.tags == input.tags,
        m.created_at == now,
        m.updated_at == now,
{
    ProceduralMemory {
        id,
        project_id: input.project_id,
        workflow_name: input.workflow_name,
        steps: input.steps,
        related_tools: input.related_tools,
        tags: input.tags,
        created_at: now,
        updated_at: now,
    }
}

// ---------------------------------------------------------------------------
// Ingestion
// ---------------------------------------------------------------------------

/// None of a memory's commits has been ingested.
pub open spec fn is_unseen(m: EpisodicMemory, ingested: Seq<Seq<char>>) -> bool {
    forall|i: int|
        0 <= i < m.related_commits@.len() ==> !ingested.contains((#[trigger] m.related_commits@[i])@)
}

/// The memories none of whose commits has been ingested.
pub open spec fn unseen(ms: Seq<EpisodicMemory>, ingested: Seq<Seq<char>>) -> Seq<EpisodicMemory>
    decreases ms.len(),
{
    if ms.len() == 0 {
        Seq::empty()
    } else if is_unseen(ms.last(), ingested) {
        unseen(ms.drop_last(), ingested).push(ms.last())
    } else {
        unseen(ms.drop_last(), ingested)
    }
}

fn all_new(m: &EpisodicMemory, ingested: &Vec<String>) -> (r: bool)
    ensures
        r == is_unseen(*m, text::texts(ingested@)),
{
    let mut i: usize = 0;
    while i < m.related_commits.len()
        invariant
            i <= m.related_commits@.len(),
            forall|k: int|
                0 <= k < i ==> !text::texts(ingested@).contains(
                    (#[trigger] m.related_commits@[k])@,
                ),
        decreases m.related_commits@.len() - i,
    {
        if text::has_text(ingested, m.related_commits[i].as_str()) {
            assert(text::texts(ingested@).contains(m.related_commits@[i as int]@));
            return false;
        }
        i = i + 1;
    }
    true
}

/// Leave out the memories of commits that have been ingested.
pub fn unseen_memories(memories: Vec<EpisodicMemory>, ingested: &Vec<String>) -> (r: Vec<
    EpisodicMemory,
>)
    ensures
        r@ == unseen(memories@, text::texts(ingested@)),
{
    let ghost all = memories@;
    let ghost known = text::texts(ingested@);
    let mut rest = memories;
    let mut r: Vec<EpisodicMemory> = Vec::new();
    let ghost mut done: int = 0;
    assert(all.skip(0) =~= all);
    assert(all.take(0) =~= Seq::empty());
    while rest.len() > 0
        invariant
            0 <= done <= all.len(),
            known == text::texts(ingested@),
            rest@ == all.skip(done),
            r@ == unseen(all.take(done), known),
        decreases rest@.len(),
    {
        let m = rest.remove(0);
        proof {
            assert(m == all[done]);
            assert(all.take(done + 1).drop_last() =~= all.take(done));
            assert(all.take(done + 1).last() == m);
        }
        if all_new(&m, ingested) {
            r.push(m);
        }
        proof {
            assert(rest@ =~= all.skip(done + 1));
            done = done + 1;
        }
    }
    assert(all.take(done) =~= all);
    r
}

pub open spec fn ingested_items(ms: Seq<EpisodicMemory>) -> Seq<JsonView> {
    Seq::new(
        ms.len(),
        |i: int|
            answers::ingested_memory(
                ms[i].id@,
                ms[i].summary@,
                text::texts(ms[i].files_touched@),
            ),
    )
}

/// The answer to `ingest_commits`: of `generated` memories these were new.
pub fn ingest_answer(memories: &Vec<EpisodicMemory>, count: usize, generated: usize) -> (r: Json)
    requires
        memories@.len() <= generated,
    ensures
        r@ == answers::ingested(
            count as int,
            generated - memories@.len(),
            ingested_items(memories@),
        ),
{
    let ghost want = ingested_items(memories@);
    let mut items: Vec<Json> = Vec::new();
    let mut i: usize = 0;
    assert(json::views(items@) =~= want.take(0));
    while i < memories.len()
        invariant
            i <= memories@.len(),
            want == ingested_items(memories@),
            json::views(items@) == want.take(i as int),
        decreases memories@.len() - i,
    {
        let ghost before = json::views(items@);
        let m = &memories[i];
        let item = answers::ingested_memory_json(
            m.id.as_str(),
            m.summary.as_str(),
            &m.files_touched,
        );
        assert(item@ == want[i as int]);
        items.push(item);
        assert(json::views(items@) =~= before.push(want[i as int]));
        i = i + 1;
        assert(want.take(i as int) =~= want.take(i - 1).push(want[i - 1]));
    }
    assert(want.take(i as int) =~= want);
    answers::ingested_json(count, generated - memories.len(), items)
}

/// The session that ingested memories are filed under.
pub fn ingest_session(session_id: Option<String>) -> (r: String)
    ensures
        r@ == match text::opt_text(session_id) {
            Some(s) => s,
            None => "auto-ingest"@,
        },
{
    match session_id {
        Some(s) => s,
        None => "auto-ingest".to_owned(),
    }
}

/// Ingesting again, once every commit of the memories has been stored, adds none of
/// them that has a commit at all.
pub proof fn ingesting_again_adds_nothing(ms: Seq<EpisodicMemory>, ingested: Seq<Seq<char>>)
    requires
        forall|i: int|
            0 <= i < ms.len() ==> (#[trigger] ms[i]).related_commits@.len() > 0 && ingested.contains(
                ms[i].related_commits@[0]@,
            ),
    ensures
        unseen(ms, ingested) == Seq::<EpisodicMemory>::empty(),
    decreases ms.len(),
{
    if ms.len() > 0 {
        assert forall|i: int| 0 <= i < ms.drop_last().len() implies (
        #[trigger] ms.drop_last()[i]).related_commits@.len() > 0 && ingested.contains(
            ms.drop_last()[i].related_commits@[0]@,
        ) by {
            assert(ms.drop_last()[i] == ms[i]);
        }
        ingesting_again_adds_nothing(ms.drop_last(), ingested);
        let m = ms[ms.len() - 1];
        assert(ingested.contains(m.related_commits@[0]@));
        assert(!is_unseen(m, ingested));
    }
}

/// What is new is never more than what there was.
pub proof fn unseen_is_shorter(ms: Seq<EpisodicMemory>, ingested: Seq<Seq<char>>)
    ensures
        unseen(ms, ingested).len() <= ms.len(),
    decreases ms.len(),
{
    if ms.len() > 0 {
        unseen_is_shorter(ms.drop_last(), ingested);
    }
}

// ---------------------------------------------------------------------------
// Collection
// ---------------------------------------------------------------------------

/// How a missing or given list of dimensions is quoted.
pub open spec fn quoted_option(s: Option<Seq<char>>) -> Seq<char> {
    match s {
        Some(t) => "Some("@ + text::debug_quoted(t) + ")"@,
        None => "None"@,
    }
}

/// The dimensions that `collect_sources` is asked for, or the complaint that there are
/// none.
pub fn source_dimensions(dimensions: Option<&str>) -> (r: Result<Vec<Dimension>, String>)
    ensures
        ({
            let dims = collectors::dimension_list(
                text::opt_str(dimensions),
                |t: Seq<char>| text::lowercase(t),
            );
            match r {
                Ok(v) => v@ == dims && dims.len() > 0,
                Err(e) => dims.len() == 0 && e@ == "no valid dimensions parsed from "@
                    + quoted_option(text::opt_str(dimensions))
                    + "; valid: git, decisions, failures, workflow"@,
            }
        }),
        dimensions is Some && text::is_ascii(dimensions->0@) ==> ({
            let dims = collectors::dimension_list(
                text::opt_str(dimensions),
                |t: Seq<char>| text::ascii_lowered(t),
            );
            match r {
                Ok(v) => v@ == dims,
                Err(_) => dims.len() == 0,
            }
        }),
{
    let dims = Dimension::parse_list(dimensions);
    if dims.len() > 0 {
        return Ok(dims);
    }
    let mut e = "no valid dimensions parsed from ".to_owned();
    match dimensions {
        Some(t) => {
            let mut q = "Some(".to_owned();
            q.append(text::quoted(t).as_str());
            q.append(")");
            e.append(q.as_str());
        },
        None => {
            e.append("None");
        },
    }
    e.append("; valid: git, decisions, failures, workflow");
    Err(e)
}

/// The options of a collection pass: commits stored before are skipped, so that
/// collecting again adds nothing.
pub fn source_options(max_commits: usize, ingested: Vec<String>, allowed_roots: &Vec<String>) -> (r:
    CollectOptions)
    ensures
        r.max_commits == max_commits,
        r.ingested_commit_hashes == ingested,
        r.max_file_bytes == 16_000,
        r.max_commits_per_milestone == 15,
        text::texts(r.allowed_roots@) == text::texts(allowed_roots@),
        r.rules_file is None,
{
    let mut opts = CollectOptions::default();
    opts.max_commits = max_commits;
    opts.ingested_commit_hashes = ingested;
    opts.allowed_roots = text::copy_list(allowed_roots);
    opts
}

// ---------------------------------------------------------------------------
// Lifecycle
// ---------------------------------------------------------------------------

pub open spec fn kind_matches(kind: MemoryKind, ids: Seq<String>) -> Seq<JsonView> {
    Seq::new(ids.len(), |i: int| answers::matched_memory(ids[i]@, kind::kind_name(kind)))
}

/// What a batch matched, kind by kind.
pub open spec fn batch_matches(found: Seq<(MemoryKind, Vec<String>)>) -> Seq<JsonView>
    decreases found.len(),
{
    if found.len() == 0 {
        Seq::empty()
    } else {
        batch_matches(found.drop_last()) + kind_matches(found.last().0, found.last().1@)
    }
}

/// The answer to `forget_batch`: what was archived, or what would be.
pub fn forget_batch(apply: bool, found: &Vec<(MemoryKind, Vec<String>)>) -> (r: Json)
    ensures
        r@ == answers::batch(apply, batch_matches(found@)),
{
    let ghost all = found@;
    let mut matched: Vec<Json> = Vec::new();
    let mut i: usize = 0;
    assert(all.take(0) =~= Seq::empty());
    assert(json::views(matched@) =~= Seq::empty());
    while i < found.len()
        invariant
            i <= found@.len(),
            all == found@,
            json::views(matched@) == batch_matches(all.take(i as int)),
        decreases found@.len() - i,
    {
        assert(all.take(i + 1).drop_last() =~= all.take(i as int));
        assert(all.take(i + 1).last() == found@[i as int]);
        let kind = found[i].0;
        let ids = &found[i].1;
        let ghost start = json::views(matched@);
        let ghost more = kind_matches(kind, ids@);
        let mut j: usize = 0;
        assert(start + more.take(0) =~= start);
        while j < ids.len()
            invariant
                j <= ids@.len(),
                more == kind_matches(kind, ids@),
                json::views(matched@) == start + more.take(j as int),
            decreases ids@.len() - j,
        {
            let ghost before = json::views(matched@);
            let item = answers::matched_memory_json(ids[j].as_str(), kind.as_str());
            assert(item@ == more[j as int]);
            matched.push(item);
            assert(json::views(matched@) =~= before.push(more[j as int]));
            j = j + 1;
            assert(start + more.take(j as int) =~= (start + more.take(j - 1)).push(more[j - 1]));
        }
        assert(more.take(j as int) =~= more);
        i = i + 1;
    }
    assert(all.take(i as int) =~= all);
    answers::batch_json(apply, matched)
}

pub open spec fn group_items(gs: Seq<ConsolidationGroup>) -> Seq<JsonView> {
    Seq::new(
        gs.len(),
        |i: int|
            answers::group_item(
                gs[i].keeper_id@,
                text::texts(gs[i].duplicate_ids@),
                gs[i].reason@,
            ),
    )
}

pub open spec fn plan_items(plans: Seq<ConsolidationPlan>) -> Seq<JsonView> {
    Seq::new(
        plans.len(),
        |i: int|
            answers::plan_item(
                plans[i].memory_type@,
                group_items(plans[i].groups@),
                plans[i].archived as int,
            ),
    )
}

fn groups_json(gs: &Vec<ConsolidationGroup>) -> (r: Vec<Json>)
    ensures
        json::views(r@) == group_items(gs@),
{
    let ghost want = group_items(gs@);
    let mut items: Vec<Json> = Vec::new();
    let mut i: usize = 0;
    assert(json::views(items@) =~= want.take(0));
    while i < gs.len()
        invariant
            i <= gs@.len(),
            want == group_items(gs@),
            json::views(items@) == want.take(i as int),
        decreases gs@.len() - i,
    {
        let ghost before = json::views(items@);
        let item = answers::group_item_json(
            gs[i].keeper_id.as_str(),
            &gs[i].duplicate_ids,
            gs[i].reason.as_str(),
        );
        assert(item@ == want[i as int]);
        items.push(item);
        assert(json::views(items@) =~= before.push(want[i as int]));
        i = i + 1;
        assert(want.take(i as int) =~= want.take(i - 1).push(want[i - 1]));
    }
    assert(want.take(i as int) =~= want);
    items
}

/// The answer to `consolidate_memories`.
pub fn consolidate_memories(apply: bool, plans: &Vec<ConsolidationPlan>) -> (r: Json)
    ensures
        r@ == answers::consolidated(
            apply,
            plan_items(plans@),
            text::tallied(engine::archived_sum(plans@)) as int,
        ),
{
    let ghost want = plan_items(plans@);
    let mut items: Vec<Json> = Vec::new();
    let mut i: usize = 0;
    assert(json::views(items@) =~= want.take(0));
    while i < plans.len()
        invariant
            i <= plans@.len(),
            want == plan_items(plans@),
            json::views(items@) == want.take(i as int),
        decreases plans@.len() - i,
    {
        let ghost before = json::views(items@);
        let item = answers::plan_item_json(
            plans[i].memory_type.as_str(),
            groups_json(&plans[i].groups),
            plans[i].archived,
        );
        assert(item@ == want[i as int]);
        items.push(item);
        assert(json::views(items@) =~= before.push(want[i as int]));
        i = i + 1;
        assert(want.take(i as int) =~= want.take(i - 1).push(want[i - 1]));
    }
    assert(want.take(i as int) =~= want);
    answers::consolidated_json(apply, items, engine::total_archived(plans))
}

// ---------------------------------------------------------------------------
// Without a database
// ---------------------------------------------------------------------------

/// What a server without a database answers.
pub open spec fn noop_answer(tool: Tool) -> JsonView {
    let none = JsonView::Array(Seq::empty());
    let zero = json::integer(0);
    let no = JsonView::Bool(false);
    let m = json::members();
    JsonView::Object(
        match tool {
            Tool::SearchMemory => m.push(("results"@, none)).push(("total"@, zero)),
            Tool::RelatedFiles => m.push(("entities"@, none)),
            Tool::Timeline => m.push(("events"@, none)),
            Tool::RecentFailures => m.push(("failures"@, none)),
            Tool::QueryStats => m.push(("queries"@, none)),
            Tool::ArchitecturalDecisions => m.push(("decisions"@, none)),
            Tool::CreateEpisodic | Tool::CreateDecision | Tool::CreateFailure
            | Tool::CreateProcedural | Tool::UpdateMemory => m.push(
                ("id"@, JsonView::Str(""@)),
            ).push(("status"@, JsonView::Str("noop"@))),
            Tool::IngestCommits => m.push(("ingested"@, zero)),
            Tool::CollectSources => m.push(
                ("summary"@, JsonView::Object(m.push(("total_items"@, zero)))),
            ),
            Tool::ForgetMemory => m.push(("archived"@, no)).push(
                ("status"@, JsonView::Str("noop"@)),
            ),
            Tool::RestoreMemory => m.push(("restored"@, no)).push(
                ("status"@, JsonView::Str("noop"@)),
            ),
            Tool::ForgetBatch => m.push(("applied"@, no)).push(("matched"@, none)).push(
                ("count"@, zero),
            ),
            Tool::ListArchived => m.push(("archived"@, none)).push(("count"@, zero)),
            Tool::ConsolidateMemories => m.push(("applied"@, no)).push(("plans"@, none)).push(
                ("total_archived"@, zero),
            ),
        },
    )
}

fn nothing() -> (r: Json)
    ensures
        r@ == JsonView::Array(Seq::empty()),
{
    let v: Vec<Json> = Vec::new();
    assert(json::views(v@) =~= Seq::empty());
    Json::array(v)
}

/// Answer a call of a tool without a database.
pub fn answer_without_database(tool: Tool) -> (r: Json)
    ensures
        r@ == noop_answer(tool),
{
    let mut fields = json::no_fields();
    match tool {
        Tool::SearchMemory => {
            json::put(&mut fields, "results", nothing());
            json::put(&mut fields, "total", Json::count(0));
        },
        Tool::RelatedFiles => {
            json::put(&mut fields, "entities", nothing());
        },
        Tool::Timeline => {
            json::put(&mut fields, "events", nothing());
        },
        Tool::RecentFailures => {
            json::put(&mut fields, "failures", nothing());
        },
        Tool::QueryStats => {
            json::put(&mut fields, "queries", nothing());
        },
        Tool::ArchitecturalDecisions => {
            json::put(&mut fields, "decisions", nothing());
        },
        Tool::CreateEpisodic | Tool::CreateDecision | Tool::CreateFailure
        | Tool::CreateProcedural | Tool::UpdateMemory => {
            json::put(&mut fields, "id", Json::str(""));
            json::put(&mut fields, "status", Json::str("noop"));
        },
        Tool::IngestCommits => {
            json::put(&mut fields, "ingested", Json::count(0));
        },
        Tool::CollectSources => {
            let mut summary = json::no_fields();
            json::put(&mut summary, "total_items", Json::count(0));
            json::put(&mut fields, "summary", Json::object(summary));
        },
        Tool::ForgetMemory => {
            json::put(&mut fields, "archived", Json::Bool(false));
            json::put(&mut fields, "status", Json::str("noop"));
        },
        Tool::RestoreMemory => {
            json::put(&mut fields, "restored", Json::Bool(false));
            json::put(&mut fields, "status", Json::str("noop"));
        },
        Tool::ForgetBatch => {
            json::put(&mut fields, "applied", Json::Bool(false));
            json::put(&mut fields, "matched", nothing());
            json::put(&mut fields, "count", Json::count(0));
        },
        Tool::ListArchived => {
            json::put(&mut fields, "archived", nothing());
            json::put(&mut fields, "count", Json::count(0));
        },
        Tool::ConsolidateMemories => {
            json::put(&mut fields, "applied", Json::Bool(false));
            json::put(&mut fields, "plans", nothing());
            json::put(&mut fields, "total_archived", Json::count(0));
        },
    }
    Json::object(fields)
}

// ---------------------------------------------------------------------------
// Laws
// ---------------------------------------------------------------------------

/// Of the memories made from commits just those are new none of whose commits has been
/// ingested, in their order; where nothing has been ingested all are new.
pub proof fn unseen_memories_are_all_kept(ms: Seq<EpisodicMemory>, ingested: Seq<Seq<char>>)
    ensures
        unseen(ms, ingested) == ms.filter(
            |m: EpisodicMemory|
                forall|i: int|
                    0 <= i < m.related_commits@.len() ==> !ingested.contains(
                        (#[trigger] m.related_commits@[i])@,
                    ),
        ),
        ingested.len() == 0 ==> unseen(ms, ingested) == ms,
    decreases ms.len(),
{
    reveal(Seq::filter);
    if ms.len() > 0 {
        unseen_memories_are_all_kept(ms.drop_last(), ingested);
        assert(ms.drop_last().push(ms.last()) =~= ms);
    } else {
        assert(unseen(ms, ingested) =~= ms);
    }
}

/// What a batch matched is listed kind by kind, each memory under its own id and type.
pub proof fn every_match_is_listed(
    found: Seq<(MemoryKind, Vec<String>)>,
    kind: MemoryKind,
    ids: Vec<String>,
)
    ensures
        batch_matches(Seq::<(MemoryKind, Vec<String>)>::empty()) == Seq::<JsonView>::empty(),
        ({
            let all = batch_matches(found.push((kind, ids)));
            let n = batch_matches(found).len();
            &&& all.len() == n + ids@.len()
            &&& all.take(n as int) == batch_matches(found)
            &&& forall|i: int|
                0 <= i < ids@.len() ==> #[trigger] all[n + i] == answers::matched_memory(
                    ids@[i]@,
                    kind::kind_name(kind),
                )
        }),
{
    assert(found.push((kind, ids)).drop_last() =~= found);
    let all = batch_matches(found.push((kind, ids)));
    let n = batch_matches(found).len();
    assert(all =~= batch_matches(found) + kind_matches(kind, ids@));
    assert(all.take(n as int) =~= batch_matches(found));
}

/// A hit shows the id, the type and the summary of its own result, in the order of the
/// results, and the ids that are logged are theirs.
pub proof fn hits_show_their_results(
    results: Seq<SearchResult>,
    shown: Seq<(serde_json::Number, serde_json::Number)>,
    i: int,
)
    requires
        0 <= i < results.len() == shown.len(),
    ensures
        hits_of(results, shown).len() == results.len(),
        hits_of(results, shown)[i] is Object,
        hits_of(results, shown)[i]->Object_0.contains(("id"@, JsonView::Str(results[i].id@))),
        hits_of(results, shown)[i]->Object_0.contains(
            ("memory_type"@, JsonView::Str(results[i].memory_type@)),
        ),
        hits_of(results, shown)[i]->Object_0.contains(
            ("summary"@, JsonView::Str(results[i].summary@)),
        ),
        hits_of(results, shown)[i]->Object_0.contains(
            ("relevance_score"@, JsonView::Number(shown[i].0)),
        ),
        hits_of(results, shown)[i]->Object_0.contains(("importance"@, JsonView::Number(shown[i].1))),
        result_ids(results).len() == results.len(),
        result_ids(results)[i] == results[i].id@,
{
    let f = hits_of(results, shown)[i]->Object_0;
    assert(f[0] == ("id"@, JsonView::Str(results[i].id@)));
    assert(f[1] == ("memory_type"@, JsonView::Str(results[i].memory_type@)));
    assert(f[2] == ("summary"@, JsonView::Str(results[i].summary@)));
    assert(f[3] == ("relevance_score"@, JsonView::Number(shown[i].0)));
    assert(f[4] == ("importance"@, JsonView::Number(shown[i].1)));
}

/// The lists that tools answer with show every memory they are given, each under its own
/// id.
pub proof fn lists_show_every_memory(
    failures: Seq<FailureMemory>,
    decisions: Seq<DecisionMemory>,
    ingested: Seq<EpisodicMemory>,
)
    ensures
        failure_items(failures).len() == failures.len(),
        forall|i: int|
            0 <= i < failures.len() ==> (#[trigger] failure_items(failures)[i])->Object_0.contains(
                ("id"@, JsonView::Str(failures[i].id@)),
            ) && failure_items(failures)[i]->Object_0.contains(
                ("incident"@, JsonView::Str(failures[i].incident@)),
            ),
        decision_items(decisions).len() == decisions.len(),
        forall|i: int|
            0 <= i < decisions.len() ==> (#[trigger] decision_items(
                decisions,
            )[i])->Object_0.contains(("id"@, JsonView::Str(decisions[i].id@))) && decision_items(
                decisions,
            )[i]->Object_0.contains(("title"@, JsonView::Str(decisions[i].title@))),
        ingested_items(ingested).len() == ingested.len(),
        forall|i: int|
            0 <= i < ingested.len() ==> (#[trigger] ingested_items(ingested)[i])->Object_0.contains(
                ("id"@, JsonView::Str(ingested[i].id@)),
            ),
{
    assert forall|i: int| 0 <= i < failures.len() implies (#[trigger] failure_items(
        failures,
    )[i])->Object_0.contains(("id"@, JsonView::Str(failures[i].id@))) && failure_items(
        failures,
    )[i]->Object_0.contains(("incident"@, JsonView::Str(failures[i].incident@))) by {
        let f = failure_items(failures)[i]->Object_0;
        assert(f[0] == ("id"@, JsonView::Str(failures[i].id@)));
        assert(f[1] == ("incident"@, JsonView::Str(failures[i].incident@)));
    }
    assert forall|i: int| 0 <= i < decisions.len() implies (#[trigger] decision_items(
        decisions,
    )[i])->Object_0.contains(("id"@, JsonView::Str(decisions[i].id@))) && decision_items(
        decisions,
    )[i]->Object_0.contains(("title"@, JsonView::Str(decisions[i].title@))) by {
        let f = decision_items(decisions)[i]->Object_0;
        assert(f[0] == ("id"@, JsonView::Str(decisions[i].id@)));
        assert(f[1] == ("title"@, JsonView::Str(decisions[i].title@)));
    }
    assert forall|i: int| 0 <= i < ingested.len() implies (#[trigger] ingested_items(
        ingested,
    )[i])->Object_0.contains(("id"@, JsonView::Str(ingested[i].id@))) by {
        let f = ingested_items(ingested)[i]->Object_0;
        assert(f[0] == ("id"@, JsonView::Str(ingested[i].id@)));
    }
}

/// Only an explicit type narrows a search, a limit that is given counts, and routing that
/// is off leaves the ranking to no intent in particular.
pub proof fn only_callers_narrow_a_search(
    t: Seq<char>,
    given: usize,
    default_limit: usize,
    intents: Seq<MemoryIntent>,
)
    ensures
        route(None) == RouteView::All,
        route(Some(t)) == RouteView::ByType(t),
        limit_of(Some(given), default_limit) == given,
        limit_of(None, default_limit) == default_limit,
        ranking_intents(true, intents) == intents,
        ranking_intents(false, intents) == seq![MemoryIntent::General],
{
}

/// An importance is accepted from 0 to 1, both included and whatever the sign of zero; a
/// list tool searches for a text that is not empty.
pub proof fn importance_lies_between_zero_and_one(r: Real, t: Seq<char>)
    ensures
        is_importance(r) <==> r.bits <= 0x3f80_0000 || r.bits == 0x8000_0000,
        t.len() > 0 ==> wanted_text(Some(t)) == Some(t),
        t.len() == 0 ==> wanted_text(Some(t)) is None,
        wanted_text(None) is None,
{
}

/// The answers that list relations, days and queries show each of them, in order.
pub proof fn answers_list_each_row(
    edges: Seq<(String, String)>,
    days: Seq<(String, i64)>,
    rows: Seq<QueryStat>,
)
    ensures
        relation_items(edges).len() == edges.len(),
        forall|i: int|
            0 <= i < edges.len() ==> #[trigger] relation_items(edges)[i] == answers::relation(
                edges[i].0@,
                edges[i].1@,
            ),
        day_items(days).len() == days.len(),
        forall|i: int|
            0 <= i < days.len() ==> #[trigger] day_items(days)[i] == answers::day_count(
                days[i].0@,
                days[i].1 as int,
            ),
        stat_items(rows).len() == rows.len(),
        forall|i: int|
            0 <= i < rows.len() ==> #[trigger] stat_items(rows)[i] == answers::query_count(
                rows[i].query@,
                rows[i].count as int,
                JsonView::Number(rows[i].average),
                rows[i].last_at as int,
            ),
{
}

/// The answer to a consolidation shows every group of every plan with its own ids.
pub proof fn groups_are_all_shown(gs: Seq<ConsolidationGroup>)
    ensures
        group_items(gs).len() == gs.len(),
        forall|i: int|
            0 <= i < gs.len() ==> #[trigger] group_items(gs)[i] == answers::group_item(
                gs[i].keeper_id@,
                text::texts(gs[i].duplicate_ids@),
                gs[i].reason@,
            ),
{
}

} // verus!
