//! The `search` command.
use crate::answers;
use crate::cli::args;
use crate::json;
use crate::json::{Json, JsonView};
use crate::models::kind;
use crate::models::{DecisionMemory, EpisodicMemory, FailureMemory, MemoryKind, ProceduralMemory};
use crate::order;
use crate::order::Ranked;
use crate::retrieval::bm25::Descending;
use crate::text;
use vstd::prelude::*;

verus! {

// ---------------------------------------------------------------------------
// Requests
// ---------------------------------------------------------------------------

/// What a search asks for.
#[derive(Debug)]
pub struct SearchRequest {
    pub project_id: String,
    pub query: String,
    /// The type that was asked for, as it was typed.
    pub memory_type: Option<String>,
    /// The kinds to be searched.
    pub kinds: Vec<MemoryKind>,
    pub limit: usize,
    pub tags: Vec<String>,
    pub before: Option<i64>,
}

/// The kinds that a type stands for: one, or all where none was given.
pub open spec fn searched_kinds(memory_type: Option<Seq<char>>) -> Result<
    Seq<MemoryKind>,
    Seq<char>,
> {
    match memory_type {
        None => Ok(kind::all_kinds()),
        Some(t) => match kind::kind_of(t) {
            Some(k) => Ok(Seq::empty().push(k)),
            None => Err(
                "Unknown memory type: "@ + t + ". Use: episodic, decision, failure, procedural"@,
            ),
        },
    }
}

pub open spec fn kinds_result(r: Result<Vec<MemoryKind>, String>) -> Result<
    Seq<MemoryKind>,
    Seq<char>,
> {
    match r {
        Ok(v) => Ok(v@),
        Err(e) => Err(e@),
    }
}

fn find_kinds(memory_type: Option<&str>) -> (r: Result<Vec<MemoryKind>, String>)
    ensures
        kinds_result(r) == searched_kinds(text::opt_str(memory_type)),
{
    match memory_type {
        None => Ok(MemoryKind::all()),
        Some(t) => match MemoryKind::from_type_str(t) {
            Some(k) => {
                let v = vec![k];
                assert(v@ =~= Seq::empty().push(k));
                Ok(v)
            },
            None => {
                let mut e = "Unknown memory type: ".to_owned();
                e.append(t);
                e.append(". Use: episodic, decision, failure, procedural");
                Err(e)
            },
        },
    }
}

/// `r` is what the arguments of a search ask for.
pub open spec fn is_search_request(
    r: SearchRequest,
    all: Seq<Seq<char>>,
    limit: Option<usize>,
    default_limit: usize,
    before: Option<i64>,
) -> bool {
    let memory_type = args::option_value(all, "type"@);
    &&& args::required_value(all, "project"@) == Ok::<Seq<char>, Seq<char>>(r.project_id@)
    &&& args::required_value(all, "query"@) == Ok::<Seq<char>, Seq<char>>(r.query@)
    &&& text::opt_text(r.memory_type) == memory_type
    &&& searched_kinds(memory_type) == Ok::<Seq<MemoryKind>, Seq<char>>(r.kinds@)
    &&& r.limit == match limit {
        Some(n) => n,
        None => default_limit,
    }
    &&& text::texts(r.tags@) == args::repeated_values(all, "tag"@)
    &&& r.before == before
}

/// Read the arguments of a search; the numbers among them have been read already, and
/// `default_limit` is the configured one. The first thing that is wrong is reported.
pub fn search_request(
    args: &Vec<String>,
    limit: Option<usize>,
    default_limit: usize,
    before: Option<i64>,
) -> (r: Result<SearchRequest, String>)
    ensures
        ({
            let all = text::texts(args@);
            match r {
                Ok(q) => is_search_request(q, all, limit, default_limit, before),
                Err(e) => match args::required_value(all, "project"@) {
                    Err(f) => e@ == f,
                    Ok(_) => match args::required_value(all, "query"@) {
                        Err(f) => e@ == f,
                        Ok(_) => searched_kinds(args::option_value(all, "type"@)) == Err::<
                            Seq<MemoryKind>,
                            Seq<char>,
                        >(e@),
                    },
                },
            }
        }),
{
    let project_id = match args::require_str(args, "project") {
        Ok(s) => s,
        Err(e) => {
            return Err(e);
        },
    };
    let query = match args::require_str(args, "query") {
        Ok(s) => s,
        Err(e) => {
            return Err(e);
        },
    };
    let memory_type = args::optional_str(args, "type");
    let found = match &memory_type {
        Some(t) => find_kinds(Some(t.as_str())),
        None => find_kinds(None),
    };
    let kinds = match found {
        Ok(k) => k,
        Err(e) => {
            return Err(e);
        },
    };
    Ok(
        SearchRequest {
            project_id,
            query,
            memory_type,
            kinds,
            limit: match limit {
                Some(n) => n,
                None => default_limit,
            },
            tags: args::repeated_args(args, "tag"),
            before,
        },
    )
}

// ---------------------------------------------------------------------------
// Filters
// ---------------------------------------------------------------------------

/// The two lists have a text in common.
pub open spec fn share_text(a: Seq<Seq<char>>, b: Seq<Seq<char>>) -> bool {
    exists|i: int| 0 <= i < a.len() && b.contains(#[trigger] a[i])
}

/// A memory passes the filters: it carries one of the tags, where any are asked for,
/// and was made before the time, where one is given.
pub open spec fn passes(
    tags: Seq<Seq<char>>,
    created_at: int,
    wanted: Seq<Seq<char>>,
    before: Option<i64>,
) -> bool {
    &&& wanted.len() == 0 || share_text(tags, wanted)
    &&& match before {
        Some(b) => created_at < b,
        None => true,
    }
}

/// Whether a memory passes the `--tag` and `--before` filters.
pub fn matches_filters(
    tags: &Vec<String>,
    created_at: i64,
    ftags: &Vec<String>,
    before: Option<i64>,
) -> (r: bool)
    ensures
        r == passes(text::texts(tags@), created_at as int, text::texts(ftags@), before),
{
    match before {
        Some(b) => {
            if created_at >= b {
                return false;
            }
        },
        None => {},
    }
    if ftags.len() == 0 {
        return true;
    }
    let ghost all = text::texts(tags@);
    let ghost wanted = text::texts(ftags@);
    assert(wanted.len() == ftags@.len());
    let mut i: usize = 0;
    while i < tags.len()
        invariant
            i <= tags@.len(),
            all == text::texts(tags@),
            wanted == text::texts(ftags@),
            wanted.len() > 0,
            match before {
                Some(b) => created_at < b,
                None => true,
            },
            forall|k: int| 0 <= k < i ==> !wanted.contains(#[trigger] all[k]),
        decreases tags@.len() - i,
    {
        assert(all[i as int] == tags@[i as int]@);
        if text::has_text(ftags, tags[i].as_str()) {
            assert(wanted.contains(all[i as int]));
            return true;
        }
        i = i + 1;
    }
    false
}

// ---------------------------------------------------------------------------
// Items
// ---------------------------------------------------------------------------

/// A memory that a search can print.
pub trait Hit: Sized {
    /// The memory as it is printed, in full or in brief.
    spec fn item(&self, full: bool) -> JsonView;

    spec fn tag_list(&self) -> Seq<Seq<char>>;

    spec fn created(&self) -> int;

    fn to_item(&self, full: bool) -> (r: Json)
        ensures
            r@ == self.item(full),
    ;

    fn tags(&self) -> (r: &Vec<String>)
        ensures
            text::texts(r@) == self.tag_list(),
    ;

    fn created_at(&self) -> (r: i64)
        ensures
            r == self.created(),
    ;
}

/// An episodic memory with its importance as a number of its own.
#[derive(Debug)]
pub struct EpisodicHit {
    pub memory: EpisodicMemory,
    pub importance: serde_json::Number,
}

pub open spec fn tag_json(tags: Vec<String>) -> JsonView {
    JsonView::Array(json::strings(text::texts(tags@)))
}

impl Hit for EpisodicHit {
    open spec fn item(&self, full: bool) -> JsonView {
        let m = self.memory;
        let head = json::members()
            .push(("id"@, JsonView::Str(m.id@)))
            .push(("type"@, JsonView::Str("episodic"@)))
            .push(("summary"@, JsonView::Str(m.summary@)))
            .push(("content"@, JsonView::Str(m.content@)));
        let body = if full {
            head.push(("files"@, tag_json(m.files_touched)))
        } else {
            head
        };
        JsonView::Object(
            body
                .push(("importance"@, JsonView::Number(self.importance)))
                .push(("tags"@, tag_json(m.tags)))
                .push(("created_at"@, json::integer(m.created_at as int))),
        )
    }

    open spec fn tag_list(&self) -> Seq<Seq<char>> {
        text::texts(self.memory.tags@)
    }

    open spec fn created(&self) -> int {
        self.memory.created_at as int
    }

    fn to_item(&self, full: bool) -> (r: Json) {
        let m = &self.memory;
        let mut fields = json::no_fields();
        json::put(&mut fields, "id", Json::str(m.id.as_str()));
        json::put(&mut fields, "type", Json::str("episodic"));
        json::put(&mut fields, "summary", Json::str(m.summary.as_str()));
        json::put(&mut fields, "content", Json::str(m.content.as_str()));
        if full {
            json::put(&mut fields, "files", json::string_array(&m.files_touched));
        }
        json::put(&mut fields, "importance", json::copy_number(&self.importance));
        json::put(&mut fields, "tags", json::string_array(&m.tags));
        json::put(&mut fields, "created_at", Json::whole(m.created_at));
        Json::object(fields)
    }

    fn tags(&self) -> (r: &Vec<String>) {
        &self.memory.tags
    }

    fn created_at(&self) -> (r: i64) {
        self.memory.created_at
    }
}

impl Hit for DecisionMemory {
    open spec fn item(&self, full: bool) -> JsonView {
        let head = json::members()
            .push(("id"@, JsonView::Str(self.id@)))
            .push(("type"@, JsonView::Str("decision"@)))
            .push(("title"@, JsonView::Str(self.title@)));
        let body = if full {
            head.push(("context"@, JsonView::Str(self.context@)))
        } else {
            head
        };
        JsonView::Object(
            body
                .push(("rationale"@, JsonView::Str(self.rationale@)))
                .push(("tradeoffs"@, JsonView::Str(self.tradeoffs@)))
                .push(("tags"@, tag_json(self.tags)))
                .push(("created_at"@, json::integer(self.created_at as int))),
        )
    }

    open spec fn tag_list(&self) -> Seq<Seq<char>> {
        text::texts(self.tags@)
    }

    open spec fn created(&self) -> int {
        self.created_at as int
    }

    fn to_item(&self, full: bool) -> (r: Json) {
        let mut fields = json::no_fields();
        json::put(&mut fields, "id", Json::str(self.id.as_str()));
        json::put(&mut fields, "type", Json::str("decision"));
        json::put(&mut fields, "title", Json::str(self.title.as_str()));
        if full {
            json::put(&mut fields, "context", Json::str(self.context.as_str()));
        }
        json::put(&mut fields, "rationale", Json::str(self.rationale.as_str()));
        json::put(&mut fields, "tradeoffs", Json::str(self.tradeoffs.as_str()));
        json::put(&mut fields, "tags", json::string_array(&self.tags));
        json::put(&mut fields, "created_at", Json::whole(self.created_at));
        Json::object(fields)
    }

    fn tags(&self) -> (r: &Vec<String>) {
        &self.tags
    }

    fn created_at(&self) -> (r: i64) {
        self.created_at
    }
}

impl Hit for FailureMemory {
    open spec fn item(&self, full: bool) -> JsonView {
        JsonView::Object(
            json::members()
                .push(("id"@, JsonView::Str(self.id@)))
                .push(("type"@, JsonView::Str("failure"@)))
                .push(("incident"@, JsonView::Str(self.incident@)))
                .push(("root_cause"@, JsonView::Str(self.root_cause@)))
                .push(("fix"@, JsonView::Str(self.fix@)))
                .push(("prevention"@, JsonView::Str(self.prevention@)))
                .push(("severity"@, json::integer(self.severity as int)))
                .push(("tags"@, tag_json(self.tags)))
                .push(("created_at"@, json::integer(self.created_at as int))),
        )
    }

    open spec fn tag_list(&self) -> Seq<Seq<char>> {
        text::texts(self.tags@)
    }

    open spec fn created(&self) -> int {
        self.created_at as int
    }

    fn to_item(&self, full: bool) -> (r: Json) {
        let mut fields = json::no_fields();
        json::put(&mut fields, "id", Json::str(self.id.as_str()));
        json::put(&mut fields, "type", Json::str("failure"));
        json::put(&mut fields, "incident", Json::str(self.incident.as_str()));
        json::put(&mut fields, "root_cause", Json::str(self.root_cause.as_str()));
        json::put(&mut fields, "fix", Json::str(self.fix.as_str()));
        json::put(&mut fields, "prevention", Json::str(self.prevention.as_str()));
        json::put(&mut fields, "severity", Json::whole(self.severity as i64));
        json::put(&mut fields, "tags", json::string_array(&self.tags));
        json::put(&mut fields, "created_at", Json::whole(self.created_at));
        Json::object(fields)
    }

    fn tags(&self) -> (r: &Vec<String>) {
        &self.tags
    }

    fn created_at(&self) -> (r: i64) {
        self.created_at
    }
}

impl Hit for ProceduralMemory {
    open spec fn item(&self, full: bool) -> JsonView {
        let head = json::members()
            .push(("id"@, JsonView::Str(self.id@)))
            .push(("type"@, JsonView::Str("procedural"@)))
            .push(("workflow"@, JsonView::Str(self.workflow_name@)))
            .push(("steps"@, tag_json(self.steps)));
        let body = if full {
            head.push(("tools"@, tag_json(self.related_tools)))
        } else {
            head
        };
        JsonView::Object(
            body
                .push(("tags"@, tag_json(self.tags)))
                .push(("created_at"@, json::integer(self.created_at as int))),
        )
    }

    open spec fn tag_list(&self) -> Seq<Seq<char>> {
        text::texts(self.tags@)
    }

    open spec fn created(&self) -> int {
        self.created_at as int
    }

    fn to_item(&self, full: bool) -> (r: Json) {
        let mut fields = json::no_fields();
        json::put(&mut fields, "id", Json::str(self.id.as_str()));
        json::put(&mut fields, "type", Json::str("procedural"));
        json::put(&mut fields, "workflow", Json::str(self.workflow_name.as_str()));
        json::put(&mut fields, "steps", json::string_array(&self.steps));
        if full {
            json::put(&mut fields, "tools", json::string_array(&self.related_tools));
        }
        json::put(&mut fields, "tags", json::string_array(&self.tags));
        json::put(&mut fields, "created_at", Json::whole(self.created_at));
        Json::object(fields)
    }

    fn tags(&self) -> (r: &Vec<String>) {
        &self.tags
    }

    fn created_at(&self) -> (r: i64) {
        self.created_at
    }
}

// ---------------------------------------------------------------------------
// Results
// ---------------------------------------------------------------------------

/// Items with the integers that order as their scores do.
pub open spec fn ranked_views(v: Seq<(i64, Json)>) -> Seq<(i64, JsonView)> {
    Seq::new(v.len(), |i: int| (v[i].0, v[i].1@))
}

/// The memories that pass the filters, as they are printed, with their ranks.
pub open spec fn items_of<T: Hit>(
    found: Seq<(i64, T)>,
    wanted: Seq<Seq<char>>,
    before: Option<i64>,
    full: bool,
) -> Seq<(i64, JsonView)>
    decreases found.len(),
{
    if found.len() == 0 {
        Seq::empty()
    } else {
        let earlier = items_of(found.drop_last(), wanted, before, full);
        let (rank, m) = found.last();
        if passes(m.tag_list(), m.created(), wanted, before) {
            earlier.push((rank, m.item(full)))
        } else {
            earlier
        }
    }
}

/// The memories found that pass the filters, ready to be merged and printed. A search
/// of one type prints them in full.
pub fn search_items<T: Hit>(
    found: &Vec<(i64, T)>,
    ftags: &Vec<String>,
    before: Option<i64>,
    full: bool,
) -> (r: Vec<(i64, Json)>)
    ensures
        ranked_views(r@) == items_of(found@, text::texts(ftags@), before, full),
{
    let ghost all = found@;
    let ghost wanted = text::texts(ftags@);
    let mut r: Vec<(i64, Json)> = Vec::new();
    let mut i: usize = 0;
    assert(all.take(0) =~= Seq::empty());
    assert(ranked_views(r@) =~= Seq::empty());
    while i < found.len()
        invariant
            i <= found@.len(),
            all == found@,
            wanted == text::texts(ftags@),
            ranked_views(r@) == items_of(all.take(i as int), wanted, before, full),
        decreases found@.len() - i,
    {
        assert(all.take(i + 1).drop_last() =~= all.take(i as int));
        assert(all.take(i + 1).last() == found@[i as int]);
        let m = &found[i].1;
        if matches_filters(m.tags(), m.created_at(), ftags, before) {
            let ghost earlier = ranked_views(r@);
            let item = m.to_item(full);
            let ghost seen = (found@[i as int].0, item@);
            r.push((found[i].0, item));
            assert(ranked_views(r@) =~= earlier.push(seen));
        }
        i = i + 1;
    }
    assert(all.take(i as int) =~= all);
    r
}

pub open spec fn keyed(s: Seq<(i64, JsonView)>) -> Seq<(Descending, JsonView)> {
    Seq::new(s.len(), |i: int| (Descending(s[i].0), s[i].1))
}

/// The best items, the best one first, and no more than `limit`.
pub open spec fn best_items(s: Seq<(i64, JsonView)>, limit: int) -> Seq<JsonView> {
    text::at_most(order::seconds(order::ordered(keyed(s))), limit)
}

/// Merge the items of all types by their scores, the highest first, and keep the first few.
pub fn merge_results(items: Vec<(i64, Json)>, limit: usize) -> (r: Vec<Json>)
    ensures
        json::views(r@) == best_items(ranked_views(items@), limit as int),
{
    let ghost all = items@;
    let mut rest = items;
    let mut pairs: Vec<(Descending, Json)> = Vec::new();
    assert(all.skip(0) =~= all);
    while rest.len() > 0
        invariant
            pairs@.len() + rest@.len() == all.len(),
            rest@ == all.skip(pairs@.len() as int),
            forall|j: int|
                0 <= j < pairs@.len() ==> #[trigger] pairs@[j] == (Descending(all[j].0), all[j].1),
        decreases rest@.len(),
    {
        let ghost n = pairs@.len() as int;
        let x = rest.remove(0);
        pairs.push((Descending(x.0), x.1));
        assert(rest@ =~= all.skip(n + 1));
    }
    let ghost f = |j: Json| j@;
    proof {
        order::ordered_relabelled(pairs@, f);
        assert(order::relabelled(pairs@, f) =~= keyed(ranked_views(all)));
    }
    let mut sorted = order::sort(pairs);
    let ghost full = sorted@;
    let mut r: Vec<Json> = Vec::new();
    assert(full.skip(0) =~= full);
    while sorted.len() > 0 && r.len() < limit
        invariant
            r@.len() + sorted@.len() == full.len(),
            r@.len() <= limit,
            sorted@ == full.skip(r@.len() as int),
            forall|j: int| 0 <= j < r@.len() ==> #[trigger] r@[j] == full[j].1,
        decreases sorted@.len(),
    {
        let ghost n = r@.len() as int;
        let x = sorted.remove(0);
        r.push(x.1);
        assert(sorted@ =~= full.skip(n + 1));
    }
    assert(json::views(r@) =~= best_items(ranked_views(all), limit as int));
    r
}

/// The ids of items that have one.
pub open spec fn ids_of(items: Seq<JsonView>) -> Seq<Seq<char>>
    decreases items.len(),
{
    if items.len() == 0 {
        Seq::empty()
    } else {
        let before = ids_of(items.drop_last());
        match json::string_member(items.last(), "id"@) {
            Some(id) => before.push(id),
            None => before,
        }
    }
}

/// The ids of the results, for the query log.
pub fn result_ids(results: &Vec<Json>) -> (r: Vec<String>)
    ensures
        text::texts(r@) == ids_of(json::views(results@)),
{
    let ghost all = json::views(results@);
    let mut r: Vec<String> = Vec::new();
    let mut i: usize = 0;
    assert(all.take(0) =~= Seq::empty());
    assert(text::texts(r@) =~= Seq::empty());
    while i < results.len()
        invariant
            i <= results@.len(),
            all == json::views(results@),
            text::texts(r@) == ids_of(all.take(i as int)),
        decreases results@.len() - i,
    {
        assert(all.take(i + 1).drop_last() =~= all.take(i as int));
        assert(all.take(i + 1).last() == results@[i as int]@);
        match results[i].get_str("id") {
            Some(id) => {
                let ghost before = text::texts(r@);
                r.push(id.to_owned());
                assert(text::texts(r@) =~= before.push(id@));
            },
            None => {},
        }
        i = i + 1;
    }
    assert(all.take(i as int) =~= all);
    r
}

// ---------------------------------------------------------------------------
// Laws
// ---------------------------------------------------------------------------

/// No item that is left out has a higher score than one that is kept, whatever the
/// types of the two.
pub proof fn the_best_are_kept(s: Seq<(i64, JsonView)>, limit: int, kept: int, dropped: int)
    requires
        0 <= kept < limit <= dropped < s.len(),
    ensures
        best_items(s, limit)[kept] == order::ordered(keyed(s))[kept].1,
        order::ordered(keyed(s))[dropped].0.0 <= order::ordered(keyed(s))[kept].0.0,
        best_items(s, limit).len() == limit,
{
    order::ordered_is_sorted(keyed(s));
    let o = order::ordered(keyed(s));
    assert(!o[dropped].0.lt(&o[kept].0));
}

/// Asking for more results only adds to them.
pub proof fn more_results_only_add(s: Seq<(i64, JsonView)>, fewer: int, more: int)
    requires
        0 <= fewer <= more,
    ensures
        text::at_most(best_items(s, more), fewer) == best_items(s, fewer),
{
    let o = order::seconds(order::ordered(keyed(s)));
    if o.len() > fewer {
        assert(text::at_most(o, more).take(fewer) =~= o.take(fewer));
    }
}

/// A memory passes where it carries one of the tags asked for and is older than the time
/// given, each where it is asked for.
pub proof fn filters_narrow_the_search(
    tags: Seq<Seq<char>>,
    created_at: int,
    wanted: Seq<Seq<char>>,
    before: Option<i64>,
)
    ensures
        passes(tags, created_at, wanted, before) <==> {
            &&& wanted.len() > 0 ==> exists|t: Seq<char>| #[trigger]
                tags.contains(t) && wanted.contains(t)
            &&& before matches Some(b) ==> created_at < b
        },
{
    if share_text(tags, wanted) {
        let i = choose|i: int| 0 <= i < tags.len() && wanted.contains(#[trigger] tags[i]);
        assert(tags.contains(tags[i]));
    }
    if exists|t: Seq<char>| #[trigger] tags.contains(t) && wanted.contains(t) {
        let t = choose|t: Seq<char>| #[trigger] tags.contains(t) && wanted.contains(t);
        let i = choose|i: int| 0 <= i < tags.len() && tags[i] == t;
        assert(wanted.contains(tags[i]));
    }
}

/// Of what was found everything that passes the filters is listed, in its order and with
/// its score.
pub proof fn passing_hits_are_all_listed<T: Hit>(
    found: Seq<(i64, T)>,
    wanted: Seq<Seq<char>>,
    before: Option<i64>,
    full: bool,
)
    ensures
        items_of(found, wanted, before, full) == found.filter(
            |f: (i64, T)| passes(f.1.tag_list(), f.1.created(), wanted, before),
        ).map_values(|f: (i64, T)| (f.0, f.1.item(full))),
    decreases found.len(),
{
    reveal(Seq::filter);
    let keeps = |f: (i64, T)| passes(f.1.tag_list(), f.1.created(), wanted, before);
    let shown = |f: (i64, T)| (f.0, f.1.item(full));
    if found.len() > 0 {
        let rest = found.drop_last();
        let f = found.last();
        passing_hits_are_all_listed(rest, wanted, before, full);
        assert(rest.filter(keeps).push(f).map_values(shown) =~= rest.filter(keeps).map_values(
            shown,
        ).push(shown(f)));
    } else {
        assert(items_of(found, wanted, before, full) =~= found.filter(keeps).map_values(shown));
    }
}

/// What is printed of a memory carries its own id, type and time.
pub proof fn printed_hits_name_their_memory(
    e: EpisodicHit,
    d: DecisionMemory,
    f: FailureMemory,
    p: ProceduralMemory,
    full: bool,
)
    ensures
        answers::says(e.item(full), "id"@, JsonView::Str(e.memory.id@)),
        answers::says(e.item(full), "type"@, JsonView::Str("episodic"@)),
        answers::says(e.item(full), "summary"@, JsonView::Str(e.memory.summary@)),
        answers::says(e.item(full), "content"@, JsonView::Str(e.memory.content@)),
        answers::says(d.item(full), "id"@, JsonView::Str(d.id@)),
        answers::says(d.item(full), "type"@, JsonView::Str("decision"@)),
        answers::says(d.item(full), "title"@, JsonView::Str(d.title@)),
        answers::says(d.item(full), "rationale"@, JsonView::Str(d.rationale@)),
        answers::says(f.item(full), "id"@, JsonView::Str(f.id@)),
        answers::says(f.item(full), "type"@, JsonView::Str("failure"@)),
        answers::says(f.item(full), "incident"@, JsonView::Str(f.incident@)),
        answers::says(f.item(full), "fix"@, JsonView::Str(f.fix@)),
        answers::says(p.item(full), "id"@, JsonView::Str(p.id@)),
        answers::says(p.item(full), "type"@, JsonView::Str("procedural"@)),
        answers::says(p.item(full), "workflow"@, JsonView::Str(p.workflow_name@)),
        e.tag_list() == text::texts(e.memory.tags@) && e.created() == e.memory.created_at,
        d.tag_list() == text::texts(d.tags@) && Hit::created(&d) == d.created_at,
        f.tag_list() == text::texts(f.tags@) && Hit::created(&f) == f.created_at,
        p.tag_list() == text::texts(p.tags@) && Hit::created(&p) == p.created_at,
{
    let x = e.item(full)->Object_0;
    assert(x[0] == ("id"@, JsonView::Str(e.memory.id@)));
    assert(x[1] == ("type"@, JsonView::Str("episodic"@)));
    assert(x[2] == ("summary"@, JsonView::Str(e.memory.summary@)));
    assert(x[3] == ("content"@, JsonView::Str(e.memory.content@)));
    let x = d.item(full)->Object_0;
    assert(x[0] == ("id"@, JsonView::Str(d.id@)));
    assert(x[1] == ("type"@, JsonView::Str("decision"@)));
    assert(x[2] == ("title"@, JsonView::Str(d.title@)));
    let k: int = if full { 4 } else { 3 };
    assert(x[k] == ("rationale"@, JsonView::Str(d.rationale@)));
    let x = f.item(full)->Object_0;
    assert(x[0] == ("id"@, JsonView::Str(f.id@)));
    assert(x[1] == ("type"@, JsonView::Str("failure"@)));
    assert(x[2] == ("incident"@, JsonView::Str(f.incident@)));
    assert(x[4] == ("fix"@, JsonView::Str(f.fix@)));
    let x = p.item(full)->Object_0;
    assert(x[0] == ("id"@, JsonView::Str(p.id@)));
    assert(x[1] == ("type"@, JsonView::Str("procedural"@)));
    assert(x[2] == ("workflow"@, JsonView::Str(p.workflow_name@)));
}

/// The items in order are those that were found, the higher score first.
pub proof fn all_items_are_merged(s: Seq<(i64, JsonView)>)
    ensures
        best_items(s, s.len() as int).len() == s.len(),
        best_items(s, s.len() as int).to_multiset() == order::seconds(s).to_multiset(),
        forall|i: int, j: int|
            0 <= i < j < s.len() ==> (#[trigger] order::ordered(keyed(s))[i]).0.0 >= (
            #[trigger] order::ordered(keyed(s))[j]).0.0,
        forall|i: int|
            0 <= i < s.len() ==> s.contains(
                ((#[trigger] order::ordered(keyed(s))[i]).0.0, order::ordered(keyed(s))[i].1),
            ),
{
    let items = keyed(s);
    let sorted = order::ordered(items);
    order::ordered_is_sorted(items);
    order::ordered_seconds_permutation(items);
    assert(order::seconds(items) =~= order::seconds(s));
    assert forall|i: int, j: int| 0 <= i < j < s.len() implies (#[trigger] sorted[i]).0.0 >= (
    #[trigger] sorted[j]).0.0 by {
        assert(!sorted[j].0.lt(&sorted[i].0));
    }
    let known = |p: (Descending, JsonView)| s.contains((p.0.0, p.1));
    assert forall|i: int| 0 <= i < items.len() implies known(#[trigger] items[i]) by {
        assert(s[i] == (items[i].0.0, items[i].1));
    }
    order::ordered_keeps(items, known);
    assert forall|i: int| 0 <= i < s.len() implies s.contains(
        ((#[trigger] sorted[i]).0.0, sorted[i].1),
    ) by {
        assert(known(sorted[i]));
    }
}

/// Every result with an id is logged under it, in order.
pub proof fn every_id_is_logged(items: Seq<JsonView>, item: JsonView)
    ensures
        ids_of(Seq::<JsonView>::empty()) == Seq::<Seq<char>>::empty(),
        json::string_member(item, "id"@) matches Some(id) ==> ids_of(items.push(item)) == ids_of(
            items,
        ).push(id),
        json::string_member(item, "id"@) is None ==> ids_of(items.push(item)) == ids_of(items),
{
    assert(items.push(item).drop_last() =~= items);
}

} // verus!
