//! The answers of the tools and the reports of the commands, as JSON.
use crate::json;
use crate::json::{Json, JsonView};
use crate::text;
use vstd::prelude::*;

verus! {

pub open spec fn created(id: Seq<char>, now: int) -> JsonView {
    JsonView::Object(
        json::members()
            .push(("id"@, JsonView::Str(id)))
            .push(("status"@, JsonView::Str("created"@)))
            .push(("created_at"@, json::integer(now))),
    )
}

/// The answer to the creation of a memory.
pub fn created_json(id: &str, now: i64) -> (r: Json)
    ensures
        r@ == created(id@, now as int),
{
    let mut fields = json::no_fields();
    json::put(&mut fields, "id", Json::str(id));
    json::put(&mut fields, "status", Json::str("created"));
    json::put(&mut fields, "created_at", Json::whole(now));
    Json::object(fields)
}

pub open spec fn created_failure(id: Seq<char>, severity: int, now: int) -> JsonView {
    JsonView::Object(
        json::members()
            .push(("id"@, JsonView::Str(id)))
            .push(("status"@, JsonView::Str("created"@)))
            .push(("severity"@, json::integer(severity)))
            .push(("created_at"@, json::integer(now))),
    )
}

/// The answer to the creation of a failure.
pub fn created_failure_json(id: &str, severity: u8, now: i64) -> (r: Json)
    ensures
        r@ == created_failure(id@, severity as int, now as int),
{
    let mut fields = json::no_fields();
    json::put(&mut fields, "id", Json::str(id));
    json::put(&mut fields, "status", Json::str("created"));
    json::put(&mut fields, "severity", Json::whole(severity as i64));
    json::put(&mut fields, "created_at", Json::whole(now));
    Json::object(fields)
}

pub open spec fn session_created(
    id: Seq<char>,
    session_id: Seq<char>,
    file_count: int,
    now: int,
) -> JsonView {
    JsonView::Object(
        json::members()
            .push(("id"@, JsonView::Str(id)))
            .push(("status"@, JsonView::Str("created"@)))
            .push(("session_id"@, JsonView::Str(session_id)))
            .push(("files"@, json::integer(file_count)))
            .push(("created_at"@, json::integer(now))),
    )
}

/// The answer to the import of a session.
pub fn session_created_json(id: &str, session_id: &str, file_count: usize, now: i64) -> (r: Json)
    ensures
        r@ == session_created(id@, session_id@, file_count as int, now as int),
{
    let mut fields = json::no_fields();
    json::put(&mut fields, "id", Json::str(id));
    json::put(&mut fields, "status", Json::str("created"));
    json::put(&mut fields, "session_id", Json::str(session_id));
    json::put(&mut fields, "files", Json::count(file_count));
    json::put(&mut fields, "created_at", Json::whole(now));
    Json::object(fields)
}

pub open spec fn session_preview(memory: JsonView) -> JsonView {
    JsonView::Object(
        json::members()
            .push(("dry_run"@, JsonView::Bool(true)))
            .push(("would_create"@, memory)),
    )
}

/// What an import of a session would create.
pub fn session_preview_json(memory: Json) -> (r: Json)
    ensures
        r@ == session_preview(memory@),
{
    let mut fields = json::no_fields();
    json::put(&mut fields, "dry_run", Json::Bool(true));
    json::put(&mut fields, "would_create", memory);
    Json::object(fields)
}

pub open spec fn forgotten(id: Seq<char>, archived: bool) -> JsonView {
    JsonView::Object(
        json::members()
            .push(("id"@, JsonView::Str(id)))
            .push(("archived"@, JsonView::Bool(archived)))
            .push(
                (
                    "status"@,
                    JsonView::Str(
                        if archived { "archived"@ } else { "not_found_or_already_archived"@ },
                    ),
                ),
            ),
    )
}

/// The answer to `forget_memory`.
pub fn forgotten_json(id: &str, archived: bool) -> (r: Json)
    ensures
        r@ == forgotten(id@, archived),
{
    let mut fields = json::no_fields();
    json::put(&mut fields, "id", Json::str(id));
    json::put(&mut fields, "archived", Json::Bool(archived));
    json::put(
        &mut fields,
        "status",
        Json::str(if archived { "archived" } else { "not_found_or_already_archived" }),
    );
    Json::object(fields)
}

pub open spec fn archive_report(id: Seq<char>, archived: bool) -> JsonView {
    JsonView::Object(
        json::members()
            .push(("id"@, JsonView::Str(id)))
            .push(("archived"@, JsonView::Bool(archived))),
    )
}

/// What the command line prints for an archived memory.
pub fn archive_report_json(id: &str, archived: bool) -> (r: Json)
    ensures
        r@ == archive_report(id@, archived),
{
    let mut fields = json::no_fields();
    json::put(&mut fields, "id", Json::str(id));
    json::put(&mut fields, "archived", Json::Bool(archived));
    Json::object(fields)
}

pub open spec fn restored_answer(id: Seq<char>, restored: bool) -> JsonView {
    JsonView::Object(
        json::members()
            .push(("id"@, JsonView::Str(id)))
            .push(("restored"@, JsonView::Bool(restored)))
            .push(
                (
                    "status"@,
                    JsonView::Str(if restored { "restored"@ } else { "not_found_or_active"@ }),
                ),
            ),
    )
}

/// The answer to `restore_memory`.
pub fn restored_answer_json(id: &str, restored: bool) -> (r: Json)
    ensures
        r@ == restored_answer(id@, restored),
{
    let mut fields = json::no_fields();
    json::put(&mut fields, "id", Json::str(id));
    json::put(&mut fields, "restored", Json::Bool(restored));
    json::put(
        &mut fields,
        "status",
        Json::str(if restored { "restored" } else { "not_found_or_active" }),
    );
    Json::object(fields)
}

pub open spec fn restore_report(id: Seq<char>, restored: bool) -> JsonView {
    JsonView::Object(
        json::members()
            .push(("id"@, JsonView::Str(id)))
            .push(("restored"@, JsonView::Bool(restored))),
    )
}

/// What the command line prints for a restored memory.
pub fn restore_report_json(id: &str, restored: bool) -> (r: Json)
    ensures
        r@ == restore_report(id@, restored),
{
    let mut fields = json::no_fields();
    json::put(&mut fields, "id", Json::str(id));
    json::put(&mut fields, "restored", Json::Bool(restored));
    Json::object(fields)
}

pub open spec fn updated(id: Seq<char>, now: int) -> JsonView {
    JsonView::Object(
        json::members()
            .push(("id"@, JsonView::Str(id)))
            .push(("status"@, JsonView::Str("updated"@)))
            .push(("updated_at"@, json::integer(now))),
    )
}

/// The answer to `update_memory`.
pub fn updated_json(id: &str, now: i64) -> (r: Json)
    ensures
        r@ == updated(id@, now as int),
{
    let mut fields = json::no_fields();
    json::put(&mut fields, "id", Json::str(id));
    json::put(&mut fields, "status", Json::str("updated"));
    json::put(&mut fields, "updated_at", Json::whole(now));
    Json::object(fields)
}

pub open spec fn update_report(id: Seq<char>) -> JsonView {
    JsonView::Object(
        json::members()
            .push(("id"@, JsonView::Str(id)))
            .push(("status"@, JsonView::Str("updated"@))),
    )
}

/// What the command line prints for an updated memory.
pub fn update_report_json(id: &str) -> (r: Json)
    ensures
        r@ == update_report(id@),
{
    let mut fields = json::no_fields();
    json::put(&mut fields, "id", Json::str(id));
    json::put(&mut fields, "status", Json::str("updated"));
    Json::object(fields)
}

pub open spec fn matched_memory(id: Seq<char>, memory_type: Seq<char>) -> JsonView {
    JsonView::Object(
        json::members()
            .push(("id"@, JsonView::Str(id)))
            .push(("memory_type"@, JsonView::Str(memory_type))),
    )
}

/// A memory that a batch matched.
pub fn matched_memory_json(id: &str, memory_type: &str) -> (r: Json)
    ensures
        r@ == matched_memory(id@, memory_type@),
{
    let mut fields = json::no_fields();
    json::put(&mut fields, "id", Json::str(id));
    json::put(&mut fields, "memory_type", Json::str(memory_type));
    Json::object(fields)
}

pub open spec fn batch(applied: bool, matched: Seq<JsonView>) -> JsonView {
    JsonView::Object(
        json::members()
            .push(("applied"@, JsonView::Bool(applied)))
            .push(("matched"@, JsonView::Array(matched)))
            .push(("count"@, json::integer(matched.len() as int))),
    )
}

/// The answer to `forget_batch`.
pub fn batch_json(applied: bool, matched: Vec<Json>) -> (r: Json)
    ensures
        r@ == batch(applied, json::views(matched@)),
{
    assert(json::views(matched@).len() == matched@.len());
    let matched_len: usize = matched.len();
    let mut fields = json::no_fields();
    json::put(&mut fields, "applied", Json::Bool(applied));
    json::put(&mut fields, "matched", Json::array(matched));
    json::put(&mut fields, "count", Json::count(matched_len));
    Json::object(fields)
}

pub open spec fn archived_list(archived: Seq<JsonView>) -> JsonView {
    JsonView::Object(
        json::members()
            .push(("archived"@, JsonView::Array(archived)))
            .push(("count"@, json::integer(archived.len() as int))),
    )
}

/// The answer to `list_archived`.
pub fn archived_list_json(archived: Vec<Json>) -> (r: Json)
    ensures
        r@ == archived_list(json::views(archived@)),
{
    assert(json::views(archived@).len() == archived@.len());
    let archived_len: usize = archived.len();
    let mut fields = json::no_fields();
    json::put(&mut fields, "archived", Json::array(archived));
    json::put(&mut fields, "count", Json::count(archived_len));
    Json::object(fields)
}

pub open spec fn group_item(
    keeper_id: Seq<char>,
    duplicate_ids: Seq<Seq<char>>,
    reason: Seq<char>,
) -> JsonView {
    JsonView::Object(
        json::members()
            .push(("keeper_id"@, JsonView::Str(keeper_id)))
            .push(("duplicate_ids"@, JsonView::Array(json::strings(duplicate_ids))))
            .push(("reason"@, JsonView::Str(reason))),
    )
}

/// A group of duplicates.
pub fn group_item_json(keeper_id: &str, duplicate_ids: &Vec<String>, reason: &str) -> (r: Json)
    ensures
        r@ == group_item(keeper_id@, text::texts(duplicate_ids@), reason@),
{
    let mut fields = json::no_fields();
    json::put(&mut fields, "keeper_id", Json::str(keeper_id));
    json::put(&mut fields, "duplicate_ids", json::string_array(duplicate_ids));
    json::put(&mut fields, "reason", Json::str(reason));
    Json::object(fields)
}

pub open spec fn plan_item(
    memory_type: Seq<char>,
    groups: Seq<JsonView>,
    archived: int,
) -> JsonView {
    JsonView::Object(
        json::members()
            .push(("memory_type"@, JsonView::Str(memory_type)))
            .push(("groups"@, JsonView::Array(groups)))
            .push(("archived"@, json::integer(archived))),
    )
}

/// The consolidation of one kind of memory.
pub fn plan_item_json(memory_type: &str, groups: Vec<Json>, archived: usize) -> (r: Json)
    ensures
        r@ == plan_item(memory_type@, json::views(groups@), archived as int),
{
    let mut fields = json::no_fields();
    json::put(&mut fields, "memory_type", Json::str(memory_type));
    json::put(&mut fields, "groups", Json::array(groups));
    json::put(&mut fields, "archived", Json::count(archived));
    Json::object(fields)
}

pub open spec fn consolidated(
    applied: bool,
    plans: Seq<JsonView>,
    total_archived: int,
) -> JsonView {
    JsonView::Object(
        json::members()
            .push(("applied"@, JsonView::Bool(applied)))
            .push(("plans"@, JsonView::Array(plans)))
            .push(("total_archived"@, json::integer(total_archived))),
    )
}

/// The answer to `consolidate_memories`.
pub fn consolidated_json(applied: bool, plans: Vec<Json>, total_archived: usize) -> (r: Json)
    ensures
        r@ == consolidated(applied, json::views(plans@), total_archived as int),
{
    let mut fields = json::no_fields();
    json::put(&mut fields, "applied", Json::Bool(applied));
    json::put(&mut fields, "plans", Json::array(plans));
    json::put(&mut fields, "total_archived", Json::count(total_archived));
    Json::object(fields)
}

pub open spec fn fetched(memory_type: Seq<char>, memory: JsonView) -> JsonView {
    JsonView::Object(
        json::members()
            .push(("memory_type"@, JsonView::Str(memory_type)))
            .push(("memory"@, memory)),
    )
}

/// A memory that was asked for by its id.
pub fn fetched_json(memory_type: &str, memory: Json) -> (r: Json)
    ensures
        r@ == fetched(memory_type@, memory@),
{
    let mut fields = json::no_fields();
    json::put(&mut fields, "memory_type", Json::str(memory_type));
    json::put(&mut fields, "memory", memory);
    Json::object(fields)
}

pub open spec fn relation(to: Seq<char>, relation_type: Seq<char>) -> JsonView {
    JsonView::Object(
        json::members()
            .push(("to"@, JsonView::Str(to)))
            .push(("type"@, JsonView::Str(relation_type))),
    )
}

/// An edge of a file to another entity.
pub fn relation_json(to: &str, relation_type: &str) -> (r: Json)
    ensures
        r@ == relation(to@, relation_type@),
{
    let mut fields = json::no_fields();
    json::put(&mut fields, "to", Json::str(to));
    json::put(&mut fields, "type", Json::str(relation_type));
    Json::object(fields)
}

pub open spec fn related(
    entity_id: Seq<char>,
    file: Seq<char>,
    relations: Seq<JsonView>,
) -> JsonView {
    JsonView::Object(
        json::members()
            .push(("entities"@, JsonView::Array(Seq::empty().push(JsonView::Object(
                json::members()
                    .push(("id"@, JsonView::Str(entity_id)))
                    .push(("type"@, JsonView::Str("File"@)))
                    .push(("name"@, JsonView::Str(file)))
                    .push(("relations"@, JsonView::Array(relations))),
            ))))),
    )
}

/// The answer to `related_files`.
pub fn related_json(entity_id: &str, file: &str, relations: Vec<Json>) -> (r: Json)
    ensures
        r@ == related(entity_id@, file@, json::views(relations@)),
{
    let mut fields1 = json::no_fields();
    json::put(&mut fields1, "id", Json::str(entity_id));
    json::put(&mut fields1, "type", Json::str("File"));
    json::put(&mut fields1, "name", Json::str(file));
    json::put(&mut fields1, "relations", Json::array(relations));
    let mut fields2 = json::no_fields();
    json::put(&mut fields2, "entities", json::single(Json::object(fields1)));
    Json::object(fields2)
}

pub open spec fn day_count(day: Seq<char>, episodes: int) -> JsonView {
    JsonView::Object(
        json::members()
            .push(("date"@, JsonView::Str(day)))
            .push(("episodic_count"@, json::integer(episodes))),
    )
}

/// How many episodes a day has.
pub fn day_count_json(day: &str, episodes: i64) -> (r: Json)
    ensures
        r@ == day_count(day@, episodes as int),
{
    let mut fields = json::no_fields();
    json::put(&mut fields, "date", Json::str(day));
    json::put(&mut fields, "episodic_count", Json::whole(episodes));
    Json::object(fields)
}

pub open spec fn timeline(events: Seq<JsonView>) -> JsonView {
    JsonView::Object(
        json::members()
            .push(("events"@, JsonView::Array(events))),
    )
}

/// The answer to `timeline`.
pub fn timeline_json(events: Vec<Json>) -> (r: Json)
    ensures
        r@ == timeline(json::views(events@)),
{
    let mut fields = json::no_fields();
    json::put(&mut fields, "events", Json::array(events));
    Json::object(fields)
}

pub open spec fn query_count(
    query: Seq<char>,
    times: int,
    average: JsonView,
    last_at: int,
) -> JsonView {
    JsonView::Object(
        json::members()
            .push(("query"@, JsonView::Str(query)))
            .push(("count"@, json::integer(times)))
            .push(("result_count_avg"@, average))
            .push(("last_at"@, json::integer(last_at))),
    )
}

/// How often a query was asked. The average is handed over as a number of its own.
pub fn query_count_json(query: &str, times: i64, average: Json, last_at: i64) -> (r: Json)
    ensures
        r@ == query_count(query@, times as int, average@, last_at as int),
{
    let mut fields = json::no_fields();
    json::put(&mut fields, "query", Json::str(query));
    json::put(&mut fields, "count", Json::whole(times));
    json::put(&mut fields, "result_count_avg", average);
    json::put(&mut fields, "last_at", Json::whole(last_at));
    Json::object(fields)
}

pub open spec fn query_list(queries: Seq<JsonView>) -> JsonView {
    JsonView::Object(
        json::members()
            .push(("queries"@, JsonView::Array(queries))),
    )
}

/// The answer to `query_stats`.
pub fn query_list_json(queries: Vec<Json>) -> (r: Json)
    ensures
        r@ == query_list(json::views(queries@)),
{
    let mut fields = json::no_fields();
    json::put(&mut fields, "queries", Json::array(queries));
    Json::object(fields)
}

pub open spec fn failure_brief(
    id: Seq<char>,
    incident: Seq<char>,
    severity: int,
    created_at: int,
) -> JsonView {
    JsonView::Object(
        json::members()
            .push(("id"@, JsonView::Str(id)))
            .push(("incident"@, JsonView::Str(incident)))
            .push(("severity"@, json::integer(severity)))
            .push(("created_at"@, json::integer(created_at))),
    )
}

/// A failure in the answer to `recent_failures`.
pub fn failure_brief_json(id: &str, incident: &str, severity: u8, created_at: i64) -> (r: Json)
    ensures
        r@ == failure_brief(id@, incident@, severity as int, created_at as int),
{
    let mut fields = json::no_fields();
    json::put(&mut fields, "id", Json::str(id));
    json::put(&mut fields, "incident", Json::str(incident));
    json::put(&mut fields, "severity", Json::whole(severity as i64));
    json::put(&mut fields, "created_at", Json::whole(created_at));
    Json::object(fields)
}

pub open spec fn failure_list(failures: Seq<JsonView>) -> JsonView {
    JsonView::Object(
        json::members()
            .push(("failures"@, JsonView::Array(failures))),
    )
}

/// The answer to `recent_failures`.
pub fn failure_list_json(failures: Vec<Json>) -> (r: Json)
    ensures
        r@ == failure_list(json::views(failures@)),
{
    let mut fields = json::no_fields();
    json::put(&mut fields, "failures", Json::array(failures));
    Json::object(fields)
}

pub open spec fn failure_row(
    id: Seq<char>,
    incident: Seq<char>,
    root_cause: Seq<char>,
    fix: Seq<char>,
    severity: int,
    created_at: int,
) -> JsonView {
    JsonView::Object(
        json::members()
            .push(("id"@, JsonView::Str(id)))
            .push(("incident"@, JsonView::Str(incident)))
            .push(("root_cause"@, JsonView::Str(root_cause)))
            .push(("fix"@, JsonView::Str(fix)))
            .push(("severity"@, json::integer(severity)))
            .push(("created_at"@, json::integer(created_at))),
    )
}

/// A failure as the command line lists it.
pub fn failure_row_json(
    id: &str,
    incident: &str,
    root_cause: &str,
    fix: &str,
    severity: u8,
    created_at: i64,
) -> (r: Json)
    ensures
        r@ == failure_row(id@, incident@, root_cause@, fix@, severity as int, created_at as int),
{
    let mut fields = json::no_fields();
    json::put(&mut fields, "id", Json::str(id));
    json::put(&mut fields, "incident", Json::str(incident));
    json::put(&mut fields, "root_cause", Json::str(root_cause));
    json::put(&mut fields, "fix", Json::str(fix));
    json::put(&mut fields, "severity", Json::whole(severity as i64));
    json::put(&mut fields, "created_at", Json::whole(created_at));
    Json::object(fields)
}

pub open spec fn failure_table(failures: Seq<JsonView>) -> JsonView {
    JsonView::Object(
        json::members()
            .push(("failures"@, JsonView::Array(failures)))
            .push(("total"@, json::integer(failures.len() as int))),
    )
}

/// The failures that the command line lists.
pub fn failure_table_json(failures: Vec<Json>) -> (r: Json)
    ensures
        r@ == failure_table(json::views(failures@)),
{
    assert(json::views(failures@).len() == failures@.len());
    let failures_len: usize = failures.len();
    let mut fields = json::no_fields();
    json::put(&mut fields, "failures", Json::array(failures));
    json::put(&mut fields, "total", Json::count(failures_len));
    Json::object(fields)
}

pub open spec fn decision_brief(
    id: Seq<char>,
    title: Seq<char>,
    rationale: Seq<char>,
    created_at: int,
) -> JsonView {
    JsonView::Object(
        json::members()
            .push(("id"@, JsonView::Str(id)))
            .push(("title"@, JsonView::Str(title)))
            .push(("rationale"@, JsonView::Str(rationale)))
            .push(("created_at"@, json::integer(created_at))),
    )
}

/// A decision in the answer to `architectural_decisions`.
pub fn decision_brief_json(id: &str, title: &str, rationale: &str, created_at: i64) -> (r: Json)
    ensures
        r@ == decision_brief(id@, title@, rationale@, created_at as int),
{
    let mut fields = json::no_fields();
    json::put(&mut fields, "id", Json::str(id));
    json::put(&mut fields, "title", Json::str(title));
    json::put(&mut fields, "rationale", Json::str(rationale));
    json::put(&mut fields, "created_at", Json::whole(created_at));
    Json::object(fields)
}

pub open spec fn decision_list(decisions: Seq<JsonView>) -> JsonView {
    JsonView::Object(
        json::members()
            .push(("decisions"@, JsonView::Array(decisions))),
    )
}

/// The answer to `architectural_decisions`.
pub fn decision_list_json(decisions: Vec<Json>) -> (r: Json)
    ensures
        r@ == decision_list(json::views(decisions@)),
{
    let mut fields = json::no_fields();
    json::put(&mut fields, "decisions", Json::array(decisions));
    Json::object(fields)
}

pub open spec fn decision_row(
    id: Seq<char>,
    title: Seq<char>,
    context: Seq<char>,
    rationale: Seq<char>,
    tradeoffs: Seq<char>,
    created_at: int,
) -> JsonView {
    JsonView::Object(
        json::members()
            .push(("id"@, JsonView::Str(id)))
            .push(("title"@, JsonView::Str(title)))
            .push(("context"@, JsonView::Str(context)))
            .push(("rationale"@, JsonView::Str(rationale)))
            .push(("tradeoffs"@, JsonView::Str(tradeoffs)))
            .push(("created_at"@, json::integer(created_at))),
    )
}

/// A decision as the command line lists it.
pub fn decision_row_json(
    id: &str,
    title: &str,
    context: &str,
    rationale: &str,
    tradeoffs: &str,
    created_at: i64,
) -> (r: Json)
    ensures
        r@ == decision_row(id@, title@, context@, rationale@, tradeoffs@, created_at as int),
{
    let mut fields = json::no_fields();
    json::put(&mut fields, "id", Json::str(id));
    json::put(&mut fields, "title", Json::str(title));
    json::put(&mut fields, "context", Json::str(context));
    json::put(&mut fields, "rationale", Json::str(rationale));
    json::put(&mut fields, "tradeoffs", Json::str(tradeoffs));
    json::put(&mut fields, "created_at", Json::whole(created_at));
    Json::object(fields)
}

pub open spec fn decision_table(decisions: Seq<JsonView>) -> JsonView {
    JsonView::Object(
        json::members()
            .push(("decisions"@, JsonView::Array(decisions)))
            .push(("total"@, json::integer(decisions.len() as int))),
    )
}

/// The decisions that the command line lists.
pub fn decision_table_json(decisions: Vec<Json>) -> (r: Json)
    ensures
        r@ == decision_table(json::views(decisions@)),
{
    assert(json::views(decisions@).len() == decisions@.len());
    let decisions_len: usize = decisions.len();
    let mut fields = json::no_fields();
    json::put(&mut fields, "decisions", Json::array(decisions));
    json::put(&mut fields, "total", Json::count(decisions_len));
    Json::object(fields)
}

pub open spec fn hit(
    id: Seq<char>,
    memory_type: Seq<char>,
    summary: Seq<char>,
    relevance: JsonView,
    importance: JsonView,
    created_at: int,
) -> JsonView {
    JsonView::Object(
        json::members()
            .push(("id"@, JsonView::Str(id)))
            .push(("memory_type"@, JsonView::Str(memory_type)))
            .push(("summary"@, JsonView::Str(summary)))
            .push(("relevance_score"@, relevance))
            .push(("importance"@, importance))
            .push(("created_at"@, json::integer(created_at))),
    )
}

/// A result in the answer to `search_memory`. Both numbers are handed over rounded.
pub fn hit_json(
    id: &str,
    memory_type: &str,
    summary: &str,
    relevance: Json,
    importance: Json,
    created_at: i64,
) -> (r: Json)
    ensures
        r@ == hit(id@, memory_type@, summary@, relevance@, importance@, created_at as int),
{
    let mut fields = json::no_fields();
    json::put(&mut fields, "id", Json::str(id));
    json::put(&mut fields, "memory_type", Json::str(memory_type));
    json::put(&mut fields, "summary", Json::str(summary));
    json::put(&mut fields, "relevance_score", relevance);
    json::put(&mut fields, "importance", importance);
    json::put(&mut fields, "created_at", Json::whole(created_at));
    Json::object(fields)
}

pub open spec fn search_answer(results: Seq<JsonView>, context: Seq<char>) -> JsonView {
    JsonView::Object(
        json::members()
            .push(("results"@, JsonView::Array(results)))
            .push(("total"@, json::integer(results.len() as int)))
            .push(("context"@, JsonView::Str(context))),
    )
}

/// The answer to `search_memory`.
pub fn search_answer_json(results: Vec<Json>, context: &str) -> (r: Json)
    ensures
        r@ == search_answer(json::views(results@), context@),
{
    assert(json::views(results@).len() == results@.len());
    let results_len: usize = results.len();
    let mut fields = json::no_fields();
    json::put(&mut fields, "results", Json::array(results));
    json::put(&mut fields, "total", Json::count(results_len));
    json::put(&mut fields, "context", Json::str(context));
    Json::object(fields)
}

pub open spec fn search_report(results: Seq<JsonView>) -> JsonView {
    JsonView::Object(
        json::members()
            .push(("results"@, JsonView::Array(results)))
            .push(("total"@, json::integer(results.len() as int))),
    )
}

/// What the command line prints for a search.
pub fn search_report_json(results: Vec<Json>) -> (r: Json)
    ensures
        r@ == search_report(json::views(results@)),
{
    assert(json::views(results@).len() == results@.len());
    let results_len: usize = results.len();
    let mut fields = json::no_fields();
    json::put(&mut fields, "results", Json::array(results));
    json::put(&mut fields, "total", Json::count(results_len));
    Json::object(fields)
}

pub open spec fn ingested_memory(
    id: Seq<char>,
    summary: Seq<char>,
    files: Seq<Seq<char>>,
) -> JsonView {
    JsonView::Object(
        json::members()
            .push(("id"@, JsonView::Str(id)))
            .push(("summary"@, JsonView::Str(summary)))
            .push(("files_touched"@, JsonView::Array(json::strings(files)))),
    )
}

/// A memory in the answer to `ingest_commits`.
pub fn ingested_memory_json(id: &str, summary: &str, files: &Vec<String>) -> (r: Json)
    ensures
        r@ == ingested_memory(id@, summary@, text::texts(files@)),
{
    let mut fields = json::no_fields();
    json::put(&mut fields, "id", Json::str(id));
    json::put(&mut fields, "summary", Json::str(summary));
    json::put(&mut fields, "files_touched", json::string_array(files));
    Json::object(fields)
}

pub open spec fn ingested_row(
    id: Seq<char>,
    summary: Seq<char>,
    commits: int,
    files: Seq<Seq<char>>,
) -> JsonView {
    JsonView::Object(
        json::members()
            .push(("id"@, JsonView::Str(id)))
            .push(("summary"@, JsonView::Str(summary)))
            .push(("commits"@, json::integer(commits)))
            .push(("files"@, JsonView::Array(json::strings(files)))),
    )
}

/// A memory that the command line reports as ingested.
pub fn ingested_row_json(id: &str, summary: &str, commits: usize, files: &Vec<String>) -> (r: Json)
    ensures
        r@ == ingested_row(id@, summary@, commits as int, text::texts(files@)),
{
    let mut fields = json::no_fields();
    json::put(&mut fields, "id", Json::str(id));
    json::put(&mut fields, "summary", Json::str(summary));
    json::put(&mut fields, "commits", Json::count(commits));
    json::put(&mut fields, "files", json::string_array(files));
    Json::object(fields)
}

pub open spec fn ingested(scanned: int, skipped: int, memories: Seq<JsonView>) -> JsonView {
    JsonView::Object(
        json::members()
            .push(("ingested"@, json::integer(memories.len() as int)))
            .push(("total_commits_scanned"@, json::integer(scanned)))
            .push(("skipped_duplicates"@, json::integer(skipped)))
            .push(("memories"@, JsonView::Array(memories))),
    )
}

/// The answer to `ingest_commits`.
pub fn ingested_json(scanned: usize, skipped: usize, memories: Vec<Json>) -> (r: Json)
    ensures
        r@ == ingested(scanned as int, skipped as int, json::views(memories@)),
{
    assert(json::views(memories@).len() == memories@.len());
    let memories_len: usize = memories.len();
    let mut fields = json::no_fields();
    json::put(&mut fields, "ingested", Json::count(memories_len));
    json::put(&mut fields, "total_commits_scanned", Json::count(scanned));
    json::put(&mut fields, "skipped_duplicates", Json::count(skipped));
    json::put(&mut fields, "memories", Json::array(memories));
    Json::object(fields)
}

pub open spec fn rule_item(
    pattern_tag: Seq<char>,
    source_failure_ids: Seq<Seq<char>>,
    source_preventions: Seq<Seq<char>>,
    occurrence_count: int,
    suggested_workflow_name: Seq<char>,
    suggested_steps: Seq<Seq<char>>,
    suggested_tags: Seq<Seq<char>>,
) -> JsonView {
    JsonView::Object(
        json::members()
            .push(("pattern_tag"@, JsonView::Str(pattern_tag)))
            .push(("source_failure_ids"@, JsonView::Array(json::strings(source_failure_ids))))
            .push(("source_preventions"@, JsonView::Array(json::strings(source_preventions))))
            .push(("occurrence_count"@, json::integer(occurrence_count)))
            .push(("suggested_workflow_name"@, JsonView::Str(suggested_workflow_name)))
            .push(("suggested_steps"@, JsonView::Array(json::strings(suggested_steps))))
            .push(("suggested_tags"@, JsonView::Array(json::strings(suggested_tags)))),
    )
}

/// A rule that reflection proposes.
pub fn rule_item_json(
    pattern_tag: &str,
    source_failure_ids: &Vec<String>,
    source_preventions: &Vec<String>,
    occurrence_count: usize,
    suggested_workflow_name: &str,
    suggested_steps: &Vec<String>,
    suggested_tags: &Vec<String>,
) -> (r: Json)
    ensures
        r@ == rule_item(
            pattern_tag@,
            text::texts(source_failure_ids@),
            text::texts(source_preventions@),
            occurrence_count as int,
            suggested_workflow_name@,
            text::texts(suggested_steps@),
            text::texts(suggested_tags@),
        ),
{
    let mut fields = json::no_fields();
    json::put(&mut fields, "pattern_tag", Json::str(pattern_tag));
    json::put(&mut fields, "source_failure_ids", json::string_array(source_failure_ids));
    json::put(&mut fields, "source_preventions", json::string_array(source_preventions));
    json::put(&mut fields, "occurrence_count", Json::count(occurrence_count));
    json::put(&mut fields, "suggested_workflow_name", Json::str(suggested_workflow_name));
    json::put(&mut fields, "suggested_steps", json::string_array(suggested_steps));
    json::put(&mut fields, "suggested_tags", json::string_array(suggested_tags));
    Json::object(fields)
}

pub open spec fn reflected(
    applied: bool,
    min_occurrences: int,
    made: int,
    suggestions: Seq<JsonView>,
) -> JsonView {
    JsonView::Object(
        json::members()
            .push(("applied"@, JsonView::Bool(applied)))
            .push(("min_occurrences"@, json::integer(min_occurrences)))
            .push(("proposed"@, json::integer(suggestions.len() as int)))
            .push(("created"@, json::integer(made)))
            .push(("suggestions"@, JsonView::Array(suggestions))),
    )
}

/// What a reflection pass proposes and has written.
pub fn reflected_json(
    applied: bool,
    min_occurrences: usize,
    made: usize,
    suggestions: Vec<Json>,
) -> (r: Json)
    ensures
        r@ == reflected(applied, min_occurrences as int, made as int, json::views(suggestions@)),
{
    assert(json::views(suggestions@).len() == suggestions@.len());
    let suggestions_len: usize = suggestions.len();
    let mut fields = json::no_fields();
    json::put(&mut fields, "applied", Json::Bool(applied));
    json::put(&mut fields, "min_occurrences", Json::count(min_occurrences));
    json::put(&mut fields, "proposed", Json::count(suggestions_len));
    json::put(&mut fields, "created", Json::count(made));
    json::put(&mut fields, "suggestions", Json::array(suggestions));
    Json::object(fields)
}

pub open spec fn pending(suggestions: Seq<JsonView>) -> JsonView {
    JsonView::Object(
        json::members()
            .push(("count"@, json::integer(suggestions.len() as int)))
            .push(("suggestions"@, JsonView::Array(suggestions))),
    )
}

/// The proposals that await confirmation.
pub fn pending_json(suggestions: Vec<Json>) -> (r: Json)
    ensures
        r@ == pending(json::views(suggestions@)),
{
    assert(json::views(suggestions@).len() == suggestions@.len());
    let suggestions_len: usize = suggestions.len();
    let mut fields = json::no_fields();
    json::put(&mut fields, "count", Json::count(suggestions_len));
    json::put(&mut fields, "suggestions", Json::array(suggestions));
    Json::object(fields)
}

pub open spec fn confirmed(id: Seq<char>, procedural_id: Seq<char>) -> JsonView {
    JsonView::Object(
        json::members()
            .push(("id"@, JsonView::Str(id)))
            .push(("status"@, JsonView::Str("confirmed"@)))
            .push(("procedural_id"@, JsonView::Str(procedural_id))),
    )
}

/// A proposal that became a memory.
pub fn confirmed_json(id: &str, procedural_id: &str) -> (r: Json)
    ensures
        r@ == confirmed(id@, procedural_id@),
{
    let mut fields = json::no_fields();
    json::put(&mut fields, "id", Json::str(id));
    json::put(&mut fields, "status", Json::str("confirmed"));
    json::put(&mut fields, "procedural_id", Json::str(procedural_id));
    Json::object(fields)
}

pub open spec fn rejected(id: Seq<char>) -> JsonView {
    JsonView::Object(
        json::members()
            .push(("id"@, JsonView::Str(id)))
            .push(("status"@, JsonView::Str("rejected"@))),
    )
}

/// A proposal that was discarded.
pub fn rejected_json(id: &str) -> (r: Json)
    ensures
        r@ == rejected(id@),
{
    let mut fields = json::no_fields();
    json::put(&mut fields, "id", Json::str(id));
    json::put(&mut fields, "status", Json::str("rejected"));
    Json::object(fields)
}

pub open spec fn stale_item(
    memory_type: Seq<char>,
    id: Seq<char>,
    label: Seq<char>,
    files: Seq<Seq<char>>,
) -> JsonView {
    JsonView::Object(
        json::members()
            .push(("memory_type"@, JsonView::Str(memory_type)))
            .push(("id"@, JsonView::Str(id)))
            .push(("label"@, JsonView::Str(label)))
            .push(("files"@, JsonView::Array(json::strings(files)))),
    )
}

/// A memory none of whose files exist any more.
pub fn stale_item_json(memory_type: &str, id: &str, label: &str, files: &Vec<String>) -> (r: Json)
    ensures
        r@ == stale_item(memory_type@, id@, label@, text::texts(files@)),
{
    let mut fields = json::no_fields();
    json::put(&mut fields, "memory_type", Json::str(memory_type));
    json::put(&mut fields, "id", Json::str(id));
    json::put(&mut fields, "label", Json::str(label));
    json::put(&mut fields, "files", json::string_array(files));
    Json::object(fields)
}

pub open spec fn stale_project(
    checked: int,
    stale: Seq<JsonView>,
    total: int,
    truncated: bool,
) -> JsonView {
    JsonView::Object(
        json::members()
            .push(("memories_with_file_refs"@, json::integer(checked)))
            .push(("stale"@, JsonView::Array(stale)))
            .push(("stale_total"@, json::integer(total)))
            .push(("truncated"@, JsonView::Bool(truncated))),
    )
}

/// What the staleness pass found in a project.
pub fn stale_project_json(
    checked: usize,
    stale: Vec<Json>,
    total: usize,
    truncated: bool,
) -> (r: Json)
    ensures
        r@ == stale_project(checked as int, json::views(stale@), total as int, truncated),
{
    let mut fields = json::no_fields();
    json::put(&mut fields, "memories_with_file_refs", Json::count(checked));
    json::put(&mut fields, "stale", Json::array(stale));
    json::put(&mut fields, "stale_total", Json::count(total));
    json::put(&mut fields, "truncated", Json::Bool(truncated));
    Json::object(fields)
}

pub open spec fn stale_skipped() -> JsonView {
    JsonView::Object(
        json::members()
            .push(("skipped"@, JsonView::Str("pass --repo <path> to check file staleness"@))),
    )
}

/// The staleness pass was not asked for.
pub fn stale_skipped_json() -> (r: Json)
    ensures
        r@ == stale_skipped(),
{
    let mut fields = json::no_fields();
    json::put(&mut fields, "skipped", Json::str("pass --repo <path> to check file staleness"));
    Json::object(fields)
}

pub open spec fn maintained(
    applied: bool,
    projects: Seq<Seq<char>>,
    groups: int,
    duplicates: int,
    rebuilt: int,
    pruned: int,
    stale: JsonView,
    eligible: int,
) -> JsonView {
    JsonView::Object(
        json::members()
            .push(("applied"@, JsonView::Bool(applied)))
            .push(("projects"@, JsonView::Array(json::strings(projects))))
            .push(("consolidate"@, JsonView::Object(
                json::members()
                    .push(("duplicate_groups"@, json::integer(groups)))
                    .push(("duplicates"@, json::integer(duplicates)))
                    .push(
                        (
                            "action"@,
                            JsonView::Str(
                                if applied {
                                    "archived (restore with `engram restore`)"@
                                } else {
                                    "dry-run — pass --apply to archive"@
                                },
                            ),
                        ),
                    ),
            )))
            .push(("fts_rebuilt_rows"@, json::integer(rebuilt)))
            .push(("query_log_pruned"@, json::integer(pruned)))
            .push(("stale"@, stale))
            .push(("gc_preview"@, JsonView::Object(
                json::members()
                    .push(("archived_eligible_for_gc"@, json::integer(eligible)))
                    .push(
                        (
                            "note"@,
                            JsonView::Str(
                                "run `engram gc --older-than <dur> --apply` to physically purge"@,
                            ),
                        ),
                    ),
            ))),
    )
}

/// What a maintenance pass reports.
pub fn maintained_json(
    applied: bool,
    projects: &Vec<String>,
    groups: usize,
    duplicates: usize,
    rebuilt: usize,
    pruned: usize,
    stale: Json,
    eligible: usize,
) -> (r: Json)
    ensures
        r@ == maintained(
            applied,
            text::texts(projects@),
            groups as int,
            duplicates as int,
            rebuilt as int,
            pruned as int,
            stale@,
            eligible as int,
        ),
{
    let mut fields1 = json::no_fields();
    json::put(&mut fields1, "duplicate_groups", Json::count(groups));
    json::put(&mut fields1, "duplicates", Json::count(duplicates));
    json::put(
        &mut fields1,
        "action",
        Json::str(
            if applied {
                "archived (restore with `engram restore`)"
            } else {
                "dry-run — pass --apply to archive"
            },
        ),
    );
    let mut fields2 = json::no_fields();
    json::put(&mut fields2, "archived_eligible_for_gc", Json::count(eligible));
    json::put(
        &mut fields2,
        "note",
        Json::str("run `engram gc --older-than <dur> --apply` to physically purge"),
    );
    let mut fields3 = json::no_fields();
    json::put(&mut fields3, "applied", Json::Bool(applied));
    json::put(&mut fields3, "projects", json::string_array(projects));
    json::put(&mut fields3, "consolidate", Json::object(fields1));
    json::put(&mut fields3, "fts_rebuilt_rows", Json::count(rebuilt));
    json::put(&mut fields3, "query_log_pruned", Json::count(pruned));
    json::put(&mut fields3, "stale", stale);
    json::put(&mut fields3, "gc_preview", Json::object(fields2));
    Json::object(fields3)
}

pub open spec fn reindexed(
    total: int,
    embedded: int,
    skipped: int,
    failed: int,
    dry_run: bool,
) -> JsonView {
    JsonView::Object(
        json::members()
            .push(("total"@, json::integer(total)))
            .push(("embedded"@, json::integer(embedded)))
            .push(("skipped"@, json::integer(skipped)))
            .push(("failed"@, json::integer(failed)))
            .push(("dry_run"@, JsonView::Bool(dry_run))),
    )
}

/// What a reindexing run counted.
pub fn reindexed_json(
    total: usize,
    embedded: usize,
    skipped: usize,
    failed: usize,
    dry_run: bool,
) -> (r: Json)
    ensures
        r@ == reindexed(total as int, embedded as int, skipped as int, failed as int, dry_run),
{
    let mut fields = json::no_fields();
    json::put(&mut fields, "total", Json::count(total));
    json::put(&mut fields, "embedded", Json::count(embedded));
    json::put(&mut fields, "skipped", Json::count(skipped));
    json::put(&mut fields, "failed", Json::count(failed));
    json::put(&mut fields, "dry_run", Json::Bool(dry_run));
    Json::object(fields)
}

/// A document has a member with a value.
pub open spec fn says(j: JsonView, key: Seq<char>, value: JsonView) -> bool {
    j matches JsonView::Object(fields) && fields.contains((key, value))
}

/// Whatever is done to a memory is answered under that memory's id, and the answer says
/// whether it was done.
pub proof fn answers_name_their_memory(id: Seq<char>, now: int, done: bool)
    ensures
        says(created(id, now), "id"@, JsonView::Str(id)),
        says(created(id, now), "created_at"@, json::integer(now)),
        says(forgotten(id, done), "id"@, JsonView::Str(id)),
        says(forgotten(id, done), "archived"@, JsonView::Bool(done)),
        says(archive_report(id, done), "id"@, JsonView::Str(id)),
        says(archive_report(id, done), "archived"@, JsonView::Bool(done)),
        says(restored_answer(id, done), "id"@, JsonView::Str(id)),
        says(restored_answer(id, done), "restored"@, JsonView::Bool(done)),
        says(restore_report(id, done), "id"@, JsonView::Str(id)),
        says(restore_report(id, done), "restored"@, JsonView::Bool(done)),
        says(updated(id, now), "id"@, JsonView::Str(id)),
        says(updated(id, now), "updated_at"@, json::integer(now)),
        says(update_report(id), "id"@, JsonView::Str(id)),
{
    assert(created(id, now)->Object_0[0] == ("id"@, JsonView::Str(id)));
    assert(created(id, now)->Object_0[2] == ("created_at"@, json::integer(now)));
    assert(forgotten(id, done)->Object_0[0] == ("id"@, JsonView::Str(id)));
    assert(forgotten(id, done)->Object_0[1] == ("archived"@, JsonView::Bool(done)));
    assert(archive_report(id, done)->Object_0[0] == ("id"@, JsonView::Str(id)));
    assert(archive_report(id, done)->Object_0[1] == ("archived"@, JsonView::Bool(done)));
    assert(restored_answer(id, done)->Object_0[0] == ("id"@, JsonView::Str(id)));
    assert(restored_answer(id, done)->Object_0[1] == ("restored"@, JsonView::Bool(done)));
    assert(restore_report(id, done)->Object_0[0] == ("id"@, JsonView::Str(id)));
    assert(restore_report(id, done)->Object_0[1] == ("restored"@, JsonView::Bool(done)));
    assert(updated(id, now)->Object_0[0] == ("id"@, JsonView::Str(id)));
    assert(updated(id, now)->Object_0[2] == ("updated_at"@, json::integer(now)));
    assert(update_report(id)->Object_0[0] == ("id"@, JsonView::Str(id)));
}

/// Answers that list things hold the whole list, and their counts are its length.
pub proof fn lists_are_counted(
    items: Seq<JsonView>,
    context: Seq<char>,
    done: bool,
    scanned: int,
    skipped: int,
)
    ensures
        says(search_answer(items, context), "results"@, JsonView::Array(items)),
        says(search_answer(items, context), "total"@, json::integer(items.len() as int)),
        says(search_answer(items, context), "context"@, JsonView::Str(context)),
        says(search_report(items), "results"@, JsonView::Array(items)),
        says(search_report(items), "total"@, json::integer(items.len() as int)),
        says(batch(done, items), "matched"@, JsonView::Array(items)),
        says(batch(done, items), "count"@, json::integer(items.len() as int)),
        says(batch(done, items), "applied"@, JsonView::Bool(done)),
        says(archived_list(items), "archived"@, JsonView::Array(items)),
        says(archived_list(items), "count"@, json::integer(items.len() as int)),
        says(ingested(scanned, skipped, items), "memories"@, JsonView::Array(items)),
        says(ingested(scanned, skipped, items), "ingested"@, json::integer(items.len() as int)),
        says(ingested(scanned, skipped, items), "skipped_duplicates"@, json::integer(skipped)),
        says(ingested(scanned, skipped, items), "total_commits_scanned"@, json::integer(scanned)),
        says(timeline(items), "events"@, JsonView::Array(items)),
        says(query_list(items), "queries"@, JsonView::Array(items)),
        says(failure_list(items), "failures"@, JsonView::Array(items)),
        says(decision_list(items), "decisions"@, JsonView::Array(items)),
        says(consolidated(done, items, scanned), "plans"@, JsonView::Array(items)),
        says(consolidated(done, items, scanned), "applied"@, JsonView::Bool(done)),
        says(consolidated(done, items, scanned), "total_archived"@, json::integer(scanned)),
{
    let n = json::integer(items.len() as int);
    let all = JsonView::Array(items);
    assert(search_answer(items, context)->Object_0[0] == ("results"@, all));
    assert(search_answer(items, context)->Object_0[1] == ("total"@, n));
    assert(search_answer(items, context)->Object_0[2] == ("context"@, JsonView::Str(context)));
    assert(search_report(items)->Object_0[0] == ("results"@, all));
    assert(search_report(items)->Object_0[1] == ("total"@, n));
    assert(batch(done, items)->Object_0[0] == ("applied"@, JsonView::Bool(done)));
    assert(batch(done, items)->Object_0[1] == ("matched"@, all));
    assert(batch(done, items)->Object_0[2] == ("count"@, n));
    assert(archived_list(items)->Object_0[0] == ("archived"@, all));
    assert(archived_list(items)->Object_0[1] == ("count"@, n));
    let i = ingested(scanned, skipped, items)->Object_0;
    assert(i[0] == ("ingested"@, n));
    assert(i[1] == ("total_commits_scanned"@, json::integer(scanned)));
    assert(i[2] == ("skipped_duplicates"@, json::integer(skipped)));
    assert(i[3] == ("memories"@, all));
    assert(timeline(items)->Object_0[0] == ("events"@, all));
    assert(query_list(items)->Object_0[0] == ("queries"@, all));
    assert(failure_list(items)->Object_0[0] == ("failures"@, all));
    assert(decision_list(items)->Object_0[0] == ("decisions"@, all));
    let c = consolidated(done, items, scanned)->Object_0;
    assert(c[0] == ("applied"@, JsonView::Bool(done)));
    assert(c[1] == ("plans"@, all));
    assert(c[2] == ("total_archived"@, json::integer(scanned)));
}

/// Rows show what they are made from: a group its keeper and its duplicates, a proposal
/// its tag and its sources, a stale memory its id and files.
pub proof fn rows_show_their_parts(
    a: Seq<char>,
    b: Seq<char>,
    c: Seq<char>,
    list: Seq<Seq<char>>,
    other: Seq<Seq<char>>,
    items: Seq<JsonView>,
    n: int,
    m: int,
    done: bool,
)
    ensures
        says(group_item(a, list, b), "keeper_id"@, JsonView::Str(a)),
        says(group_item(a, list, b), "duplicate_ids"@, JsonView::Array(json::strings(list))),
        says(group_item(a, list, b), "reason"@, JsonView::Str(b)),
        says(plan_item(a, items, n), "memory_type"@, JsonView::Str(a)),
        says(plan_item(a, items, n), "groups"@, JsonView::Array(items)),
        says(plan_item(a, items, n), "archived"@, json::integer(n)),
        says(rule_item(a, list, other, n, b, other, list), "pattern_tag"@, JsonView::Str(a)),
        says(
            rule_item(a, list, other, n, b, other, list),
            "source_failure_ids"@,
            JsonView::Array(json::strings(list)),
        ),
        says(rule_item(a, list, other, n, b, other, list), "occurrence_count"@, json::integer(n)),
        says(
            rule_item(a, list, other, n, b, other, list),
            "suggested_steps"@,
            JsonView::Array(json::strings(other)),
        ),
        says(reflected(done, n, m, items), "applied"@, JsonView::Bool(done)),
        says(reflected(done, n, m, items), "created"@, json::integer(m)),
        says(reflected(done, n, m, items), "suggestions"@, JsonView::Array(items)),
        says(reflected(done, n, m, items), "proposed"@, json::integer(items.len() as int)),
        says(pending(items), "count"@, json::integer(items.len() as int)),
        says(pending(items), "suggestions"@, JsonView::Array(items)),
        says(confirmed(a, b), "id"@, JsonView::Str(a)),
        says(confirmed(a, b), "procedural_id"@, JsonView::Str(b)),
        says(rejected(a), "id"@, JsonView::Str(a)),
        says(stale_item(a, b, c, list), "memory_type"@, JsonView::Str(a)),
        says(stale_item(a, b, c, list), "id"@, JsonView::Str(b)),
        says(stale_item(a, b, c, list), "files"@, JsonView::Array(json::strings(list))),
        says(stale_project(n, items, m, done), "memories_with_file_refs"@, json::integer(n)),
        says(stale_project(n, items, m, done), "stale"@, JsonView::Array(items)),
        says(stale_project(n, items, m, done), "stale_total"@, json::integer(m)),
        says(relation(a, b), "to"@, JsonView::Str(a)),
        says(relation(a, b), "type"@, JsonView::Str(b)),
        says(day_count(a, n), "date"@, JsonView::Str(a)),
        says(day_count(a, n), "episodic_count"@, json::integer(n)),
        says(matched_memory(a, b), "id"@, JsonView::Str(a)),
        says(matched_memory(a, b), "memory_type"@, JsonView::Str(b)),
        says(session_created(a, b, n, m), "id"@, JsonView::Str(a)),
        says(session_created(a, b, n, m), "session_id"@, JsonView::Str(b)),
        says(created_failure(a, n, m), "id"@, JsonView::Str(a)),
        says(created_failure(a, n, m), "severity"@, json::integer(n)),
        says(ingested_memory(a, b, list), "id"@, JsonView::Str(a)),
        says(ingested_row(a, b, n, list), "id"@, JsonView::Str(a)),
        says(ingested_row(a, b, n, list), "commits"@, json::integer(n)),
{
    let g = group_item(a, list, b)->Object_0;
    assert(g[0] == ("keeper_id"@, JsonView::Str(a)));
    assert(g[1] == ("duplicate_ids"@, JsonView::Array(json::strings(list))));
    assert(g[2] == ("reason"@, JsonView::Str(b)));
    let p = plan_item(a, items, n)->Object_0;
    assert(p[0] == ("memory_type"@, JsonView::Str(a)));
    assert(p[1] == ("groups"@, JsonView::Array(items)));
    assert(p[2] == ("archived"@, json::integer(n)));
    let r = rule_item(a, list, other, n, b, other, list)->Object_0;
    assert(r[0] == ("pattern_tag"@, JsonView::Str(a)));
    assert(r[1] == ("source_failure_ids"@, JsonView::Array(json::strings(list))));
    assert(r[3] == ("occurrence_count"@, json::integer(n)));
    assert(r[5] == ("suggested_steps"@, JsonView::Array(json::strings(other))));
    let f = reflected(done, n, m, items)->Object_0;
    assert(f[0] == ("applied"@, JsonView::Bool(done)));
    assert(f[2] == ("proposed"@, json::integer(items.len() as int)));
    assert(f[3] == ("created"@, json::integer(m)));
    assert(f[4] == ("suggestions"@, JsonView::Array(items)));
    let q = pending(items)->Object_0;
    assert(q[0] == ("count"@, json::integer(items.len() as int)));
    assert(q[1] == ("suggestions"@, JsonView::Array(items)));
    assert(confirmed(a, b)->Object_0[0] == ("id"@, JsonView::Str(a)));
    assert(confirmed(a, b)->Object_0[2] == ("procedural_id"@, JsonView::Str(b)));
    assert(rejected(a)->Object_0[0] == ("id"@, JsonView::Str(a)));
    let s = stale_item(a, b, c, list)->Object_0;
    assert(s[0] == ("memory_type"@, JsonView::Str(a)));
    assert(s[1] == ("id"@, JsonView::Str(b)));
    assert(s[3] == ("files"@, JsonView::Array(json::strings(list))));
    let t = stale_project(n, items, m, done)->Object_0;
    assert(t[0] == ("memories_with_file_refs"@, json::integer(n)));
    assert(t[1] == ("stale"@, JsonView::Array(items)));
    assert(t[2] == ("stale_total"@, json::integer(m)));
    assert(relation(a, b)->Object_0[0] == ("to"@, JsonView::Str(a)));
    assert(relation(a, b)->Object_0[1] == ("type"@, JsonView::Str(b)));
    assert(day_count(a, n)->Object_0[0] == ("date"@, JsonView::Str(a)));
    assert(day_count(a, n)->Object_0[1] == ("episodic_count"@, json::integer(n)));
    assert(matched_memory(a, b)->Object_0[0] == ("id"@, JsonView::Str(a)));
    assert(matched_memory(a, b)->Object_0[1] == ("memory_type"@, JsonView::Str(b)));
    assert(session_created(a, b, n, m)->Object_0[0] == ("id"@, JsonView::Str(a)));
    assert(session_created(a, b, n, m)->Object_0[2] == ("session_id"@, JsonView::Str(b)));
    assert(created_failure(a, n, m)->Object_0[0] == ("id"@, JsonView::Str(a)));
    assert(created_failure(a, n, m)->Object_0[2] == ("severity"@, json::integer(n)));
    assert(ingested_memory(a, b, list)->Object_0[0] == ("id"@, JsonView::Str(a)));
    assert(ingested_row(a, b, n, list)->Object_0[0] == ("id"@, JsonView::Str(a)));
    assert(ingested_row(a, b, n, list)->Object_0[2] == ("commits"@, json::integer(n)));
}

} // verus!
