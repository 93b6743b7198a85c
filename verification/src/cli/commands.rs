//! What the commands decide: the options that they read, the memories that they build
//! and the reports that they print.
use crate::answers;
use crate::cli::args;
use crate::collectors::git_collector;
use crate::collectors::Dimension;
use crate::consolidation::engine::ConsolidationPlan;
use crate::git_integration::listener::{CommitEvent, EventView};
use crate::json;
use crate::json::{Json, JsonView};
use crate::models::kind;
use crate::models::{DecisionMemory, EpisodicMemory, FailureMemory, MemoryKind, ProceduralMemory};
use crate::text;
use vstd::prelude::*;

verus! {

// ---------------------------------------------------------------------------
// Durations
// ---------------------------------------------------------------------------

/// The seconds that a unit of time has.
pub open spec fn seconds_per(unit: char) -> Option<int> {
    if unit == 's' {
        Some(1)
    } else if unit == 'm' {
        Some(60)
    } else if unit == 'h' {
        Some(3_600)
    } else if unit == 'd' {
        Some(86_400)
    } else if unit == 'w' {
        Some(604_800)
    } else {
        None
    }
}

/// The seconds that a duration such as `30d` stands for, or what is wrong with it.
pub open spec fn duration_of(s: Seq<char>) -> Result<int, Seq<char>> {
    if s.len() == 0 || seconds_per(s.last()) is None {
        Err("invalid duration '"@ + s + "': expected e.g. 30d, 12h, 45m, 8w, 30s"@)
    } else {
        match text::machine_integer(s.drop_last()) {
            None => Err("invalid duration '"@ + s + "': number part is not an integer"@),
            Some(n) => {
                let total = n * seconds_per(s.last())->0;
                if i64::MIN <= total <= i64::MAX {
                    Ok(total)
                } else {
                    Err("duration '"@ + s + "' overflows i64"@)
                }
            },
        }
    }
}

pub open spec fn seconds_result(r: Result<i64, String>) -> Result<int, Seq<char>> {
    match r {
        Ok(n) => Ok(n as int),
        Err(e) => Err(e@),
    }
}

fn complaint(before: &str, s: &str, after: &str) -> (r: String)
    ensures
        r@ == before@ + s@ + after@,
{
    let mut e = before.to_owned();
    e.append(s);
    e.append(after);
    e
}

/// Parse a short duration (`30d`, `12h`, `45m`, `8w`, `30s`) into seconds.
pub fn parse_duration(s: &str) -> (r: Result<i64, String>)
    ensures
        seconds_result(r) == duration_of(s@),
{
    let v = text::chars_of(s);
    let n: usize = v.len();
    if n == 0 {
        return Err(
            complaint("invalid duration '", s, "': expected e.g. 30d, 12h, 45m, 8w, 30s"),
        );
    }
    let unit = v[n - 1];
    let per: i64 = if unit == 's' {
        1
    } else if unit == 'm' {
        60
    } else if unit == 'h' {
        3_600
    } else if unit == 'd' {
        86_400
    } else if unit == 'w' {
        604_800
    } else {
        return Err(
            complaint("invalid duration '", s, "': expected e.g. 30d, 12h, 45m, 8w, 30s"),
        );
    };
    let number = text::piece(&v, 0, n - 1);
    assert(number@ =~= s@.drop_last());
    match text::parse_integer(number.as_str()) {
        None => Err(complaint("invalid duration '", s, "': number part is not an integer")),
        Some(k) => match k.checked_mul(per) {
            Some(total) => Ok(total),
            None => Err(complaint("duration '", s, "' overflows i64")),
        },
    }
}

/// The start of a period that reaches some days back.
pub fn since(now: i64, days: i64) -> (r: i64)
    requires
        i64::MIN <= now - spread(days as int) <= i64::MAX,
    ensures
        r == now - spread(days as int),
{
    let secs: i128 = days as i128 * 86_400;
    let span: i64 = if secs > i64::MAX as i128 {
        i64::MAX
    } else if secs < i64::MIN as i128 {
        i64::MIN
    } else {
        secs as i64
    };
    now - span
}

/// The seconds that some days have, held within the range of the machine.
pub open spec fn spread(days: int) -> int {
    if days * 86_400 > i64::MAX {
        i64::MAX as int
    } else if days * 86_400 < i64::MIN {
        i64::MIN as int
    } else {
        days * 86_400
    }
}

// ---------------------------------------------------------------------------
// Garbage collection
// ---------------------------------------------------------------------------

/// What `gc` is to do.
#[derive(Clone, Copy, Debug)]
pub struct GcPlan {
    /// Memories archived longer ago than this are removed.
    pub older_than_seconds: i64,
    /// Without it nothing is touched.
    pub apply: bool,
    /// Fold the write-ahead log back afterwards.
    pub checkpoint: bool,
    /// Rebuild the database file afterwards.
    pub vacuum: bool,
}

/// The age from which on archived memories are removed, or why it is not known.
pub open spec fn gc_age(all: Seq<Seq<char>>) -> Result<int, Seq<char>> {
    let older_than = args::option_value(all, "older-than"@);
    if all.contains("--all"@) && older_than is Some {
        Err("--all and --older-than are mutually exclusive"@)
    } else if all.contains("--all"@) {
        Ok(0)
    } else {
        match older_than {
            Some(d) => duration_of(d),
            None => Err(
                "gc requires either --older-than <dur> (e.g. 30d, 12h, 45m, 8w, 30s) or --all"@,
            ),
        }
    }
}

/// Something is to be removed. Rebuilding the file implies it.
pub open spec fn gc_applies(all: Seq<Seq<char>>) -> bool {
    all.contains("--apply"@) || all.contains("--vacuum"@)
}

/// The write-ahead log is to be folded back.
pub open spec fn gc_checkpoints(all: Seq<Seq<char>>) -> bool {
    gc_applies(all) && !all.contains("--no-checkpoint"@)
}

/// Read the options of `gc`. Rebuilding the file implies applying the plan.
pub fn gc_plan(args: &Vec<String>) -> (r: Result<GcPlan, String>)
    ensures
        ({
            let all = text::texts(args@);
            match r {
                Ok(p) => {
                    &&& gc_age(all) == Ok::<int, Seq<char>>(p.older_than_seconds as int)
                    &&& p.vacuum == all.contains("--vacuum"@)
                    &&& p.apply == gc_applies(all)
                    &&& p.checkpoint == gc_checkpoints(all)
                },
                Err(e) => gc_age(all) == Err::<int, Seq<char>>(e@),
            }
        }),
{
    let vacuum = args::has_flag(args, "--vacuum");
    let apply = args::has_flag(args, "--apply") || vacuum;
    let checkpoint = apply && !args::has_flag(args, "--no-checkpoint");
    let all = args::has_flag(args, "--all");
    let older_than = args::optional_str(args, "older-than");
    if all && older_than.is_some() {
        return Err("--all and --older-than are mutually exclusive".to_owned());
    }
    let older_than_seconds: i64 = if all {
        0
    } else {
        match older_than {
            Some(d) => match parse_duration(d.as_str()) {
                Ok(n) => n,
                Err(e) => {
                    return Err(e);
                },
            },
            None => {
                return Err(
                    "gc requires either --older-than <dur> (e.g. 30d, 12h, 45m, 8w, 30s) or --all".to_owned(),
                );
            },
        }
    };
    Ok(GcPlan { older_than_seconds, apply, checkpoint, vacuum })
}

/// Whoever asks for nothing but an age gets a dry run: nothing is removed and no space
/// is reclaimed.
pub proof fn gc_is_a_dry_run_by_default(all: Seq<Seq<char>>)
    requires
        !all.contains("--apply"@),
        !all.contains("--vacuum"@),
    ensures
        !gc_applies(all),
        !gc_checkpoints(all),
{
}

// ---------------------------------------------------------------------------
// Creation
// ---------------------------------------------------------------------------

/// The value of an option, or another text where it is missing.
pub open spec fn value_or(
    all: Seq<Seq<char>>,
    name: Seq<char>,
    other: Seq<char>,
) -> Seq<char> {
    match args::option_value(all, name) {
        Some(s) => s,
        None => other,
    }
}

fn option_or(args: &Vec<String>, name: &str, other: &str) -> (r: String)
    ensures
        r@ == value_or(text::texts(args@), name@, other@),
{
    match args::optional_str(args, name) {
        Some(s) => s,
        None => other.to_owned(),
    }
}

pub open spec fn episodic_names() -> Seq<Seq<char>> {
    seq!["project"@, "summary"@]
}

/// `m` is the episodic memory that the arguments describe. Its importance is one half
/// where none is given.
pub open spec fn is_episodic(
    m: EpisodicMemory,
    all: Seq<Seq<char>>,
    importance: Option<u32>,
    id: Seq<char>,
    now: i64,
) -> bool {
    &&& args::are_values(all, episodic_names(), seq![m.project_id@, m.summary@])
    &&& m.id@ == id
    &&& m.session_id@ == value_or(all, "session"@, "cli"@)
    &&& m.content@ == value_or(all, "content"@, m.summary@)
    &&& text::texts(m.files_touched@) == args::listed_values(all, "files"@)
    &&& text::texts(m.related_commits@) == args::listed_values(all, "commits"@)
    &&& m.importance == match importance {
        Some(bits) => bits,
        None => 0x3f00_0000,
    }
    &&& text::texts(m.tags@) == args::repeated_values(all, "tag"@)
    &&& m.created_at == now
    &&& m.updated_at == now
}

/// Build an episodic memory from arguments.
pub fn episodic_from_args(args: &Vec<String>, importance: Option<u32>, id: String, now: i64) -> (r:
    Result<EpisodicMemory, String>)
    ensures
        match r {
            Ok(m) => is_episodic(m, text::texts(args@), importance, id@, now),
            Err(e) => args::is_first_problem(text::texts(args@), episodic_names(), e@),
        },
{
    let names = vec!["project", "summary"];
    let mut v = match args::require_all(args, &names, Ghost(episodic_names())) {
        Ok(v) => v,
        Err(e) => {
            return Err(e);
        },
    };
    let ghost values = text::texts(v@);
    let project_id = v.remove(0);
    let summary = v.remove(0);
    assert(values =~= seq![project_id@, summary@]);
    let content = option_or(args, "content", summary.as_str());
    Ok(
        EpisodicMemory {
            id,
            project_id,
            session_id: option_or(args, "session", "cli"),
            summary,
            content,
            files_touched: args::comma_list(args, "files"),
            related_commits: args::comma_list(args, "commits"),
            importance: match importance {
                Some(bits) => bits,
                None => 0x3f00_0000,
            },
            tags: args::repeated_args(args, "tag"),
            created_at: now,
            updated_at: now,
        },
    )
}

pub open spec fn decision_names() -> Seq<Seq<char>> {
    seq!["project"@, "title"@, "context"@, "rationale"@]
}

/// `m` is the decision that the arguments describe.
pub open spec fn is_decision(
    m: DecisionMemory,
    all: Seq<Seq<char>>,
    id: Seq<char>,
    now: i64,
) -> bool {
    &&& args::are_values(
        all,
        decision_names(),
        seq![m.project_id@, m.title@, m.context@, m.rationale@],
    )
    &&& m.id@ == id
    &&& m.tradeoffs@ == value_or(all, "tradeoffs"@, ""@)
    &&& text::texts(m.related_files@) == args::listed_values(all, "files"@)
    &&& text::texts(m.tags@) == args::repeated_values(all, "tag"@)
    &&& m.created_at == now
    &&& m.updated_at == now
}

/// Build a decision from arguments.
pub fn decision_from_args(args: &Vec<String>, id: String, now: i64) -> (r: Result<
    DecisionMemory,
    String,
>)
    ensures
        match r {
            Ok(m) => is_decision(m, text::texts(args@), id@, now),
            Err(e) => args::is_first_problem(text::texts(args@), decision_names(), e@),
        },
{
    let names = vec!["project", "title", "context", "rationale"];
    let mut v = match args::require_all(args, &names, Ghost(decision_names())) {
        Ok(v) => v,
        Err(e) => {
            return Err(e);
        },
    };
    let ghost values = text::texts(v@);
    let project_id = v.remove(0);
    let title = v.remove(0);
    let context = v.remove(0);
    let rationale = v.remove(0);
    assert(values =~= seq![project_id@, title@, context@, rationale@]);
    Ok(
        DecisionMemory {
            id,
            project_id,
            title,
            context,
            rationale,
            tradeoffs: option_or(args, "tradeoffs", ""),
            related_files: args::comma_list(args, "files"),
            tags: args::repeated_args(args, "tag"),
            created_at: now,
            updated_at: now,
        },
    )
}

pub open spec fn failure_names() -> Seq<Seq<char>> {
    seq!["project"@, "incident"@, "root-cause"@, "fix"@, "prevention"@]
}

/// `m` is the failure that the arguments describe. Its severity is 3 where none is
/// given.
pub open spec fn is_failure(
    m: FailureMemory,
    all: Seq<Seq<char>>,
    severity: Option<u8>,
    id: Seq<char>,
    now: i64,
) -> bool {
    &&& args::are_values(
        all,
        failure_names(),
        seq![m.project_id@, m.incident@, m.root_cause@, m.fix@, m.prevention@],
    )
    &&& m.id@ == id
    &&& m.severity == match severity {
        Some(s) => s,
        None => 3,
    }
    &&& text::texts(m.tags@) == args::repeated_values(all, "tag"@)
    &&& m.created_at == now
    &&& m.updated_at == now
}

/// Build a failure from arguments.
pub fn failure_from_args(args: &Vec<String>, severity: Option<u8>, id: String, now: i64) -> (r:
    Result<FailureMemory, String>)
    ensures
        match r {
            Ok(m) => is_failure(m, text::texts(args@), severity, id@, now),
            Err(e) => args::is_first_problem(text::texts(args@), failure_names(), e@),
        },
{
    let names = vec!["project", "incident", "root-cause", "fix", "prevention"];
    let mut v = match args::require_all(args, &names, Ghost(failure_names())) {
        Ok(v) => v,
        Err(e) => {
            return Err(e);
        },
    };
    let ghost values = text::texts(v@);
    let project_id = v.remove(0);
    let incident = v.remove(0);
    let root_cause = v.remove(0);
    let fix = v.remove(0);
    let prevention = v.remove(0);
    assert(values =~= seq![project_id@, incident@, root_cause@, fix@, prevention@]);
    Ok(
        FailureMemory {
            id,
            project_id,
            incident,
            root_cause,
            fix,
            prevention,
            severity: match severity {
                Some(s) => s,
                None => 3,
            },
            tags: args::repeated_args(args, "tag"),
            created_at: now,
            updated_at: now,
        },
    )
}

pub open spec fn procedural_names() -> Seq<Seq<char>> {
    seq!["project"@, "name"@, "steps"@]
}

/// The parts of a list of steps, each trimmed.
pub open spec fn trimmed_each(parts: Seq<Seq<char>>) -> Seq<Seq<char>> {
    Seq::new(parts.len(), |i: int| text::trimmed(parts[i]))
}

/// `m` is the procedure that the arguments describe. Empty steps stay.
pub open spec fn is_procedure(
    m: ProceduralMemory,
    all: Seq<Seq<char>>,
    id: Seq<char>,
    now: i64,
) -> bool {
    &&& args::required_value(all, "project"@) == Ok::<Seq<char>, Seq<char>>(m.project_id@)
    &&& args::required_value(all, "name"@) == Ok::<Seq<char>, Seq<char>>(m.workflow_name@)
    &&& match args::required_value(all, "steps"@) {
        Ok(steps) => text::texts(m.steps@) == trimmed_each(text::split(steps, ',')),
        Err(_) => false,
    }
    &&& m.id@ == id
    &&& text::texts(m.related_tools@) == args::listed_values(all, "tools"@)
    &&& text::texts(m.tags@) == args::repeated_values(all, "tag"@)
    &&& m.created_at == now
    &&& m.updated_at == now
}

fn trim_each(parts: &Vec<String>) -> (r: Vec<String>)
    ensures
        text::texts(r@) == trimmed_each(text::texts(parts@)),
{
    let ghost want = trimmed_each(text::texts(parts@));
    let mut r: Vec<String> = Vec::new();
    let mut i: usize = 0;
    assert(text::texts(r@) =~= want.take(0));
    while i < parts.len()
        invariant
            i <= parts@.len(),
            want == trimmed_each(text::texts(parts@)),
            text::texts(r@) == want.take(i as int),
        decreases parts@.len() - i,
    {
        let ghost before = text::texts(r@);
        r.push(text::trim(parts[i].as_str()));
        assert(text::texts(r@) =~= before.push(want[i as int]));
        i = i + 1;
        assert(want.take(i as int) =~= want.take(i - 1).push(want[i - 1]));
    }
    assert(want.take(i as int) =~= want);
    r
}

/// Build a procedure from arguments.
pub fn procedural_from_args(args: &Vec<String>, id: String, now: i64) -> (r: Result<
    ProceduralMemory,
    String,
>)
    ensures
        match r {
            Ok(m) => is_procedure(m, text::texts(args@), id@, now),
            Err(e) => args::is_first_problem(text::texts(args@), procedural_names(), e@),
        },
{
    let names = vec!["project", "name", "steps"];
    let mut v = match args::require_all(args, &names, Ghost(procedural_names())) {
        Ok(v) => v,
        Err(e) => {
            return Err(e);
        },
    };
    let ghost values = text::texts(v@);
    let project_id = v.remove(0);
    let workflow_name = v.remove(0);
    let steps = v.remove(0);
    proof {
        let all = text::texts(args@);
        let list = procedural_names();
        assert(values[0] == project_id@ && values[1] == workflow_name@ && values[2] == steps@);
        assert(args::required_value(all, list[0]) is Ok);
        assert(args::required_value(all, list[1]) is Ok);
        assert(args::required_value(all, list[2]) is Ok);
    }
    Ok(
        ProceduralMemory {
            id,
            project_id,
            workflow_name,
            steps: trim_each(&text::split_at_char(steps.as_str(), ',')),
            related_tools: args::comma_list(args, "tools"),
            tags: args::repeated_args(args, "tag"),
            created_at: now,
            updated_at: now,
        },
    )
}

// ---------------------------------------------------------------------------
// Memories by id
// ---------------------------------------------------------------------------

/// A memory that a command names.
#[derive(Debug)]
pub struct Target {
    pub project_id: String,
    pub kind: MemoryKind,
    pub id: String,
}

pub open spec fn target_names() -> Seq<Seq<char>> {
    seq!["project"@, "type"@, "id"@]
}

/// Read which memory `forget`, `restore`, `update` and `get` are about.
pub fn target(args: &Vec<String>) -> (r: Result<Target, String>)
    ensures
        ({
            let all = text::texts(args@);
            match r {
                Ok(t) => {
                    &&& args::required_value(all, "project"@) == Ok::<Seq<char>, Seq<char>>(
                        t.project_id@,
                    )
                    &&& args::required_value(all, "id"@) == Ok::<Seq<char>, Seq<char>>(t.id@)
                    &&& match args::required_value(all, "type"@) {
                        Ok(name) => kind::kind_of(name) == Some(t.kind),
                        Err(_) => false,
                    }
                },
                Err(e) => args::is_first_problem(all, target_names(), e@) || match (
                    args::required_value(all, "project"@),
                    args::required_value(all, "type"@),
                    args::required_value(all, "id"@),
                ) {
                    (Ok(_), Ok(name), Ok(_)) => kind::kind_of(name) is None && e@
                        == "unknown memory type: "@ + name,
                    _ => false,
                },
            }
        }),
{
    let names = vec!["project", "type", "id"];
    let mut v = match args::require_all(args, &names, Ghost(target_names())) {
        Ok(v) => v,
        Err(e) => {
            return Err(e);
        },
    };
    let ghost values = text::texts(v@);
    let project_id = v.remove(0);
    let memory_type = v.remove(0);
    let id = v.remove(0);
    proof {
        let all = text::texts(args@);
        let list = target_names();
        assert(values[0] == project_id@ && values[1] == memory_type@ && values[2] == id@);
        assert(args::required_value(all, list[0]) is Ok);
        assert(args::required_value(all, list[1]) is Ok);
        assert(args::required_value(all, list[2]) is Ok);
    }
    match kind::resolve_kind(memory_type.as_str()) {
        Ok(kind) => Ok(Target { project_id, kind, id }),
        Err(e) => Err(e),
    }
}

/// What stands in the way of handing out a memory, if anything: that it was not found,
/// or that it belongs to another project. `owner` is the project that it belongs to.
pub open spec fn obstacle(
    owner: Option<Seq<char>>,
    id: Seq<char>,
    project: Seq<char>,
) -> Option<Seq<char>> {
    match owner {
        None => Some("memory not found: "@ + id),
        Some(p) => if p != project {
            Some("memory does not belong to project "@ + project)
        } else {
            None
        },
    }
}

/// Check that a memory was found and belongs to the caller's project.
pub fn check_owner(owner: Option<&str>, id: &str, project: &str) -> (r: Result<(), String>)
    ensures
        match r {
            Ok(_) => obstacle(text::opt_str(owner), id@, project@) is None,
            Err(e) => obstacle(text::opt_str(owner), id@, project@) == Some(e@),
        },
{
    match owner {
        None => {
            let mut e = "memory not found: ".to_owned();
            e.append(id);
            Err(e)
        },
        Some(p) => {
            if !text::same(p, project) {
                let mut e = "memory does not belong to project ".to_owned();
                e.append(project);
                return Err(e);
            }
            Ok(())
        },
    }
}

/// The message that there is no pending suggestion.
pub fn no_suggestion(id: &str, project: &str) -> (r: String)
    ensures
        r@ == "no pending suggestion '"@ + id@ + "' in project '"@ + project@ + "'"@,
{
    let mut e = "no pending suggestion '".to_owned();
    e.append(id);
    e.append("' in project '");
    e.append(project);
    e.append("'");
    e
}

// ---------------------------------------------------------------------------
// Git history
// ---------------------------------------------------------------------------

/// How many commits `ingest` looks at: 20 by default, and from 1 to 1000.
pub fn ingest_count(count: Option<usize>) -> (r: usize)
    ensures
        r == vstd::math::min(
            vstd::math::max(
                match count {
                    Some(n) => n as int,
                    None => 20,
                },
                1,
            ),
            1000,
        ),
{
    let n: usize = match count {
        Some(n) => n,
        None => 20,
    };
    if n < 1 {
        1
    } else if n > 1000 {
        1000
    } else {
        n
    }
}

/// How many commits `collect` looks at: 200 by default, and at most 1000.
pub fn collect_count(count: Option<usize>) -> (r: usize)
    ensures
        r == vstd::math::min(
            match count {
                Some(n) => n as int,
                None => 200,
            },
            1000,
        ),
{
    let n: usize = match count {
        Some(n) => n,
        None => 200,
    };
    if n > 1000 {
        1000
    } else {
        n
    }
}

/// The commits that have not been ingested yet.
pub fn fresh_events(events: Vec<CommitEvent>, ingested: &Vec<String>) -> (r: Vec<CommitEvent>)
    ensures
        git_collector::commit_views(r@) == git_collector::fresh(
            git_collector::commit_views(events@),
            text::texts(ingested@),
        ),
{
    let ghost all = events@;
    let ghost evs = git_collector::commit_views(all);
    let ghost known = text::texts(ingested@);
    let mut rest = events;
    let mut r: Vec<CommitEvent> = Vec::new();
    let ghost mut done: int = 0;
    assert(all.skip(0) =~= all);
    assert(evs.take(0) =~= Seq::empty());
    assert(git_collector::commit_views(r@) =~= Seq::empty());
    while rest.len() > 0
        invariant
            0 <= done <= all.len(),
            evs == git_collector::commit_views(all),
            known == text::texts(ingested@),
            rest@ == all.skip(done),
            git_collector::commit_views(r@) == git_collector::fresh(evs.take(done), known),
        decreases rest@.len(),
    {
        let e = rest.remove(0);
        proof {
            assert(e == all[done]);
            assert(evs.take(done + 1).drop_last() =~= evs.take(done));
            assert(evs.take(done + 1).last() == e@);
        }
        if !text::has_text(ingested, e.commit_hash.as_str()) {
            let ghost before = git_collector::commit_views(r@);
            let ghost seen = e@;
            r.push(e);
            assert(git_collector::commit_views(r@) =~= before.push(seen));
        }
        proof {
            assert(rest@ =~= all.skip(done + 1));
            done = done + 1;
        }
    }
    assert(evs.take(done) =~= evs);
    r
}

pub open spec fn ingested_rows(ms: Seq<EpisodicMemory>) -> Seq<JsonView> {
    Seq::new(
        ms.len(),
        |i: int|
            answers::ingested_row(
                ms[i].id@,
                ms[i].summary@,
                ms[i].related_commits@.len() as int,
                text::texts(ms[i].files_touched@),
            ),
    )
}

/// What `ingest` prints: `fresh` of the `count` commits that were asked for were new.
pub fn ingest_report(memories: &Vec<EpisodicMemory>, count: usize, fresh: usize) -> (r: Json)
    ensures
        r@ == answers::ingested(
            count as int,
            if count > fresh {
                count - fresh
            } else {
                0
            },
            ingested_rows(memories@),
        ),
{
    let ghost want = ingested_rows(memories@);
    let mut rows: Vec<Json> = Vec::new();
    let mut i: usize = 0;
    assert(json::views(rows@) =~= want.take(0));
    while i < memories.len()
        invariant
            i <= memories@.len(),
            want == ingested_rows(memories@),
            json::views(rows@) == want.take(i as int),
        decreases memories@.len() - i,
    {
        let ghost before = json::views(rows@);
        let m = &memories[i];
        let row = answers::ingested_row_json(
            m.id.as_str(),
            m.summary.as_str(),
            m.related_commits.len(),
            &m.files_touched,
        );
        assert(row@ == want[i as int]);
        rows.push(row);
        assert(json::views(rows@) =~= before.push(want[i as int]));
        i = i + 1;
        assert(want.take(i as int) =~= want.take(i - 1).push(want[i - 1]));
    }
    assert(want.take(i as int) =~= want);
    let skipped: usize = if count > fresh {
        count - fresh
    } else {
        0
    };
    answers::ingested_json(count, skipped, rows)
}

/// The dimensions that `collect` is asked for; naming none that exists is an error.
pub fn collect_dimensions(dimensions: Option<&str>) -> (r: Result<Vec<Dimension>, String>)
    ensures
        ({
            let dims = crate::collectors::dimension_list(
                text::opt_str(dimensions),
                |t: Seq<char>| text::lowercase(t),
            );
            match r {
                Ok(v) => v@ == dims && dims.len() > 0,
                Err(e) => dims.len() == 0 && e@
                    == "no valid dimensions parsed; valid: git, decisions, failures, workflow"@,
            }
        }),
        dimensions is Some && text::is_ascii(dimensions->0@) ==> ({
            let dims = crate::collectors::dimension_list(
                text::opt_str(dimensions),
                |t: Seq<char>| text::ascii_lowered(t),
            );
            match r {
                Ok(v) => v@ == dims,
                Err(_) => dims.len() == 0,
            }
        }),
{
    let dims = Dimension::parse_list(dimensions);
    if dims.len() == 0 {
        return Err(
            "no valid dimensions parsed; valid: git, decisions, failures, workflow".to_owned(),
        );
    }
    Ok(dims)
}

// ---------------------------------------------------------------------------
// Lists
// ---------------------------------------------------------------------------

pub open spec fn failure_rows(ms: Seq<FailureMemory>) -> Seq<JsonView> {
    Seq::new(
        ms.len(),
        |i: int|
            answers::failure_row(
                ms[i].id@,
                ms[i].incident@,
                ms[i].root_cause@,
                ms[i].fix@,
                ms[i].severity as int,
                ms[i].created_at as int,
            ),
    )
}

/// What `recent-failures` prints.
pub fn failures_report(ms: &Vec<FailureMemory>) -> (r: Json)
    ensures
        r@ == answers::failure_table(failure_rows(ms@)),
{
    let ghost want = failure_rows(ms@);
    let mut rows: Vec<Json> = Vec::new();
    let mut i: usize = 0;
    assert(json::views(rows@) =~= want.take(0));
    while i < ms.len()
        invariant
            i <= ms@.len(),
            want == failure_rows(ms@),
            json::views(rows@) == want.take(i as int),
        decreases ms@.len() - i,
    {
        let ghost before = json::views(rows@);
        let m = &ms[i];
        let row = answers::failure_row_json(
            m.id.as_str(),
            m.incident.as_str(),
            m.root_cause.as_str(),
            m.fix.as_str(),
            m.severity,
            m.created_at,
        );
        assert(row@ == want[i as int]);
        rows.push(row);
        assert(json::views(rows@) =~= before.push(want[i as int]));
        i = i + 1;
        assert(want.take(i as int) =~= want.take(i - 1).push(want[i - 1]));
    }
    assert(want.take(i as int) =~= want);
    answers::failure_table_json(rows)
}

pub open spec fn decision_rows(ms: Seq<DecisionMemory>) -> Seq<JsonView> {
    Seq::new(
        ms.len(),
        |i: int|
            answers::decision_row(
                ms[i].id@,
                ms[i].title@,
                ms[i].context@,
                ms[i].rationale@,
                ms[i].tradeoffs@,
                ms[i].created_at as int,
            ),
    )
}

/// What `decisions` prints.
pub fn decisions_report(ms: &Vec<DecisionMemory>) -> (r: Json)
    ensures
        r@ == answers::decision_table(decision_rows(ms@)),
{
    let ghost want = decision_rows(ms@);
    let mut rows: Vec<Json> = Vec::new();
    let mut i: usize = 0;
    assert(json::views(rows@) =~= want.take(0));
    while i < ms.len()
        invariant
            i <= ms@.len(),
            want == decision_rows(ms@),
            json::views(rows@) == want.take(i as int),
        decreases ms@.len() - i,
    {
        let ghost before = json::views(rows@);
        let m = &ms[i];
        let row = answers::decision_row_json(
            m.id.as_str(),
            m.title.as_str(),
            m.context.as_str(),
            m.rationale.as_str(),
            m.tradeoffs.as_str(),
            m.created_at,
        );
        assert(row@ == want[i as int]);
        rows.push(row);
        assert(json::views(rows@) =~= before.push(want[i as int]));
        i = i + 1;
        assert(want.take(i as int) =~= want.take(i - 1).push(want[i - 1]));
    }
    assert(want.take(i as int) =~= want);
    answers::decision_table_json(rows)
}

// ---------------------------------------------------------------------------
// Maintenance
// ---------------------------------------------------------------------------

/// How many groups of duplicates the plans hold.
pub open spec fn group_total(plans: Seq<ConsolidationPlan>) -> nat
    decreases plans.len(),
{
    if plans.len() == 0 {
        0
    } else {
        group_total(plans.drop_last()) + plans.last().groups@.len()
    }
}

/// How many duplicates a list of groups holds.
pub open spec fn duplicates_in(
    groups: Seq<crate::consolidation::engine::ConsolidationGroup>,
) -> nat
    decreases groups.len(),
{
    if groups.len() == 0 {
        0
    } else {
        duplicates_in(groups.drop_last()) + groups.last().duplicate_ids@.len()
    }
}

/// How many duplicates the plans hold.
pub open spec fn duplicate_total(plans: Seq<ConsolidationPlan>) -> nat
    decreases plans.len(),
{
    if plans.len() == 0 {
        0
    } else {
        duplicate_total(plans.drop_last()) + duplicates_in(plans.last().groups@)
    }
}

/// Count the groups and the duplicates in plans for consolidation.
pub fn count_duplicates(plans: &Vec<ConsolidationPlan>) -> (r: (usize, usize))
    ensures
        r.0 == text::tallied(group_total(plans@)),
        r.1 == text::tallied(duplicate_total(plans@)),
{
    let ghost all = plans@;
    let mut groups: usize = 0;
    let mut duplicates: usize = 0;
    let mut i: usize = 0;
    assert(all.take(0) =~= Seq::empty());
    while i < plans.len()
        invariant
            i <= plans@.len(),
            all == plans@,
            groups == text::tallied(group_total(all.take(i as int))),
            duplicates == text::tallied(duplicate_total(all.take(i as int))),
        decreases plans@.len() - i,
    {
        assert(all.take(i + 1).drop_last() =~= all.take(i as int));
        assert(all.take(i + 1).last() == plans@[i as int]);
        let gs = &plans[i].groups;
        groups = text::tally(groups, gs.len());
        let ghost before = duplicate_total(all.take(i as int));
        let mut j: usize = 0;
        assert(gs@.take(0) =~= Seq::empty());
        while j < gs.len()
            invariant
                j <= gs@.len(),
                duplicates == text::tallied(before + duplicates_in(gs@.take(j as int))),
            decreases gs@.len() - j,
        {
            assert(gs@.take(j + 1).drop_last() =~= gs@.take(j as int));
            assert(gs@.take(j + 1).last() == gs@[j as int]);
            duplicates = text::tally(duplicates, gs[j].duplicate_ids.len());
            j = j + 1;
        }
        assert(gs@.take(j as int) =~= gs@);
        i = i + 1;
    }
    assert(all.take(i as int) =~= all);
    (groups, duplicates)
}

/// The seconds for which the query log is kept, as the database takes them.
pub fn retention_seconds(days: u64) -> (r: i64)
    ensures
        days * 86_400 <= i64::MAX ==> r == days * 86_400,
        days * 86_400 > u64::MAX ==> r == -1,
        r == (if days * 86_400 > u64::MAX {
            u64::MAX
        } else {
            (days * 86_400) as u64
        }) as i64,
{
    let secs: u64 = if days > u64::MAX / 86_400 {
        u64::MAX
    } else {
        days * 86_400
    };
    assert(u64::MAX as i64 == -1) by (bit_vector);
    secs as i64
}

/// A memory that refers to files.
#[derive(Debug)]
pub struct Referenced {
    pub memory_type: String,
    pub id: String,
    pub label: String,
    pub files: Vec<String>,
}

/// A memory is stale: it refers to files, and none of them is there any more.
pub open spec fn is_stale(m: Referenced, present: Seq<Seq<char>>) -> bool {
    m.files@.len() > 0 && forall|i: int|
        0 <= i < m.files@.len() ==> !present.contains((#[trigger] m.files@[i])@)
}

pub open spec fn stale_view(m: Referenced) -> JsonView {
    answers::stale_item(m.memory_type@, m.id@, m.label@, text::texts(m.files@))
}

/// The stale ones among memories, as they are reported.
pub open spec fn stale_items(ms: Seq<Referenced>, present: Seq<Seq<char>>) -> Seq<JsonView>
    decreases ms.len(),
{
    if ms.len() == 0 {
        Seq::empty()
    } else if is_stale(ms.last(), present) {
        stale_items(ms.drop_last(), present).push(stale_view(ms.last()))
    } else {
        stale_items(ms.drop_last(), present)
    }
}

/// How many of the memories refer to files.
pub open spec fn referring(ms: Seq<Referenced>) -> nat
    decreases ms.len(),
{
    if ms.len() == 0 {
        0
    } else if ms.last().files@.len() > 0 {
        referring(ms.drop_last()) + 1
    } else {
        referring(ms.drop_last())
    }
}

/// The most stale memories that are listed for a project.
pub const MAX_REPORTED: usize = 100;

fn stale(m: &Referenced, present: &Vec<String>) -> (r: bool)
    ensures
        r == is_stale(*m, text::texts(present@)),
{
    if m.files.len() == 0 {
        return false;
    }
    let mut i: usize = 0;
    while i < m.files.len()
        invariant
            i <= m.files@.len(),
            m.files@.len() > 0,
            forall|k: int|
                0 <= k < i ==> !text::texts(present@).contains((#[trigger] m.files@[k])@),
        decreases m.files@.len() - i,
    {
        if text::has_text(present, m.files[i].as_str()) {
            assert(text::texts(present@).contains(m.files@[i as int]@));
            return false;
        }
        i = i + 1;
    }
    true
}

/// Report the memories of a project whose files have all disappeared. `present` holds
/// those of the files that exist. A memory with any surviving file is not reported.
pub fn report_stale_memories(ms: &Vec<Referenced>, present: &Vec<String>) -> (r: Json)
    ensures
        ({
            let found = stale_items(ms@, text::texts(present@));
            r@ == answers::stale_project(
                referring(ms@) as int,
                text::at_most(found, MAX_REPORTED as int),
                found.len() as int,
                found.len() > MAX_REPORTED,
            )
        }),
{
    let ghost all = ms@;
    let ghost there = text::texts(present@);
    let ghost cap = MAX_REPORTED as int;
    let mut listed: Vec<Json> = Vec::new();
    let mut total: usize = 0;
    let mut checked: usize = 0;
    let mut i: usize = 0;
    assert(all.take(0) =~= Seq::empty());
    assert(json::views(listed@) =~= text::at_most(stale_items(all.take(0), there), cap));
    while i < ms.len()
        invariant
            i <= ms@.len(),
            all == ms@,
            there == text::texts(present@),
            cap == MAX_REPORTED,
            total <= i,
            checked <= i,
            total == stale_items(all.take(i as int), there).len(),
            checked == referring(all.take(i as int)),
            json::views(listed@) == text::at_most(stale_items(all.take(i as int), there), cap),
        decreases ms@.len() - i,
    {
        assert(all.take(i + 1).drop_last() =~= all.take(i as int));
        assert(all.take(i + 1).last() == ms@[i as int]);
        let ghost found = stale_items(all.take(i as int), there);
        let m = &ms[i];
        if m.files.len() > 0 {
            checked = checked + 1;
        }
        if stale(m, present) {
            proof {
                text::at_most_push(found, stale_view(*m), cap);
            }
            if total < MAX_REPORTED {
                let ghost before = json::views(listed@);
                let item = answers::stale_item_json(
                    m.memory_type.as_str(),
                    m.id.as_str(),
                    m.label.as_str(),
                    &m.files,
                );
                listed.push(item);
                assert(json::views(listed@) =~= before.push(stale_view(*m)));
            }
            total = total + 1;
        }
        i = i + 1;
    }
    assert(all.take(i as int) =~= all);
    answers::stale_project_json(checked, listed, total, total > MAX_REPORTED)
}

// ---------------------------------------------------------------------------
// Laws
// ---------------------------------------------------------------------------

/// A memory is never reported as stale while one of its files is there.
pub proof fn surviving_files_keep_a_memory_fresh(
    m: Referenced,
    present: Seq<Seq<char>>,
    i: int,
)
    requires
        0 <= i < m.files@.len(),
        present.contains(m.files@[i]@),
    ensures
        !is_stale(m, present),
{
}

/// Of stale memories there are no more than of memories that refer to files.
pub proof fn stale_memories_refer_to_files(ms: Seq<Referenced>, present: Seq<Seq<char>>)
    ensures
        stale_items(ms, present).len() <= referring(ms) <= ms.len(),
    decreases ms.len(),
{
    if ms.len() > 0 {
        stale_memories_refer_to_files(ms.drop_last(), present);
    }
}

/// A number of units of time reads back as that many seconds.
pub proof fn durations_scale(n: Seq<char>, unit: char)
    requires
        seconds_per(unit) is Some,
        text::machine_integer(n) is Some,
        i64::MIN <= text::machine_integer(n)->0 * seconds_per(unit)->0 <= i64::MAX,
    ensures
        duration_of(n.push(unit)) == Ok::<int, Seq<char>>(
            text::machine_integer(n)->0 * seconds_per(unit)->0,
        ),
{
    assert(n.push(unit).drop_last() =~= n);
}

// ---------------------------------------------------------------------------
// Counts and reports
// ---------------------------------------------------------------------------

/// Groups and duplicates are counted plan by plan and group by group.
pub proof fn duplicates_add_up(
    plans: Seq<ConsolidationPlan>,
    plan: ConsolidationPlan,
    groups: Seq<crate::consolidation::engine::ConsolidationGroup>,
    g: crate::consolidation::engine::ConsolidationGroup,
)
    ensures
        group_total(Seq::<ConsolidationPlan>::empty()) == 0,
        group_total(plans.push(plan)) == group_total(plans) + plan.groups@.len(),
        duplicate_total(Seq::<ConsolidationPlan>::empty()) == 0,
        duplicate_total(plans.push(plan)) == duplicate_total(plans) + duplicates_in(plan.groups@),
        duplicates_in(groups.push(g)) == duplicates_in(groups) + g.duplicate_ids@.len(),
        duplicates_in(Seq::<crate::consolidation::engine::ConsolidationGroup>::empty()) == 0,
{
    assert(plans.push(plan).drop_last() =~= plans);
    assert(groups.push(g).drop_last() =~= groups);
}

/// Reported as stale are just the memories that refer to files none of which is there, in
/// their order, and counted are just those that refer to files.
pub proof fn stale_memories_are_all_reported(ms: Seq<Referenced>, present: Seq<Seq<char>>)
    ensures
        stale_items(ms, present) == ms.filter(
            |m: Referenced|
                m.files@.len() > 0 && forall|i: int|
                    0 <= i < m.files@.len() ==> !present.contains((#[trigger] m.files@[i])@),
        ).map_values(|m: Referenced| stale_view(m)),
        referring(ms) == ms.filter(|m: Referenced| m.files@.len() > 0).len(),
    decreases ms.len(),
{
    reveal(Seq::filter);
    let stale = |m: Referenced|
        m.files@.len() > 0 && forall|i: int|
            0 <= i < m.files@.len() ==> !present.contains((#[trigger] m.files@[i])@);
    let shown = |m: Referenced| stale_view(m);
    if ms.len() > 0 {
        let rest = ms.drop_last();
        let m = ms.last();
        stale_memories_are_all_reported(rest, present);
        assert(stale(m) == is_stale(m, present));
        assert(rest.filter(stale).push(m).map_values(shown) =~= rest.filter(stale).map_values(
            shown,
        ).push(shown(m)));
    } else {
        assert(stale_items(ms, present) =~= ms.filter(stale).map_values(shown));
    }
}

/// A duration counts seconds, minutes, hours, days or weeks.
pub proof fn units_of_time(n: int)
    requires
        0 <= n <= 1_000_000,
    ensures
        duration_of(text::decimal(n as nat).push('s')) == Ok::<int, Seq<char>>(n),
        duration_of(text::decimal(n as nat).push('m')) == Ok::<int, Seq<char>>(n * 60),
        duration_of(text::decimal(n as nat).push('h')) == Ok::<int, Seq<char>>(n * 3_600),
        duration_of(text::decimal(n as nat).push('d')) == Ok::<int, Seq<char>>(n * 86_400),
        duration_of(text::decimal(n as nat).push('w')) == Ok::<int, Seq<char>>(n * 604_800),
{
    text::integers_read_back(n);
    let s = text::decimal(n as nat);
    assert(s.push('s').drop_last() =~= s);
    assert(seconds_per('s') == Some(1int));
    assert(n * 1 == n);
    assert(s.push('m').drop_last() =~= s);
    assert(s.push('h').drop_last() =~= s);
    assert(s.push('d').drop_last() =~= s);
    assert(s.push('w').drop_last() =~= s);
}

/// A memory made from arguments is filed under the project that they name, with the id
/// and the time given and every tag.
pub proof fn arguments_make_the_memory(
    m: EpisodicMemory,
    d: DecisionMemory,
    f: FailureMemory,
    all: Seq<Seq<char>>,
    importance: Option<u32>,
    severity: Option<u8>,
    id: Seq<char>,
    now: i64,
)
    ensures
        is_episodic(m, all, importance, id, now) ==> {
            &&& args::required_value(all, "project"@) == Ok::<Seq<char>, Seq<char>>(m.project_id@)
            &&& args::required_value(all, "summary"@) == Ok::<Seq<char>, Seq<char>>(m.summary@)
            &&& m.id@ == id && m.created_at == now && m.updated_at == now
            &&& text::texts(m.tags@) == args::repeated_values(all, "tag"@)
            &&& text::texts(m.files_touched@) == args::listed_values(all, "files"@)
            &&& text::texts(m.related_commits@) == args::listed_values(all, "commits"@)
        },
        is_decision(d, all, id, now) ==> {
            &&& args::required_value(all, "project"@) == Ok::<Seq<char>, Seq<char>>(d.project_id@)
            &&& args::required_value(all, "title"@) == Ok::<Seq<char>, Seq<char>>(d.title@)
            &&& args::required_value(all, "context"@) == Ok::<Seq<char>, Seq<char>>(d.context@)
            &&& args::required_value(all, "rationale"@) == Ok::<Seq<char>, Seq<char>>(d.rationale@)
            &&& d.id@ == id && d.created_at == now && d.updated_at == now
            &&& text::texts(d.tags@) == args::repeated_values(all, "tag"@)
        },
        is_failure(f, all, severity, id, now) ==> {
            &&& args::required_value(all, "project"@) == Ok::<Seq<char>, Seq<char>>(f.project_id@)
            &&& args::required_value(all, "incident"@) == Ok::<Seq<char>, Seq<char>>(f.incident@)
            &&& args::required_value(all, "root-cause"@) == Ok::<Seq<char>, Seq<char>>(
                f.root_cause@,
            )
            &&& args::required_value(all, "fix"@) == Ok::<Seq<char>, Seq<char>>(f.fix@)
            &&& args::required_value(all, "prevention"@) == Ok::<Seq<char>, Seq<char>>(
                f.prevention@,
            )
            &&& f.id@ == id && f.created_at == now && f.updated_at == now
            &&& severity matches Some(s) ==> f.severity == s
            &&& text::texts(f.tags@) == args::repeated_values(all, "tag"@)
        },
{
    if is_episodic(m, all, importance, id, now) {
        let names = episodic_names();
        assert(names[0] == "project"@ && names[1] == "summary"@);
    }
    if is_decision(d, all, id, now) {
        let names = decision_names();
        assert(names[0] == "project"@ && names[1] == "title"@);
        assert(names[2] == "context"@ && names[3] == "rationale"@);
    }
    if is_failure(f, all, severity, id, now) {
        let names = failure_names();
        assert(names[0] == "project"@ && names[1] == "incident"@ && names[2] == "root-cause"@);
        assert(names[3] == "fix"@ && names[4] == "prevention"@);
    }
}

/// A memory is handed out only to the project that it belongs to.
pub proof fn other_projects_are_refused(owner: Seq<char>, id: Seq<char>, project: Seq<char>)
    ensures
        obstacle(Some(owner), id, project) is None <==> owner == project,
        obstacle(None, id, project) is Some,
{
}

/// A period reaches back that many days; a report shows no more than a hundred memories.
pub proof fn periods_reach_back(days: int)
    ensures
        -100_000_000 <= days <= 100_000_000 ==> spread(days) == days * 86_400,
        MAX_REPORTED == 100,
{
}

/// Collecting garbage needs an age or everything, and not both.
pub proof fn garbage_has_an_age(all: Seq<Seq<char>>, age: Seq<char>)
    ensures
        all.contains("--all"@) && args::option_value(all, "older-than"@) is None ==> gc_age(all)
            == Ok::<int, Seq<char>>(0),
        all.contains("--all"@) && args::option_value(all, "older-than"@) is Some ==> gc_age(
            all,
        ) is Err,
        !all.contains("--all"@) && args::option_value(all, "older-than"@) is None ==> gc_age(
            all,
        ) is Err,
        !all.contains("--all"@) && args::option_value(all, "older-than"@) == Some(age) ==> gc_age(
            all,
        ) == duration_of(age),
        gc_applies(all) <==> all.contains("--apply"@) || all.contains("--vacuum"@),
{
}

/// A procedure made from arguments has every step between the commas, trimmed.
pub proof fn arguments_make_the_procedure(
    m: ProceduralMemory,
    all: Seq<Seq<char>>,
    steps: Seq<char>,
    id: Seq<char>,
    now: i64,
)
    requires
        is_procedure(m, all, id, now),
        args::required_value(all, "steps"@) == Ok::<Seq<char>, Seq<char>>(steps),
    ensures
        m.id@ == id && m.created_at == now && m.updated_at == now,
        args::required_value(all, "project"@) == Ok::<Seq<char>, Seq<char>>(m.project_id@),
        args::required_value(all, "name"@) == Ok::<Seq<char>, Seq<char>>(m.workflow_name@),
        m.steps@.len() == text::split(steps, ',').len(),
        forall|i: int|
            0 <= i < m.steps@.len() ==> (#[trigger] m.steps@[i])@ == text::trimmed(
                text::split(steps, ',')[i],
            ),
        text::texts(m.tags@) == args::repeated_values(all, "tag"@),
        text::texts(m.related_tools@) == args::listed_values(all, "tools"@),
{
    let seen = text::texts(m.steps@);
    assert(seen.len() == m.steps@.len());
    assert forall|i: int| 0 <= i < m.steps@.len() implies (#[trigger] m.steps@[i])@
        == text::trimmed(text::split(steps, ',')[i]) by {
        assert(seen[i] == m.steps@[i]@);
    }
}

} // verus!
