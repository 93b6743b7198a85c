//! Project knowledge collectors for memory bootstrap.
//!
//! Collectors gather evidence from the many places where a project's knowledge
//! lives: git history, docs, CI, dependencies. They do not interpret it. Every item
//! carries where it came from.
use crate::collectors::files::WalkedFile;
use crate::git_integration::listener::{CommitEvent, EventView};
use crate::path_guard::GuardError;
use crate::text;
use vstd::prelude::*;

pub mod docs;
pub mod failures;
pub mod files;
pub mod git_collector;
pub mod walk;
pub mod workflow;

pub use docs::DocsCollection;
pub use failures::FailuresCollection;
pub use files::{relpath, read_bounded, FileSource};
pub use git_collector::{GitCollection, GitMilestone};
pub use walk::{walk_files, Walk, WalkBudget};
pub use workflow::WorkflowCollection;

verus! {

/// A dimension of project knowledge to collect.
#[derive(Clone, Copy, Debug, PartialEq, Eq, Structural)]
pub enum Dimension {
    /// Git history.
    Git,
    /// Docs, code annotations, dependency manifests.
    Decisions,
    /// Fix commits, change logs.
    Failures,
    /// CI, scripts, conventions.
    Workflow,
}

pub open spec fn dimension_name(d: Dimension) -> Seq<char> {
    match d {
        Dimension::Git => "git"@,
        Dimension::Decisions => "decisions"@,
        Dimension::Failures => "failures"@,
        Dimension::Workflow => "workflow"@,
    }
}

/// Every dimension, in its fixed order.
pub open spec fn all_dimensions() -> Seq<Dimension> {
    seq![Dimension::Git, Dimension::Decisions, Dimension::Failures, Dimension::Workflow]
}

/// The dimension that a lowercase name or one of its aliases stands for.
pub open spec fn dimension_of(name: Seq<char>) -> Option<Dimension> {
    if name == "git"@ || name == "history"@ || name == "commits"@ {
        Some(Dimension::Git)
    } else if name == "decision"@ || name == "decisions"@ || name == "docs"@ {
        Some(Dimension::Decisions)
    } else if name == "failure"@ || name == "failures"@ || name == "bugs"@ {
        Some(Dimension::Failures)
    } else if name == "workflow"@ || name == "workflows"@ || name == "ci"@ {
        Some(Dimension::Workflow)
    } else {
        None
    }
}

/// The dimensions that a list of tokens names, unknown ones left out.
pub open spec fn dimensions_in(
    tokens: Seq<Seq<char>>,
    lower: spec_fn(Seq<char>) -> Seq<char>,
) -> Seq<Dimension>
    decreases tokens.len(),
{
    if tokens.len() == 0 {
        Seq::empty()
    } else {
        let before = dimensions_in(tokens.drop_last(), lower);
        match dimension_of(lower(text::trimmed(tokens.last()))) {
            Some(d) => before.push(d),
            None => before,
        }
    }
}

/// What a comma-separated list of dimensions asks for: everything where it is
/// missing or empty.
pub open spec fn dimension_list(
    s: Option<Seq<char>>,
    lower: spec_fn(Seq<char>) -> Seq<char>,
) -> Seq<Dimension> {
    match s {
        None => all_dimensions(),
        Some(raw) => if raw.len() == 0 {
            all_dimensions()
        } else {
            dimensions_in(text::split(raw, ','), lower)
        },
    }
}

impl Dimension {
    pub fn as_str(&self) -> (r: &'static str)
        ensures
            r@ == dimension_name(*self),
    {
        match self {
            Dimension::Git => "git",
            Dimension::Decisions => "decisions",
            Dimension::Failures => "failures",
            Dimension::Workflow => "workflow",
        }
    }

    /// Every dimension.
    pub fn all() -> (r: Vec<Dimension>)
        ensures
            r@ == all_dimensions(),
    {
        vec![Dimension::Git, Dimension::Decisions, Dimension::Failures, Dimension::Workflow]
    }

    /// The dimension with a lowercase name.
    pub fn from_name(name: &str) -> (r: Option<Dimension>)
        ensures
            r == dimension_of(name@),
    {
        if text::same(name, "git") || text::same(name, "history") || text::same(name, "commits") {
            Some(Dimension::Git)
        } else if text::same(name, "decision") || text::same(name, "decisions") || text::same(
            name,
            "docs",
        ) {
            Some(Dimension::Decisions)
        } else if text::same(name, "failure") || text::same(name, "failures") || text::same(
            name,
            "bugs",
        ) {
            Some(Dimension::Failures)
        } else if text::same(name, "workflow") || text::same(name, "workflows") || text::same(
            name,
            "ci",
        ) {
            Some(Dimension::Workflow)
        } else {
            None
        }
    }

    /// Parse a comma-separated dimension list. Unknown tokens are dropped; a missing
    /// or empty list asks for all dimensions.
    pub fn parse_list(s: Option<&str>) -> (r: Vec<Dimension>)
        ensures
            r@ == dimension_list(text::opt_str(s), |t: Seq<char>| text::lowercase(t)),
            s is Some && text::is_ascii(s->0@) ==> r@ == dimension_list(
                text::opt_str(s),
                |t: Seq<char>| text::ascii_lowered(t),
            ),
    {
        match s {
            None => Self::all(),
            Some(raw) => {
                if raw.is_empty() {
                    return Self::all();
                }
                let ghost full = |t: Seq<char>| text::lowercase(t);
                let ghost plain = |t: Seq<char>| text::ascii_lowered(t);
                let tokens = text::split_at_char(raw, ',');
                let ghost all = text::texts(tokens@);
                let mut r: Vec<Dimension> = Vec::new();
                let mut i: usize = 0;
                assert(all.take(0) =~= Seq::empty());
                proof {
                    text::split_keeps_ascii(raw@, ',');
                }
                while i < tokens.len()
                    invariant
                        i <= tokens@.len(),
                        all == text::texts(tokens@),
                        full == (|t: Seq<char>| text::lowercase(t)),
                        plain == (|t: Seq<char>| text::ascii_lowered(t)),
                        text::is_ascii(raw@) ==> forall|k: int|
                            0 <= k < all.len() ==> text::is_ascii(#[trigger] all[k]),
                        r@ == dimensions_in(all.take(i as int), full),
                        text::is_ascii(raw@) ==> r@ == dimensions_in(all.take(i as int), plain),
                    decreases tokens@.len() - i,
                {
                    let token = text::trim(tokens[i].as_str());
                    let lower = text::to_lowercase(token.as_str());
                    proof {
                        assert(all.take(i + 1).drop_last() =~= all.take(i as int));
                        assert(all.take(i + 1).last() == tokens@[i as int]@);
                        if text::is_ascii(raw@) {
                            assert(text::is_ascii(all[i as int]));
                            text::trimmed_keeps_ascii(all[i as int]);
                        }
                    }
                    match Self::from_name(lower.as_str()) {
                        Some(d) => {
                            r.push(d);
                        },
                        None => {},
                    }
                    i = i + 1;
                }
                assert(all.take(i as int) =~= all);
                r
            },
        }
    }
}

/// Tunable knobs for a collection pass.
#[derive(Clone, Debug)]
pub struct CollectOptions {
    /// How many recent commits to walk for the git dimension.
    pub max_commits: usize,
    /// Commit hashes already stored as episodic memories, skipped so that collecting
    /// again adds nothing.
    pub ingested_commit_hashes: Vec<String>,
    /// Per-file content cap in bytes; larger files are truncated.
    pub max_file_bytes: usize,
    /// Cap on commits listed inside a single milestone; all of them are counted.
    pub max_commits_per_milestone: usize,
    /// Where it is not empty, the project must lie under one of these directories.
    pub allowed_roots: Vec<String>,
    /// The file that the agents at work on the project take their rules from, where it
    /// is none of the well-known ones.
    pub rules_file: Option<String>,
}

impl Default for CollectOptions {
    fn default() -> (r: Self)
        ensures
            r.max_commits == 200,
            r.ingested_commit_hashes@.len() == 0,
            r.max_file_bytes == 16_000,
            r.max_commits_per_milestone == 15,
            r.allowed_roots@.len() == 0,
            r.rules_file is None,
    {
        CollectOptions {
            max_commits: 200,
            ingested_commit_hashes: Vec::new(),
            max_file_bytes: 16_000,
            max_commits_per_milestone: 15,
            allowed_roots: Vec::new(),
            rules_file: None,
        }
    }
}

/// The evidence that is returned. Only requested dimensions are filled.
#[derive(Clone, Debug)]
pub struct CollectedSources {
    pub project_id: String,
    pub repo_path: String,
    pub dimensions: Vec<String>,
    pub git: Option<GitCollection>,
    pub decisions: Option<DocsCollection>,
    pub failures: Option<FailuresCollection>,
    pub workflow: Option<WorkflowCollection>,
    pub summary: CollectionSummary,
}

/// Item counts for each dimension. A dimension that came up empty is often a sign
/// that the project lacks that carrier.
#[derive(Clone, Debug)]
pub struct CollectionSummary {
    pub total_items: usize,
    pub git_items: usize,
    pub decision_items: usize,
    pub failure_items: usize,
    pub workflow_items: usize,
    pub skipped_ingested_commits: usize,
    pub notes: Vec<String>,
}

impl Default for CollectionSummary {
    fn default() -> (r: Self)
        ensures
            r.total_items == 0,
            r.git_items == 0,
            r.decision_items == 0,
            r.failure_items == 0,
            r.workflow_items == 0,
            r.skipped_ingested_commits == 0,
            r.notes@.len() == 0,
    {
        CollectionSummary {
            total_items: 0,
            git_items: 0,
            decision_items: 0,
            failure_items: 0,
            workflow_items: 0,
            skipped_ingested_commits: 0,
            notes: Vec::new(),
        }
    }
}

/// What was read for a collection pass. Each of the file-based dimensions walks the
/// project by itself.
#[derive(Debug)]
pub struct Gathered {
    /// The commit history, or why it is unavailable.
    pub history: Result<Vec<CommitEvent>, String>,
    pub decision_files: Vec<WalkedFile>,
    pub failure_files: Vec<WalkedFile>,
    pub workflow_files: Vec<WalkedFile>,
}

/// Some requested dimension needs the commit history.
pub open spec fn uses_history(dims: Seq<Dimension>) -> bool {
    dims.contains(Dimension::Git) || dims.contains(Dimension::Failures)
}

/// The commits that can be used; none where no dimension asks for them or they are
/// unavailable.
pub open spec fn usable(
    dims: Seq<Dimension>,
    history: Result<Vec<CommitEvent>, String>,
) -> Option<Seq<EventView>> {
    match history {
        Ok(events) => if uses_history(dims) {
            Some(git_collector::commit_views(events@))
        } else {
            None
        },
        Err(_) => None,
    }
}

/// The notes on requests for the git dimension that could not be met.
pub open spec fn skip_notes(dims: Seq<Dimension>) -> Seq<Seq<char>>
    decreases dims.len(),
{
    if dims.len() == 0 {
        Seq::empty()
    } else if dims.last() == Dimension::Git {
        skip_notes(dims.drop_last()).push("git dimension skipped: no git history available"@)
    } else {
        skip_notes(dims.drop_last())
    }
}

/// What is noted on a pass: nothing where the history was not needed or was there.
pub open spec fn notes_on(
    dims: Seq<Dimension>,
    history: Result<Vec<CommitEvent>, String>,
) -> Seq<Seq<char>> {
    match history {
        Err(e) => if uses_history(dims) {
            Seq::<Seq<char>>::empty().push("git history unavailable: "@ + e@) + skip_notes(dims)
        } else {
            Seq::empty()
        },
        Ok(_) => Seq::empty(),
    }
}

pub open spec fn dimension_names(dims: Seq<Dimension>) -> Seq<Seq<char>> {
    Seq::new(dims.len(), |i: int| dimension_name(dims[i]))
}

/// `r` is what a pass over the gathered material yields for the requested dimensions.
pub open spec fn is_collected(
    r: CollectedSources,
    project_id: Seq<char>,
    root: Seq<char>,
    dims: Seq<Dimension>,
    g: Gathered,
    opts: CollectOptions,
) -> bool {
    let ingested = text::texts(opts.ingested_commit_hashes@);
    let commits = usable(dims, g.history);
    let max = opts.max_file_bytes as int;
    &&& r.project_id@ == project_id
    &&& r.repo_path@ == root
    &&& text::texts(r.dimensions@) == dimension_names(dims)
    &&& match r.git {
        Some(c) => dims.contains(Dimension::Git) && commits is Some
            && git_collector::is_git_evidence(
            c,
            commits->0,
            ingested,
            opts.max_commits_per_milestone as int,
        ),
        None => !dims.contains(Dimension::Git) || commits is None,
    }
    &&& match r.decisions {
        Some(c) => dims.contains(Dimension::Decisions) && c@ == docs::docs_of(
            files::walked_views(g.decision_files@),
            root,
            max,
            text::opt_text(opts.rules_file),
        ),
        None => !dims.contains(Dimension::Decisions),
    }
    &&& match r.failures {
        Some(c) => dims.contains(Dimension::Failures) && failures::is_failure_evidence(
            c,
            match commits {
                Some(evs) => evs,
                None => Seq::empty(),
            },
            ingested,
            files::walked_views(g.failure_files@),
            root,
        ),
        None => !dims.contains(Dimension::Failures),
    }
    &&& match r.workflow {
        Some(c) => dims.contains(Dimension::Workflow) && c@ == workflow::workflow_of(
            files::walked_views(g.workflow_files@),
            root,
            max,
        ),
        None => !dims.contains(Dimension::Workflow),
    }
    &&& is_summary(r.summary, r)
    &&& text::texts(r.summary.notes@) == notes_on(dims, g.history)
}

/// The counts in `s` are those of what was collected.
pub open spec fn is_summary(s: CollectionSummary, r: CollectedSources) -> bool {
    &&& s.git_items == match r.git {
        Some(c) => text::tallied(
            c.milestones@.len() + c.migrations@.len() + c.recent_commits@.len(),
        ),
        None => 0,
    }
    &&& s.skipped_ingested_commits == match r.git {
        Some(c) => c.skipped_ingested,
        None => 0,
    }
    &&& s.decision_items == match r.decisions {
        Some(c) => text::tallied(
            c.documents@.len() + c.annotations@.len() + c.dependencies@.len(),
        ),
        None => 0,
    }
    &&& s.failure_items == match r.failures {
        Some(c) => text::tallied(
            c.fix_commits@.len() + c.changelog_fixed@.len() + c.error_test_files@.len(),
        ),
        None => 0,
    }
    &&& s.workflow_items == match r.workflow {
        Some(c) => text::tallied(
            c.ci_workflows@.len() + c.scripts@.len() + c.conventions@.len()
                + c.package_scripts@.len(),
        ),
        None => 0,
    }
    &&& s.total_items == text::tallied(
        s.git_items as nat + s.decision_items as nat + s.failure_items as nat
            + s.workflow_items as nat,
    )
}

fn requests(dims: &Vec<Dimension>, d: Dimension) -> (r: bool)
    ensures
        r == dims@.contains(d),
{
    let mut i: usize = 0;
    while i < dims.len()
        invariant
            i <= dims@.len(),
            forall|k: int| 0 <= k < i ==> dims@[k] != d,
        decreases dims@.len() - i,
    {
        if dims[i] == d {
            return true;
        }
        i = i + 1;
    }
    false
}

/// Whether the commit history is needed: one walk over it serves every dimension.
pub fn needs_history(dims: &Vec<Dimension>) -> (r: bool)
    ensures
        r == uses_history(dims@),
{
    requests(dims, Dimension::Git) || requests(dims, Dimension::Failures)
}

fn list_names(dims: &Vec<Dimension>) -> (r: Vec<String>)
    ensures
        text::texts(r@) == dimension_names(dims@),
{
    let ghost want = dimension_names(dims@);
    let mut r: Vec<String> = Vec::new();
    let mut i: usize = 0;
    assert(text::texts(r@) =~= want.take(0));
    while i < dims.len()
        invariant
            i <= dims@.len(),
            want == dimension_names(dims@),
            text::texts(r@) == want.take(i as int),
        decreases dims@.len() - i,
    {
        let ghost before = text::texts(r@);
        r.push(dims[i].as_str().to_owned());
        assert(text::texts(r@) =~= before.push(want[i as int]));
        i = i + 1;
        assert(want.take(i as int) =~= want.take(i - 1).push(want[i - 1]));
    }
    assert(want.take(i as int) =~= want);
    r
}

fn take_notes(dims: &Vec<Dimension>, history: &Result<Vec<CommitEvent>, String>) -> (r: Vec<String>)
    ensures
        text::texts(r@) == notes_on(dims@, *history),
{
    let mut r: Vec<String> = Vec::new();
    match history {
        Err(e) => {
            if needs_history(dims) {
                let mut note = "git history unavailable: ".to_owned();
                note.append(e.as_str());
                let ghost first = Seq::<Seq<char>>::empty().push(
                    "git history unavailable: "@ + e@,
                );
                r.push(note);
                let mut i: usize = 0;
                assert(dims@.take(0) =~= Seq::empty());
                assert(text::texts(r@) =~= first + skip_notes(dims@.take(0)));
                while i < dims.len()
                    invariant
                        i <= dims@.len(),
                        text::texts(r@) == first + skip_notes(dims@.take(i as int)),
                    decreases dims@.len() - i,
                {
                    assert(dims@.take(i + 1).drop_last() =~= dims@.take(i as int));
                    if dims[i] == Dimension::Git {
                        let ghost before = text::texts(r@);
                        let skip = "git dimension skipped: no git history available";
                        r.push(skip.to_owned());
                        assert(text::texts(r@) =~= before.push(skip@));
                        assert(before.push(skip@) =~= first + skip_notes(
                            dims@.take(i as int),
                        ).push(skip@));
                    }
                    i = i + 1;
                }
                assert(dims@.take(i as int) =~= dims@);
            } else {
                assert(text::texts(r@) =~= Seq::empty());
            }
        },
        Ok(_) => {
            assert(text::texts(r@) =~= Seq::empty());
        },
    }
    r
}

/// Run all requested collectors over the gathered material and assemble the evidence.
///
/// A path that the guard rejected yields its rejection and nothing else. A history that
/// is unavailable is noted, and the other dimensions are collected all the same.
pub fn collect(
    project_id: &str,
    repo_path: Result<String, GuardError>,
    dimensions: &Vec<Dimension>,
    gathered: Gathered,
    opts: &CollectOptions,
) -> (r: Result<CollectedSources, GuardError>)
    ensures
        match (repo_path, r) {
            (Ok(root), Ok(c)) => is_collected(
                c,
                project_id@,
                root@,
                dimensions@,
                gathered,
                *opts,
            ),
            (Err(e), Err(f)) => e == f,
            _ => false,
        },
{
    let repo_path = match repo_path {
        Ok(p) => p,
        Err(e) => {
            return Err(e);
        },
    };
    let root = repo_path.as_str();
    let notes = take_notes(dimensions, &gathered.history);
    let shared: Option<&Vec<CommitEvent>> = if needs_history(dimensions) {
        match &gathered.history {
            Ok(events) => Some(events),
            Err(_) => None,
        }
    } else {
        None
    };
    let mut summary = CollectionSummary::default();
    let git = if requests(dimensions, Dimension::Git) {
        match shared {
            Some(events) => {
                let c = git_collector::collect_from_events(events, opts);
                summary.skipped_ingested_commits = c.skipped_ingested;
                summary.git_items = c.item_count();
                Some(c)
            },
            None => None,
        }
    } else {
        None
    };
    let decisions = if requests(dimensions, Dimension::Decisions) {
        let c = docs::collect(root, gathered.decision_files, opts);
        summary.decision_items = c.item_count();
        Some(c)
    } else {
        None
    };
    let failures = if requests(dimensions, Dimension::Failures) {
        let c = failures::collect(root, shared, gathered.failure_files, opts);
        summary.failure_items = c.item_count();
        Some(c)
    } else {
        None
    };
    let workflow = if requests(dimensions, Dimension::Workflow) {
        let c = workflow::collect(root, gathered.workflow_files, opts);
        summary.workflow_items = c.item_count();
        Some(c)
    } else {
        None
    };
    summary.total_items = text::tally(
        text::tally(
            text::tally(summary.git_items, summary.decision_items),
            summary.failure_items,
        ),
        summary.workflow_items,
    );
    summary.notes = notes;
    Ok(
        CollectedSources {
            project_id: project_id.to_owned(),
            repo_path,
            dimensions: list_names(dimensions),
            git,
            decisions,
            failures,
            workflow,
            summary,
        },
    )
}

/// A list of dimensions names, in its order, just those that are known under a name or an
/// alias; every dimension is known under its own name.
pub proof fn dimensions_are_read_one_by_one(
    tokens: Seq<Seq<char>>,
    token: Seq<char>,
    lower: spec_fn(Seq<char>) -> Seq<char>,
    d: Dimension,
)
    ensures
        dimensions_in(Seq::<Seq<char>>::empty(), lower) == Seq::<Dimension>::empty(),
        dimension_of(lower(text::trimmed(token))) is None ==> dimensions_in(
            tokens.push(token),
            lower,
        ) == dimensions_in(tokens, lower),
        dimension_of(lower(text::trimmed(token))) == Some(d) ==> dimensions_in(
            tokens.push(token),
            lower,
        ) == dimensions_in(tokens, lower).push(d),
        dimension_of(dimension_name(d)) == Some(d),
        dimension_list(None, lower) == all_dimensions(),
        all_dimensions().contains(d),
{
    reveal_strlit("git");
    reveal_strlit("history");
    reveal_strlit("commits");
    reveal_strlit("decision");
    reveal_strlit("decisions");
    reveal_strlit("docs");
    reveal_strlit("failure");
    reveal_strlit("failures");
    reveal_strlit("bugs");
    reveal_strlit("workflow");
    reveal_strlit("workflows");
    reveal_strlit("ci");
    assert(tokens.push(token).drop_last() =~= tokens);
    assert("git"@.len() == 3 && "decisions"@.len() == 9 && "failures"@.len() == 8);
    assert("workflow"@.len() == 8 && "workflow"@[0] == 'w' && "failures"@[0] == 'f');
    assert("decision"@.len() == 8 && "decision"@[0] == 'd' && "workflows"@[0] == 'w');
    assert(all_dimensions()[0] == Dimension::Git && all_dimensions()[1] == Dimension::Decisions);
    assert(all_dimensions()[2] == Dimension::Failures && all_dimensions()[3]
        == Dimension::Workflow);
}

/// What is reported of a pass is what was collected: the counts are the lengths of the
/// lists, and the total is their sum.
pub proof fn summaries_count_what_was_collected(s: CollectionSummary, r: CollectedSources)
    requires
        is_summary(s, r),
    ensures
        r.git is None ==> s.git_items == 0 && s.skipped_ingested_commits == 0,
        r.git is Some ==> s.skipped_ingested_commits == r.git->0.skipped_ingested,
        r.git is Some && r.git->0.milestones@.len() + r.git->0.migrations@.len()
            + r.git->0.recent_commits@.len() <= usize::MAX ==> s.git_items
            == r.git->0.milestones@.len() + r.git->0.migrations@.len()
            + r.git->0.recent_commits@.len(),
        r.decisions is Some && r.decisions->0.documents@.len() + r.decisions->0.annotations@.len()
            + r.decisions->0.dependencies@.len() <= usize::MAX ==> s.decision_items
            == r.decisions->0.documents@.len() + r.decisions->0.annotations@.len()
            + r.decisions->0.dependencies@.len(),
        r.failures is Some && r.failures->0.fix_commits@.len()
            + r.failures->0.changelog_fixed@.len() + r.failures->0.error_test_files@.len()
            <= usize::MAX ==> s.failure_items == r.failures->0.fix_commits@.len()
            + r.failures->0.changelog_fixed@.len() + r.failures->0.error_test_files@.len(),
        s.git_items + s.decision_items + s.failure_items + s.workflow_items <= usize::MAX
            ==> s.total_items == s.git_items + s.decision_items + s.failure_items
            + s.workflow_items,
{
}

/// A dimension is filled just where it was asked for, the git one only where there is a
/// history, which is noted otherwise.
pub proof fn asked_dimensions_are_filled(
    r: CollectedSources,
    project_id: Seq<char>,
    root: Seq<char>,
    dims: Seq<Dimension>,
    g: Gathered,
    opts: CollectOptions,
)
    requires
        is_collected(r, project_id, root, dims, g, opts),
    ensures
        r.project_id@ == project_id,
        r.repo_path@ == root,
        r.decisions is Some <==> dims.contains(Dimension::Decisions),
        r.failures is Some <==> dims.contains(Dimension::Failures),
        r.workflow is Some <==> dims.contains(Dimension::Workflow),
        r.git is Some <==> dims.contains(Dimension::Git) && g.history is Ok,
        dims.contains(Dimension::Git) && g.history is Err ==> r.summary.notes@.len() >= 1,
        g.history is Ok ==> r.summary.notes@.len() == 0,
{
    assert(text::texts(r.summary.notes@).len() == r.summary.notes@.len());
}

/// A dimension is known under these names, and under no other.
pub proof fn names_of_dimensions(name: Seq<char>)
    ensures
        dimension_of(name) == Some(Dimension::Git) <==> name == "git"@ || name == "history"@ || name
            == "commits"@,
        dimension_of(name) is None <==> name != "git"@ && name != "history"@ && name != "commits"@
            && name != "decision"@ && name != "decisions"@ && name != "docs"@ && name != "failure"@
            && name != "failures"@ && name != "bugs"@ && name != "workflow"@ && name
            != "workflows"@ && name != "ci"@,
        name == "docs"@ || name == "decision"@ ==> dimension_of(name) is Some,
        name == "bugs"@ || name == "failure"@ ==> dimension_of(name) is Some,
        name == "ci"@ || name == "workflows"@ ==> dimension_of(name) is Some,
{
}

} // verus!
