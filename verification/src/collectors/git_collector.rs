//! Git-history collector: commits clustered into themed milestones.
use crate::collectors::files;
use crate::collectors::CollectOptions;
use crate::git_integration::listener::{CommitEvent, EventView};
use crate::order;
use crate::order::{Ranked, SortKey};
use crate::text;
use vstd::prelude::*;

verus! {

/// Evidence gathered from git history.
#[derive(Clone, Debug)]
pub struct GitCollection {
    /// Commits grouped into themes, the primary material for episodic memories.
    pub milestones: Vec<GitMilestone>,
    /// Commits that look like migrations or breaking changes.
    pub migrations: Vec<CommitRef>,
    /// Individual recent commits, newest first.
    pub recent_commits: Vec<CommitRef>,
    /// Commits skipped because they were already ingested as memories.
    pub skipped_ingested: usize,
}

/// A themed cluster of related commits.
#[derive(Clone, Debug)]
pub struct GitMilestone {
    /// Human-readable theme label, such as `feat: auth` or `fix`.
    pub theme: String,
    pub commit_type: String,
    pub scope: Option<String>,
    pub commit_count: usize,
    /// Representative commits, up to the cap per milestone.
    pub commits: Vec<CommitRef>,
    pub files: Vec<String>,
    pub first_ts: i64,
    pub last_ts: i64,
    pub has_breaking: bool,
}

/// A provenance-bearing commit reference.
#[derive(Clone, Debug)]
pub struct CommitRef {
    pub hash: String,
    pub message: String,
    pub files: Vec<String>,
    pub timestamp: i64,
}

impl View for CommitRef {
    type V = EventView;

    open spec fn view(&self) -> EventView {
        EventView {
            hash: self.hash@,
            message: self.message@,
            files: text::texts(self.files@),
            timestamp: self.timestamp as int,
        }
    }
}

pub open spec fn ref_views(v: Seq<CommitRef>) -> Seq<EventView> {
    Seq::new(v.len(), |i: int| v[i]@)
}

/// A milestone as a mathematical value.
pub struct MilestoneView {
    pub theme: Seq<char>,
    pub commit_type: Seq<char>,
    pub scope: Option<Seq<char>>,
    pub commit_count: int,
    pub commits: Seq<EventView>,
    pub files: Seq<Seq<char>>,
    pub first_ts: int,
    pub last_ts: int,
    pub has_breaking: bool,
}

impl View for GitMilestone {
    type V = MilestoneView;

    open spec fn view(&self) -> MilestoneView {
        MilestoneView {
            theme: self.theme@,
            commit_type: self.commit_type@,
            scope: text::opt_text(self.scope),
            commit_count: self.commit_count as int,
            commits: ref_views(self.commits@),
            files: text::texts(self.files@),
            first_ts: self.first_ts as int,
            last_ts: self.last_ts as int,
            has_breaking: self.has_breaking,
        }
    }
}

pub open spec fn milestone_views(v: Seq<GitMilestone>) -> Seq<MilestoneView> {
    Seq::new(v.len(), |i: int| v[i]@)
}

impl GitCollection {
    pub fn item_count(&self) -> (r: usize)
        ensures
            r == text::tallied(
                self.milestones@.len() + self.migrations@.len() + self.recent_commits@.len(),
            ),
    {
        text::tally(
            text::tally(self.milestones.len(), self.migrations.len()),
            self.recent_commits.len(),
        )
    }
}

// ---------------------------------------------------------------------------
// Conventional-Commit heads
// ---------------------------------------------------------------------------

/// The known Conventional-Commit types.
pub open spec fn known_types() -> Seq<Seq<char>> {
    seq![
        "feat"@,
        "fix"@,
        "docs"@,
        "style"@,
        "refactor"@,
        "perf"@,
        "test"@,
        "build"@,
        "ci"@,
        "chore"@,
        "revert"@,
        "hotfix"@,
        "bugfix"@,
        "wip"@,
        "release"@,
        "merge"@,
    ]
}

/// The type and scope that the part before the colon names.
pub open spec fn parsed_head(head: Seq<char>) -> (Option<Seq<char>>, Option<Seq<char>>) {
    if head.len() == 0 || !text::is_lower(head[0]) {
        (None, None)
    } else {
        match text::char_index(head, '(') {
            None => if known_types().contains(head) {
                (Some(head), None)
            } else {
                (None, None)
            },
            Some(open) => match text::char_index(head.skip(open), ')') {
                None => (None, None),
                Some(close) => if known_types().contains(head.take(open)) {
                    (Some(head.take(open)), Some(head.subrange(open + 1, open + close)))
                } else {
                    (None, None)
                },
            },
        }
    }
}

/// The Conventional-Commit type and scope of a message: `type(scope): …` or
/// `type: …` in its first line; nothing for any other head.
pub open spec fn conventional(msg: Seq<char>) -> (Option<Seq<char>>, Option<Seq<char>>) {
    let first = text::trimmed(text::first_line(msg));
    match text::char_index(first, ':') {
        None => (None, None),
        Some(colon) => parsed_head(first.take(colon)),
    }
}

/// A theme: the commit type, `other` where there is none, and the scope.
pub type Theme = (Seq<char>, Option<Seq<char>>);

pub open spec fn theme_of(msg: Seq<char>) -> Theme {
    let (typ, scope) = conventional(msg);
    (
        match typ {
            Some(t) => t,
            None => "other"@,
        },
        scope,
    )
}

/// Parse the Conventional-Commit head of a message.
pub fn parse_conventional(msg: &str) -> (r: (Option<String>, Option<String>))
    ensures
        (text::opt_text(r.0), text::opt_text(r.1)) == conventional(msg@),
{
    let line = text::head_line(msg);
    let first = text::chars_of(text::trim(line.as_str()).as_str());
    let colon: usize = match text::find_char(&first, ':') {
        Some(i) => i,
        None => {
            return (None, None);
        },
    };
    let head_text = text::piece(&first, 0, colon);
    assert(first@.subrange(0, colon as int) =~= first@.take(colon as int));
    let head = text::chars_of(head_text.as_str());
    if head.len() == 0 || !text::lower_char(head[0]) {
        return (None, None);
    }
    match text::find_char(&head, '(') {
        None => {
            if is_known_type(head_text.as_str()) {
                (Some(head_text), None)
            } else {
                (None, None)
            }
        },
        Some(open) => {
            let typ = text::piece(&head, 0, open);
            assert(head@.subrange(0, open as int) =~= head@.take(open as int));
            let rest = text::chars_of(text::piece(&head, open, head.len()).as_str());
            assert(rest@ =~= head@.skip(open as int));
            match text::find_char(&rest, ')') {
                None => (None, None),
                Some(close) => {
                    if is_known_type(typ.as_str()) {
                        assert(close > 0) by {
                            assert(rest@[0] == head@[open as int]);
                            text::char_index_is_first(head@, '(');
                            text::char_index_is_first(rest@, ')');
                        }
                        let scope = text::piece(&head, open + 1, open + close);
                        (Some(typ), Some(scope))
                    } else {
                        (None, None)
                    }
                },
            }
        },
    }
}

fn is_known_type(s: &str) -> (r: bool)
    ensures
        r == known_types().contains(s@),
{
    let known = vec![
        "feat",
        "fix",
        "docs",
        "style",
        "refactor",
        "perf",
        "test",
        "build",
        "ci",
        "chore",
        "revert",
        "hotfix",
        "bugfix",
        "wip",
        "release",
        "merge",
    ];
    text::one_of(s, &known, Ghost(known_types()))
}

// ---------------------------------------------------------------------------
// Migrations
// ---------------------------------------------------------------------------

/// A message, given with its lowercase form, describes a migration or a breaking
/// change.
pub open spec fn migration_marks(lower: Seq<char>, message: Seq<char>) -> bool {
    ||| text::contains(lower, "breaking change"@)
    ||| text::contains(lower, "breaking:"@)
    ||| text::contains(text::first_line(message), "!:"@)
    ||| text::contains(lower, "migration"@)
    ||| text::contains(lower, "migrate"@)
    ||| text::contains(lower, "deprecat"@)
}

pub open spec fn is_migration(message: Seq<char>) -> bool {
    migration_marks(text::lowercase(message), message)
}

/// Look for the marks of a migration in a message whose lowercase form is given.
pub fn has_migration_marks(lower: &str, message: &str) -> (r: bool)
    ensures
        r == migration_marks(lower@, message@),
{
    text::has_substring(lower, "breaking change") || text::has_substring(lower, "breaking:")
        || text::has_substring(text::head_line(message).as_str(), "!:") || text::has_substring(
        lower,
        "migration",
    ) || text::has_substring(lower, "migrate") || text::has_substring(lower, "deprecat")
}

/// Does this commit message describe a migration or breaking change?
pub fn looks_like_migration(message: &str) -> (r: bool)
    ensures
        r == is_migration(message@),
        text::is_plain(message@) ==> r == migration_marks(
            text::ascii_lowered(message@),
            message@,
        ),
{
    has_migration_marks(text::to_lowercase(message).as_str(), message)
}

// ---------------------------------------------------------------------------
// Order of commits
// ---------------------------------------------------------------------------

/// No scope comes before any scope; scopes come in the order of their characters.
pub open spec fn scope_lt(a: Option<Seq<char>>, b: Option<Seq<char>>) -> bool {
    match (a, b) {
        (None, Some(_)) => true,
        (Some(x), Some(y)) => text::text_lt(x, y),
        _ => false,
    }
}

pub open spec fn theme_lt(a: Theme, b: Theme) -> bool {
    text::text_lt(a.0, b.0) || (a.0 == b.0 && scope_lt(a.1, b.1))
}

proof fn theme_lt_asymmetric(a: Theme, b: Theme)
    requires
        theme_lt(a, b),
    ensures
        !theme_lt(b, a),
        a != b,
{
    text::text_lt_asymmetric_or_equal(a.0, b.0);
    if a.1 is Some && b.1 is Some {
        text::text_lt_asymmetric_or_equal(a.1->0, b.1->0);
    }
}

proof fn theme_lt_total(a: Theme, b: Theme)
    requires
        !theme_lt(a, b),
        !theme_lt(b, a),
    ensures
        a == b,
{
    text::text_lt_total(a.0, b.0);
    if a.1 is Some && b.1 is Some {
        text::text_lt_total(a.1->0, b.1->0);
    }
}

proof fn theme_lt_transitive(a: Theme, b: Theme, c: Theme)
    requires
        theme_lt(a, b),
        theme_lt(b, c),
    ensures
        theme_lt(a, c),
{
    if text::text_lt(a.0, b.0) && text::text_lt(b.0, c.0) {
        text::text_lt_transitive(a.0, b.0, c.0);
    } else if a.0 == b.0 && b.0 == c.0 {
        if a.1 is Some {
            text::text_lt_transitive(a.1->0, b.1->0, c.1->0);
        }
    }
}

/// Where a commit goes: its theme first, then its time, the newest first.
pub struct ThemeOrder {
    pub theme: Theme,
    pub timestamp: int,
}

impl Ranked for ThemeOrder {
    open spec fn lt(&self, other: &Self) -> bool {
        theme_lt(self.theme, other.theme) || (self.theme == other.theme && self.timestamp
            > other.timestamp)
    }

    proof fn lt_asymmetric(a: &Self, b: &Self) {
        if theme_lt(a.theme, b.theme) {
            theme_lt_asymmetric(a.theme, b.theme);
        } else if theme_lt(b.theme, a.theme) {
            theme_lt_asymmetric(b.theme, a.theme);
        }
    }

    proof fn le_transitive(a: &Self, b: &Self, c: &Self) {
        if c.lt(a) {
            if theme_lt(c.theme, a.theme) {
                if theme_lt(b.theme, c.theme) {
                    theme_lt_transitive(b.theme, c.theme, a.theme);
                } else if !theme_lt(c.theme, b.theme) {
                    theme_lt_total(b.theme, c.theme);
                }
            } else {
                if theme_lt(a.theme, b.theme) {
                } else if !theme_lt(b.theme, a.theme) {
                    theme_lt_total(a.theme, b.theme);
                }
            }
        }
    }
}

pub open spec fn theme_order(e: EventView) -> ThemeOrder {
    ThemeOrder { theme: theme_of(e.message), timestamp: e.timestamp }
}

/// The key that a commit is sorted by.
pub struct EventKey<'a>(pub &'a CommitEvent);

impl<'a> Ranked for EventKey<'a> {
    open spec fn lt(&self, other: &Self) -> bool {
        theme_order(self.0@).lt(&theme_order(other.0@))
    }

    proof fn lt_asymmetric(a: &Self, b: &Self) {
        ThemeOrder::lt_asymmetric(&theme_order(a.0@), &theme_order(b.0@));
    }

    proof fn le_transitive(a: &Self, b: &Self, c: &Self) {
        ThemeOrder::le_transitive(
            &theme_order(a.0@),
            &theme_order(b.0@),
            &theme_order(c.0@),
        );
    }
}

impl<'a> SortKey for EventKey<'a> {
    fn is_lt(&self, other: &Self) -> (r: bool) {
        let (ta, sa) = theme(self.0.message.as_str());
        let (tb, sb) = theme(other.0.message.as_str());
        if text::comes_before(ta.as_str(), tb.as_str()) {
            return true;
        }
        if !text::same(ta.as_str(), tb.as_str()) {
            return false;
        }
        match (&sa, &sb) {
            (None, None) => self.0.timestamp > other.0.timestamp,
            (None, Some(_)) => true,
            (Some(_), None) => false,
            (Some(x), Some(y)) => {
                if text::comes_before(x.as_str(), y.as_str()) {
                    true
                } else {
                    text::same(x.as_str(), y.as_str()) && self.0.timestamp > other.0.timestamp
                }
            },
        }
    }
}

/// The theme of a message.
fn theme(msg: &str) -> (r: (String, Option<String>))
    ensures
        (r.0@, text::opt_text(r.1)) == theme_of(msg@),
{
    let (typ, scope) = parse_conventional(msg);
    let typ = match typ {
        Some(t) => t,
        None => "other".to_owned(),
    };
    (typ, scope)
}

// ---------------------------------------------------------------------------
// Milestones
// ---------------------------------------------------------------------------

/// The longest pause between two commits of one milestone: thirty days, in seconds.
pub const MAX_THEME_GAP_SECS: i64 = 2_592_000;

/// The most files that a milestone lists.
pub const MAX_FILES: usize = 50;

pub open spec fn with_orders(evs: Seq<EventView>) -> Seq<(ThemeOrder, EventView)> {
    Seq::new(evs.len(), |i: int| (theme_order(evs[i]), evs[i]))
}

/// The commits theme by theme, and within a theme the newest first.
pub open spec fn arranged(evs: Seq<EventView>) -> Seq<EventView> {
    order::seconds(order::ordered(with_orders(evs)))
}

/// The older commit `b` belongs to the milestone of `a`: the same theme, and no long
/// pause between the two.
pub open spec fn continues(a: EventView, b: EventView) -> bool {
    theme_of(a.message) == theme_of(b.message) && a.timestamp - b.timestamp <= MAX_THEME_GAP_SECS
}

/// The commits cut into milestones.
pub open spec fn runs(evs: Seq<EventView>) -> Seq<Seq<EventView>>
    decreases evs.len(),
{
    if evs.len() == 0 {
        Seq::empty()
    } else {
        let before = runs(evs.drop_last());
        if before.len() > 0 && continues(evs[evs.len() - 2], evs.last()) {
            before.drop_last().push(before.last().push(evs.last()))
        } else {
            before.push(seq![evs.last()])
        }
    }
}

/// The label of a theme.
pub open spec fn theme_label(typ: Seq<char>, scope: Option<Seq<char>>) -> Seq<char> {
    match scope {
        Some(s) => if s.len() > 0 {
            typ + ": "@ + s
        } else {
            typ
        },
        None => typ,
    }
}

pub fn format_theme(typ: &str, scope: Option<&str>) -> (r: String)
    ensures
        r@ == theme_label(typ@, text::opt_str(scope)),
{
    let mut label = typ.to_owned();
    match scope {
        Some(s) => {
            if !s.is_empty() {
                label.append(": ");
                label.append(s);
            }
        },
        None => {},
    }
    label
}

/// The files of several commits, one commit after the other.
pub open spec fn all_files(evs: Seq<EventView>) -> Seq<Seq<char>>
    decreases evs.len(),
{
    if evs.len() == 0 {
        Seq::empty()
    } else {
        all_files(evs.drop_last()) + evs.last().files
    }
}

pub open spec fn any_migration(evs: Seq<EventView>) -> bool {
    exists|i: int| 0 <= i < evs.len() && is_migration((#[trigger] evs[i]).message)
}

/// The earliest time; the latest one that there can be where there is none.
pub open spec fn earliest(evs: Seq<EventView>) -> int
    decreases evs.len(),
{
    if evs.len() == 0 {
        i64::MAX as int
    } else {
        vstd::math::min(earliest(evs.drop_last()), evs.last().timestamp)
    }
}

/// The latest time, and no earlier than 0.
pub open spec fn latest(evs: Seq<EventView>) -> int
    decreases evs.len(),
{
    if evs.len() == 0 {
        0
    } else {
        vstd::math::max(latest(evs.drop_last()), evs.last().timestamp)
    }
}

/// The milestone that a run of commits makes.
pub open spec fn milestone_of(theme: Theme, evs: Seq<EventView>, cap: int) -> MilestoneView {
    MilestoneView {
        theme: theme_label(theme.0, theme.1),
        commit_type: theme.0,
        scope: theme.1,
        commit_count: evs.len() as int,
        commits: text::at_most(evs, cap),
        files: text::at_most(text::first_seen(all_files(evs)), MAX_FILES as int),
        first_ts: if earliest(evs) == i64::MAX {
            0
        } else {
            earliest(evs)
        },
        last_ts: latest(evs),
        has_breaking: any_migration(evs),
    }
}

/// A sort key that puts the larger count first.
pub struct MoreFirst(pub usize);

impl Ranked for MoreFirst {
    open spec fn lt(&self, other: &Self) -> bool {
        self.0 > other.0
    }

    proof fn lt_asymmetric(a: &Self, b: &Self) {
    }

    proof fn le_transitive(a: &Self, b: &Self, c: &Self) {
    }
}

impl SortKey for MoreFirst {
    fn is_lt(&self, other: &Self) -> (r: bool) {
        self.0 > other.0
    }
}

pub struct LargerFirst(pub int);

impl Ranked for LargerFirst {
    open spec fn lt(&self, other: &Self) -> bool {
        self.0 > other.0
    }

    proof fn lt_asymmetric(a: &Self, b: &Self) {
    }

    proof fn le_transitive(a: &Self, b: &Self, c: &Self) {
    }
}

pub open spec fn with_counts(ms: Seq<MilestoneView>) -> Seq<(LargerFirst, MilestoneView)> {
    Seq::new(ms.len(), |i: int| (LargerFirst(ms[i].commit_count), ms[i]))
}

/// The milestones, the most populous first.
pub open spec fn by_size(ms: Seq<MilestoneView>) -> Seq<MilestoneView> {
    order::seconds(order::ordered(with_counts(ms)))
}

pub open spec fn milestones_of(rs: Seq<Seq<EventView>>, cap: int) -> Seq<MilestoneView> {
    Seq::new(rs.len(), |i: int| milestone_of(theme_of(rs[i][0].message), rs[i], cap))
}

/// The milestones of a list of commits.
pub open spec fn clustered(evs: Seq<EventView>, cap: int) -> Seq<MilestoneView> {
    by_size(milestones_of(runs(arranged(evs)), cap))
}

pub open spec fn event_views(v: Seq<&CommitEvent>) -> Seq<EventView> {
    Seq::new(v.len(), |i: int| v[i]@)
}

impl CommitRef {
    /// The reference to a commit.
    pub fn of(e: &CommitEvent) -> (r: CommitRef)
        ensures
            r@ == e@,
    {
        CommitRef {
            hash: e.commit_hash.clone(),
            message: e.message.clone(),
            files: text::copy_list(&e.files_changed),
            timestamp: e.timestamp,
        }
    }
}

/// Add a file to a list that keeps the first few distinct ones.
pub(crate) fn add_file(files: &mut Vec<String>, file: &str, Ghost(all): Ghost<Seq<Seq<char>>>)
    requires
        text::texts(old(files)@) == text::at_most(text::first_seen(all), MAX_FILES as int),
    ensures
        text::texts(final(files)@) == text::at_most(
            text::first_seen(all.push(file@)),
            MAX_FILES as int,
        ),
{
    let ghost seen = text::first_seen(all);
    assert(all.push(file@).drop_last() =~= all);
    let known = text::has_text(files, file);
    if !known && files.len() < MAX_FILES {
        let ghost before = text::texts(files@);
        files.push(file.to_owned());
        assert(text::texts(files@) =~= before.push(file@));
    }
    proof {
        let now = text::first_seen(all.push(file@));
        if seen.len() < MAX_FILES {
            assert(text::texts(files@) =~= text::at_most(now, MAX_FILES as int));
        } else {
            assert(seen.take(MAX_FILES as int) =~= now.take(MAX_FILES as int));
            if seen.len() == MAX_FILES {
                assert(seen.take(MAX_FILES as int) =~= seen);
                assert(now.len() == MAX_FILES ==> now =~= seen);
            }
            assert(text::texts(files@) =~= text::at_most(now, MAX_FILES as int));
        }
    }
}

/// Sum up a run of commits of one theme.
pub fn build_milestone(typ: &str, scope: Option<String>, evs: &Vec<&CommitEvent>, cap: usize) -> (r:
    GitMilestone)
    ensures
        r@ == milestone_of((typ@, text::opt_text(scope)), event_views(evs@), cap as int),
{
    let ghost all = event_views(evs@);
    let mut files: Vec<String> = Vec::new();
    let mut commits: Vec<CommitRef> = Vec::new();
    let mut has_breaking = false;
    let mut ts_min: i64 = i64::MAX;
    let mut ts_max: i64 = 0;
    let mut i: usize = 0;
    assert(all.take(0) =~= Seq::empty());
    assert(text::texts(files@) =~= text::at_most(
        text::first_seen(all_files(all.take(0))),
        MAX_FILES as int,
    ));
    assert(ref_views(commits@) =~= text::at_most(all.take(0), cap as int));
    while i < evs.len()
        invariant
            i <= evs@.len(),
            all == event_views(evs@),
            text::texts(files@) == text::at_most(
                text::first_seen(all_files(all.take(i as int))),
                MAX_FILES as int,
            ),
            ref_views(commits@) == text::at_most(all.take(i as int), cap as int),
            has_breaking == any_migration(all.take(i as int)),
            ts_min == earliest(all.take(i as int)),
            ts_max == latest(all.take(i as int)),
        decreases evs@.len() - i,
    {
        let e = evs[i];
        let ghost before = all.take(i as int);
        let ghost now = all.take(i + 1);
        assert(now.drop_last() =~= before);
        assert(now.last() == e@);
        assert(now =~= before.push(e@));
        let ghost start = all_files(before);
        let ghost more = e@.files;
        let mut k: usize = 0;
        assert(start + more.take(0) =~= start);
        while k < e.files_changed.len()
            invariant
                k <= e.files_changed@.len(),
                more == text::texts(e.files_changed@),
                text::texts(files@) == text::at_most(
                    text::first_seen(start + more.take(k as int)),
                    MAX_FILES as int,
                ),
            decreases e.files_changed@.len() - k,
        {
            add_file(&mut files, e.files_changed[k].as_str(), Ghost(start + more.take(k as int)));
            k = k + 1;
            assert(start + more.take(k as int) =~= (start + more.take(k - 1)).push(more[k - 1]));
        }
        assert(more.take(k as int) =~= more);
        let mark = looks_like_migration(e.message.as_str());
        proof {
            assert(any_migration(now) == (any_migration(before) || is_migration(e@.message))) by {
                if any_migration(before) {
                    let j = choose|j: int|
                        0 <= j < before.len() && is_migration((#[trigger] before[j]).message);
                    assert(now[j] == before[j]);
                }
                if is_migration(e@.message) {
                    assert(now[i as int] == e@);
                }
                if any_migration(now) {
                    let j = choose|j: int|
                        0 <= j < now.len() && is_migration((#[trigger] now[j]).message);
                    if j < i {
                        assert(before[j] == now[j]);
                    }
                }
            }
        }
        if mark {
            has_breaking = true;
        }
        if e.timestamp < ts_min {
            ts_min = e.timestamp;
        }
        if e.timestamp > ts_max {
            ts_max = e.timestamp;
        }
        if commits.len() < cap {
            let ghost refs = ref_views(commits@);
            commits.push(CommitRef::of(e));
            assert(ref_views(commits@) =~= refs.push(e@));
        }
        assert(ref_views(commits@) =~= text::at_most(now, cap as int));
        i = i + 1;
    }
    assert(all.take(i as int) =~= all);
    let theme = match &scope {
        Some(s) => format_theme(typ, Some(s.as_str())),
        None => format_theme(typ, None),
    };
    GitMilestone {
        theme,
        commit_type: typ.to_owned(),
        scope,
        commit_count: evs.len(),
        commits,
        files,
        first_ts: if ts_min == i64::MAX {
            0
        } else {
            ts_min
        },
        last_ts: ts_max,
        has_breaking,
    }
}

/// The commits, theme by theme and newest first.
fn arrange<'a>(commits: &[&'a CommitEvent]) -> (r: Vec<&'a CommitEvent>)
    ensures
        event_views(r@) == arranged(event_views(commits@)),
{
    let mut pairs: Vec<(EventKey<'a>, ())> = Vec::new();
    let mut i: usize = 0;
    while i < commits.len()
        invariant
            i <= commits@.len(),
            pairs@.len() == i,
            forall|j: int| 0 <= j < i ==> (#[trigger] pairs@[j]).0.0 == commits@[j],
        decreases commits@.len() - i,
    {
        pairs.push((EventKey(commits[i]), ()));
        i = i + 1;
    }
    let ghost f = |p: (EventKey<'a>, ())| (theme_order(p.0.0@), p.0.0@);
    proof {
        order::ordered_mapped(pairs@, f);
        assert(order::mapped(pairs@, f) =~= with_orders(event_views(commits@)));
    }
    let sorted = order::sort(pairs);
    let mut r: Vec<&'a CommitEvent> = Vec::new();
    let mut k: usize = 0;
    while k < sorted.len()
        invariant
            k <= sorted@.len(),
            r@.len() == k,
            forall|j: int| 0 <= j < k ==> #[trigger] r@[j] == sorted@[j].0.0,
        decreases sorted@.len() - k,
    {
        r.push(sorted[k].0.0);
        k = k + 1;
    }
    proof {
        let seen = order::mapped(sorted@, f);
        assert(event_views(r@) =~= order::seconds(seen));
    }
    r
}

fn same_theme(a: &CommitEvent, b: &CommitEvent) -> (r: bool)
    ensures
        r == (theme_of(a@.message) == theme_of(b@.message)),
{
    let (ta, sa) = theme(a.message.as_str());
    let (tb, sb) = theme(b.message.as_str());
    if !text::same(ta.as_str(), tb.as_str()) {
        return false;
    }
    match (&sa, &sb) {
        (None, None) => true,
        (Some(x), Some(y)) => text::same(x.as_str(), y.as_str()),
        _ => false,
    }
}

fn goes_on(a: &CommitEvent, b: &CommitEvent) -> (r: bool)
    ensures
        r == continues(a@, b@),
{
    same_theme(a, b) && (a.timestamp as i128) - (b.timestamp as i128) <= (MAX_THEME_GAP_SECS
        as i128)
}

/// Every run has a first commit.
proof fn runs_are_not_empty(evs: Seq<EventView>)
    ensures
        forall|i: int| 0 <= i < runs(evs).len() ==> (#[trigger] runs(evs)[i]).len() > 0,
        runs(evs).len() == 0 <==> evs.len() == 0,
    decreases evs.len(),
{
    if evs.len() > 0 {
        runs_are_not_empty(evs.drop_last());
    }
}

fn close_run(out: &mut Vec<GitMilestone>, run: &Vec<&CommitEvent>, cap: usize)
    requires
        run@.len() > 0,
    ensures
        milestone_views(final(out)@) == milestone_views(old(out)@).push(
            milestone_of(theme_of(event_views(run@)[0].message), event_views(run@), cap as int),
        ),
{
    let ghost before = milestone_views(out@);
    let (typ, scope) = theme(run[0].message.as_str());
    let m = build_milestone(typ.as_str(), scope, run, cap);
    let ghost seen = m@;
    out.push(m);
    assert(milestone_views(out@) =~= before.push(seen));
}

/// Group commits by Conventional-Commit type and scope, cut each theme where it
/// pauses, and list the most populous groups first. Commits without a type land in
/// `other`, so that nothing is lost.
pub fn cluster_by_theme(commits: &[&CommitEvent], cap: usize) -> (r: Vec<GitMilestone>)
    ensures
        milestone_views(r@) == clustered(event_views(commits@), cap as int),
{
    let sorted = arrange(commits);
    let ghost all = event_views(sorted@);
    let mut out: Vec<GitMilestone> = Vec::new();
    let mut run: Vec<&CommitEvent> = Vec::new();
    let mut i: usize = 0;
    assert(all.take(0) =~= Seq::empty());
    assert(milestone_views(out@) =~= milestones_of(Seq::empty(), cap as int));
    while i < sorted.len()
        invariant
            i <= sorted@.len(),
            all == event_views(sorted@),
            i == 0 ==> run@.len() == 0 && milestone_views(out@) == milestones_of(
                Seq::empty(),
                cap as int,
            ),
            i > 0 ==> run@.len() > 0 && runs(all.take(i as int)).len() > 0 && event_views(run@)
                == runs(all.take(i as int)).last() && milestone_views(out@) == milestones_of(
                runs(all.take(i as int)).drop_last(),
                cap as int,
            ),
        decreases sorted@.len() - i,
    {
        let e = sorted[i];
        let ghost rs = runs(all.take(i as int));
        let ghost now = all.take(i + 1);
        assert(now.drop_last() =~= all.take(i as int));
        assert(now.last() == e@);
        if i > 0 && goes_on(sorted[i - 1], e) {
            assert(now[now.len() - 2] == sorted@[i - 1]@);
            let ghost before = event_views(run@);
            run.push(e);
            assert(event_views(run@) =~= before.push(e@));
            assert(runs(now).drop_last() =~= rs.drop_last());
        } else {
            if i > 0 {
                assert(now[now.len() - 2] == sorted@[i - 1]@);
                close_run(&mut out, &run, cap);
                assert(milestones_of(rs, cap as int) =~= milestones_of(
                    rs.drop_last(),
                    cap as int,
                ).push(milestone_of(theme_of(rs.last()[0].message), rs.last(), cap as int)));
            } else {
                proof {
                    runs_are_not_empty(all.take(0));
                }
                assert(rs =~= Seq::empty());
            }
            run = Vec::new();
            run.push(e);
            assert(event_views(run@) =~= seq![e@]);
            assert(runs(now).drop_last() =~= rs);
        }
        i = i + 1;
    }
    assert(all.take(i as int) =~= all);
    let ghost rs = runs(all);
    if run.len() > 0 {
        close_run(&mut out, &run, cap);
        assert(milestones_of(rs, cap as int) =~= milestones_of(rs.drop_last(), cap as int).push(
            milestone_of(theme_of(rs.last()[0].message), rs.last(), cap as int),
        ));
    } else {
        proof {
            runs_are_not_empty(all);
        }
        assert(rs =~= Seq::empty());
    }
    sort_by_size(out)
}

fn sort_by_size(ms: Vec<GitMilestone>) -> (r: Vec<GitMilestone>)
    ensures
        milestone_views(r@) == by_size(milestone_views(ms@)),
{
    let ghost all = ms@;
    let mut rest = ms;
    let mut pairs: Vec<(MoreFirst, GitMilestone)> = Vec::new();
    assert(all.skip(0) =~= all);
    while rest.len() > 0
        invariant
            pairs@.len() + rest@.len() == all.len(),
            rest@ == all.skip(pairs@.len() as int),
            forall|j: int|
                0 <= j < pairs@.len() ==> #[trigger] pairs@[j] == (
                    MoreFirst(all[j].commit_count),
                    all[j],
                ),
        decreases rest@.len(),
    {
        let ghost n = pairs@.len() as int;
        let m = rest.remove(0);
        pairs.push((MoreFirst(m.commit_count), m));
        assert(rest@ =~= all.skip(n + 1));
    }
    let ghost f = |p: (MoreFirst, GitMilestone)| (LargerFirst(p.0.0 as int), p.1@);
    proof {
        order::ordered_mapped(pairs@, f);
        assert(order::mapped(pairs@, f) =~= with_counts(milestone_views(all)));
    }
    let mut sorted = order::sort(pairs);
    let ghost full = sorted@;
    let mut r: Vec<GitMilestone> = Vec::new();
    assert(full.skip(0) =~= full);
    while sorted.len() > 0
        invariant
            r@.len() + sorted@.len() == full.len(),
            sorted@ == full.skip(r@.len() as int),
            forall|j: int| 0 <= j < r@.len() ==> #[trigger] r@[j] == full[j].1,
        decreases sorted@.len(),
    {
        let ghost n = r@.len() as int;
        let p = sorted.remove(0);
        r.push(p.1);
        assert(sorted@ =~= full.skip(n + 1));
    }
    assert(milestone_views(r@) =~= order::seconds(order::mapped(full, f)));
    r
}

// ---------------------------------------------------------------------------
// What clustering keeps
// ---------------------------------------------------------------------------

/// The runs, one after the other.
pub open spec fn flattened(rs: Seq<Seq<EventView>>) -> Seq<EventView>
    decreases rs.len(),
{
    if rs.len() == 0 {
        Seq::empty()
    } else {
        flattened(rs.drop_last()) + rs.last()
    }
}

/// Cutting commits into runs loses none and repeats none.
pub proof fn runs_cover(evs: Seq<EventView>)
    ensures
        flattened(runs(evs)) == evs,
    decreases evs.len(),
{
    if evs.len() > 0 {
        let before = runs(evs.drop_last());
        runs_cover(evs.drop_last());
        assert(evs =~= evs.drop_last().push(evs.last()));
        if before.len() > 0 && continues(evs[evs.len() - 2], evs.last()) {
            assert(runs(evs).drop_last() =~= before.drop_last());
            assert(flattened(runs(evs)) =~= flattened(before).push(evs.last()));
        } else {
            assert(runs(evs).drop_last() =~= before);
            assert(flattened(runs(evs)) =~= flattened(before).push(evs.last()));
        }
    } else {
        assert(flattened(runs(evs)) =~= evs);
    }
}

/// Arranging commits loses none and repeats none.
pub proof fn arranging_keeps_commits(evs: Seq<EventView>)
    ensures
        arranged(evs).to_multiset() == evs.to_multiset(),
{
    order::ordered_seconds_permutation(with_orders(evs));
    assert(order::seconds(with_orders(evs)) =~= evs);
}

/// The commits of a milestone follow each other without a change of theme and
/// without a long pause.
pub proof fn runs_hold_together(evs: Seq<EventView>, r: int, i: int)
    requires
        0 <= r < runs(evs).len(),
        0 <= i < runs(evs)[r].len() - 1,
    ensures
        continues(runs(evs)[r][i], runs(evs)[r][i + 1]),
    decreases evs.len(),
{
    let before = runs(evs.drop_last());
    let last = runs(evs).len() - 1;
    if before.len() > 0 && continues(evs[evs.len() - 2], evs.last()) {
        if r < last {
            runs_hold_together(evs.drop_last(), r, i);
        } else if i < before.last().len() - 1 {
            runs_hold_together(evs.drop_last(), r, i);
        } else {
            last_run_ends_last(evs.drop_last());
        }
    } else if r < last {
        runs_hold_together(evs.drop_last(), r, i);
    }
}

proof fn last_run_ends_last(evs: Seq<EventView>)
    requires
        evs.len() > 0,
    ensures
        runs(evs).len() > 0,
        runs(evs).last().len() > 0,
        runs(evs).last().last() == evs.last(),
{
    runs_are_not_empty(evs);
}

proof fn runs_are_few(evs: Seq<EventView>)
    ensures
        runs(evs).len() <= evs.len(),
    decreases evs.len(),
{
    if evs.len() > 0 {
        runs_are_few(evs.drop_last());
    }
}

/// Clustering never makes more milestones than there are commits.
pub proof fn no_more_milestones_than_commits(evs: Seq<EventView>, cap: int)
    ensures
        clustered(evs, cap).len() <= evs.len(),
{
    order::ordered_is_sorted(with_orders(evs));
    runs_are_few(arranged(evs));
    order::ordered_is_sorted(with_counts(milestones_of(runs(arranged(evs)), cap)));
}

/// Every commit is in some milestone, unless the milestones are cut short.
pub proof fn milestones_hold_every_commit(evs: Seq<EventView>, cap: int, i: int)
    requires
        0 <= i < evs.len() <= cap,
    ensures
        exists|k: int|
            0 <= k < clustered(evs, cap).len() && (#[trigger] clustered(evs, cap)[k]).commits.contains(
                evs[i],
            ),
{
    let inner = arranged(evs);
    arranging_keeps_commits(evs);
    runs_cover(inner);
    same_members(evs, inner, evs[i]);
    let r = run_with(runs(inner), evs[i]);
    let ms = milestones_of(runs(inner), cap);
    run_is_part(runs(inner), r);
    assert(inner.len() == evs.len()) by {
        inner.to_multiset_ensures();
        evs.to_multiset_ensures();
    }
    assert(ms[r].commits == runs(inner)[r]);
    order::ordered_seconds_permutation(with_counts(ms));
    assert(order::seconds(with_counts(ms)) =~= ms);
    same_members(ms, clustered(evs, cap), ms[r]);
    let k = clustered(evs, cap).index_of(ms[r]);
    assert(clustered(evs, cap)[k].commits.contains(evs[i]));
}

proof fn same_members<A>(a: Seq<A>, b: Seq<A>, x: A)
    requires
        a.to_multiset() == b.to_multiset(),
        a.contains(x),
    ensures
        b.contains(x),
{
    a.to_multiset_ensures();
    b.to_multiset_ensures();
    assert(a.to_multiset().count(x) > 0);
    assert(b.to_multiset().count(x) > 0);
}

proof fn run_with(rs: Seq<Seq<EventView>>, e: EventView) -> (r: int)
    requires
        flattened(rs).contains(e),
    ensures
        0 <= r < rs.len(),
        rs[r].contains(e),
    decreases rs.len(),
{
    let before = flattened(rs.drop_last());
    let k = flattened(rs).index_of(e);
    if k < before.len() {
        assert(before[k] == e);
        run_with(rs.drop_last(), e)
    } else {
        assert(rs.last()[k - before.len()] == e);
        rs.len() - 1
    }
}

proof fn run_is_part(rs: Seq<Seq<EventView>>, r: int)
    requires
        0 <= r < rs.len(),
    ensures
        rs[r].len() <= flattened(rs).len(),
    decreases rs.len(),
{
    if r < rs.len() - 1 {
        run_is_part(rs.drop_last(), r);
    }
}

// ---------------------------------------------------------------------------
// Collection
// ---------------------------------------------------------------------------

/// The commits that are not in the given list of hashes.
pub open spec fn fresh(evs: Seq<EventView>, ingested: Seq<Seq<char>>) -> Seq<EventView>
    decreases evs.len(),
{
    if evs.len() == 0 {
        Seq::empty()
    } else if ingested.contains(evs.last().hash) {
        fresh(evs.drop_last(), ingested)
    } else {
        fresh(evs.drop_last(), ingested).push(evs.last())
    }
}

/// The commits that look like migrations.
pub open spec fn migrations_of(evs: Seq<EventView>) -> Seq<EventView>
    decreases evs.len(),
{
    if evs.len() == 0 {
        Seq::empty()
    } else if is_migration(evs.last().message) {
        migrations_of(evs.drop_last()).push(evs.last())
    } else {
        migrations_of(evs.drop_last())
    }
}

/// The views of a list of commits.
pub open spec fn commit_views(v: Seq<CommitEvent>) -> Seq<EventView> {
    Seq::new(v.len(), |i: int| v[i]@)
}

/// `c` is what the commits yield.
pub open spec fn is_git_evidence(
    c: GitCollection,
    evs: Seq<EventView>,
    ingested: Seq<Seq<char>>,
    cap: int,
) -> bool {
    let kept = fresh(evs, ingested);
    &&& milestone_views(c.milestones@) == clustered(kept, cap)
    &&& ref_views(c.migrations@) == migrations_of(kept)
    &&& ref_views(c.recent_commits@) == kept
    &&& c.skipped_ingested == evs.len() - kept.len()
}

/// Every commit is either kept or counted as skipped.
pub proof fn fresh_is_shorter(evs: Seq<EventView>, ingested: Seq<Seq<char>>)
    ensures
        fresh(evs, ingested).len() <= evs.len(),
        migrations_of(evs).len() <= evs.len(),
    decreases evs.len(),
{
    if evs.len() > 0 {
        fresh_is_shorter(evs.drop_last(), ingested);
    }
}

/// Collecting again once everything has been ingested finds nothing.
pub proof fn nothing_fresh_after_ingest(evs: Seq<EventView>, ingested: Seq<Seq<char>>)
    requires
        forall|i: int| 0 <= i < evs.len() ==> ingested.contains((#[trigger] evs[i]).hash),
    ensures
        fresh(evs, ingested) == Seq::<EventView>::empty(),
    decreases evs.len(),
{
    if evs.len() > 0 {
        assert forall|i: int| 0 <= i < evs.drop_last().len() implies ingested.contains(
            (#[trigger] evs.drop_last()[i]).hash,
        ) by {
            assert(evs.drop_last()[i] == evs[i]);
        }
        nothing_fresh_after_ingest(evs.drop_last(), ingested);
        assert(ingested.contains(evs[evs.len() - 1].hash));
    }
}

/// Collect git evidence from commit events, leaving out those already stored.
pub fn collect_from_events(events: &Vec<CommitEvent>, opts: &CollectOptions) -> (r: GitCollection)
    ensures
        is_git_evidence(
            r,
            commit_views(events@),
            text::texts(opts.ingested_commit_hashes@),
            opts.max_commits_per_milestone as int,
        ),
{
    let ghost evs = commit_views(events@);
    let ghost ingested = text::texts(opts.ingested_commit_hashes@);
    let mut kept: Vec<&CommitEvent> = Vec::new();
    let mut migrations: Vec<CommitRef> = Vec::new();
    let mut recent: Vec<CommitRef> = Vec::new();
    let mut skipped: usize = 0;
    let mut i: usize = 0;
    assert(evs.take(0) =~= Seq::empty());
    assert(event_views(kept@) =~= fresh(evs.take(0), ingested));
    assert(ref_views(recent@) =~= fresh(evs.take(0), ingested));
    assert(ref_views(migrations@) =~= migrations_of(fresh(evs.take(0), ingested)));
    while i < events.len()
        invariant
            i <= events@.len(),
            evs == commit_views(events@),
            ingested == text::texts(opts.ingested_commit_hashes@),
            event_views(kept@) == fresh(evs.take(i as int), ingested),
            ref_views(recent@) == fresh(evs.take(i as int), ingested),
            ref_views(migrations@) == migrations_of(fresh(evs.take(i as int), ingested)),
            skipped + kept@.len() == i,
        decreases events@.len() - i,
    {
        let e = &events[i];
        assert(evs.take(i + 1).drop_last() =~= evs.take(i as int));
        assert(evs.take(i + 1).last() == e@);
        let ghost before = fresh(evs.take(i as int), ingested);
        if text::has_text(&opts.ingested_commit_hashes, e.commit_hash.as_str()) {
            skipped = skipped + 1;
        } else {
            kept.push(e);
            assert(event_views(kept@) =~= before.push(e@));
            recent.push(CommitRef::of(e));
            assert(ref_views(recent@) =~= before.push(e@));
            assert(before.push(e@).drop_last() =~= before);
            if looks_like_migration(e.message.as_str()) {
                let ghost seen = ref_views(migrations@);
                migrations.push(CommitRef::of(e));
                assert(ref_views(migrations@) =~= seen.push(e@));
            }
        }
        i = i + 1;
    }
    assert(evs.take(i as int) =~= evs);
    assert(event_views(kept@).len() == kept@.len());
    let milestones = cluster_by_theme(kept.as_slice(), opts.max_commits_per_milestone);
    GitCollection { milestones, migrations, recent_commits: recent, skipped_ingested: skipped }
}

/// The commit history of a path.
#[derive(Debug)]
pub enum History {
    /// Neither the path nor a directory above it is a git repository.
    NoRepository,
    /// There is a repository, and reading it failed with this message.
    Failed(String),
    Commits(Vec<CommitEvent>),
}

/// Collect git evidence from the history of a path. A path that is no git repository
/// yields an empty collection, not an error.
pub fn collect(history: History, opts: &CollectOptions) -> (r: Result<GitCollection, String>)
    ensures
        match (history, r) {
            (History::NoRepository, Ok(c)) => {
                &&& c.milestones@.len() == 0
                &&& c.migrations@.len() == 0
                &&& c.recent_commits@.len() == 0
                &&& c.skipped_ingested == 0
            },
            (History::Commits(evs), Ok(c)) => is_git_evidence(
                c,
                commit_views(evs@),
                text::texts(opts.ingested_commit_hashes@),
                opts.max_commits_per_milestone as int,
            ),
            (History::Failed(e), Err(f)) => e == f,
            _ => false,
        },
{
    match history {
        History::NoRepository => Ok(
            GitCollection {
                milestones: Vec::new(),
                migrations: Vec::new(),
                recent_commits: Vec::new(),
                skipped_ingested: 0,
            },
        ),
        History::Commits(evs) => Ok(collect_from_events(&evs, opts)),
        History::Failed(e) => Err(e),
    }
}

// ---------------------------------------------------------------------------
// What is kept and counted
// ---------------------------------------------------------------------------

/// Fresh are just the commits whose hash is not among those ingested, and migrations just
/// the ones that look like it, both in their order.
pub proof fn fresh_commits_are_all_kept(evs: Seq<EventView>, ingested: Seq<Seq<char>>)
    ensures
        fresh(evs, ingested) == evs.filter(|e: EventView| !ingested.contains(e.hash)),
        migrations_of(evs) == evs.filter(|e: EventView| is_migration(e.message)),
        ingested.len() == 0 ==> fresh(evs, ingested) == evs,
    decreases evs.len(),
{
    reveal(Seq::filter);
    if evs.len() > 0 {
        fresh_commits_are_all_kept(evs.drop_last(), ingested);
        assert(evs.drop_last().push(evs.last()) =~= evs);
    } else {
        assert(fresh(evs, ingested) =~= evs);
    }
}

/// Any one of these marks makes a commit a migration, wherever it stands.
pub proof fn marks_of_a_migration(message: Seq<char>)
    ensures
        is_migration(message) <==> {
            let lower = text::lowercase(message);
            ||| text::contains(lower, "breaking change"@)
            ||| text::contains(lower, "breaking:"@)
            ||| text::contains(text::first_line(message), "!:"@)
            ||| text::contains(lower, "migration"@)
            ||| text::contains(lower, "migrate"@)
            ||| text::contains(lower, "deprecat"@)
        },
{
}

/// The files of several commits are those of each commit, one after the other.
pub proof fn files_of_all_commits(a: Seq<EventView>, e: EventView)
    ensures
        all_files(Seq::<EventView>::empty()) == Seq::<Seq<char>>::empty(),
        all_files(a.push(e)) == all_files(a) + e.files,
        forall|i: int, k: int|
            0 <= i < a.len() && 0 <= k < a[i].files.len() ==> all_files(a).contains(
                #[trigger] a[i].files[k],
            ),
    decreases a.len(),
{
    assert(a.push(e).drop_last() =~= a);
    if a.len() > 0 {
        let rest = a.drop_last();
        files_of_all_commits(rest, a.last());
        assert forall|i: int, k: int|
            0 <= i < a.len() && 0 <= k < a[i].files.len() implies all_files(a).contains(
            #[trigger] a[i].files[k],
        ) by {
            if i < rest.len() {
                assert(rest[i] == a[i]);
                assert(all_files(rest).contains(rest[i].files[k]));
                let m = choose|m: int|
                    0 <= m < all_files(rest).len() && all_files(rest)[m] == a[i].files[k];
                assert(all_files(a)[m] == a[i].files[k]);
            } else {
                assert(all_files(a)[all_files(rest).len() + k] == a[i].files[k]);
            }
        }
    }
}

/// The first and last time of commits are the least and the greatest of their times; the
/// last one is never below 0.
pub proof fn times_span_all_commits(evs: Seq<EventView>)
    ensures
        forall|i: int|
            0 <= i < evs.len() ==> earliest(evs) <= (#[trigger] evs[i]).timestamp <= latest(evs),
        evs.len() > 0 ==> earliest(evs) == i64::MAX || exists|i: int|
            0 <= i < evs.len() && (#[trigger] evs[i]).timestamp == earliest(evs),
        latest(evs) == 0 || exists|i: int|
            0 <= i < evs.len() && (#[trigger] evs[i]).timestamp == latest(evs),
        latest(evs) >= 0,
    decreases evs.len(),
{
    if evs.len() > 0 {
        let rest = evs.drop_last();
        times_span_all_commits(rest);
        assert(evs[evs.len() - 1].timestamp == evs.last().timestamp);
        assert forall|i: int| 0 <= i < evs.len() implies earliest(evs) <= (
        #[trigger] evs[i]).timestamp <= latest(evs) by {
            if i < rest.len() {
                assert(rest[i] == evs[i]);
            }
        }
        let n = evs.len() - 1;
        if earliest(evs) == evs[n].timestamp {
            assert(exists|i: int| 0 <= i < evs.len() && (#[trigger] evs[i]).timestamp == earliest(evs));
        } else if earliest(rest) != i64::MAX {
            assert(earliest(evs) == earliest(rest));
            assert(rest.len() > 0);
            let i = choose|i: int|
                0 <= i < rest.len() && (#[trigger] rest[i]).timestamp == earliest(rest);
            assert(evs[i].timestamp == earliest(evs));
        } else {
            assert(earliest(evs) == earliest(rest));
        }
        if latest(evs) == latest(rest) && latest(rest) != 0 {
            let i = choose|i: int|
                0 <= i < rest.len() && (#[trigger] rest[i]).timestamp == latest(rest);
            assert(evs[i].timestamp == latest(evs));
        }
    }
}

/// A milestone counts all its commits, lists them from the first on up to the cap, and is
/// breaking where any of them is.
pub proof fn milestones_sum_up_their_commits(theme: Theme, evs: Seq<EventView>, cap: int)
    requires
        0 <= cap,
    ensures
        milestone_of(theme, evs, cap).commit_count == evs.len(),
        milestone_of(theme, evs, cap).commits.len() == if evs.len() <= cap {
            evs.len() as int
        } else {
            cap
        },
        forall|i: int|
            0 <= i < milestone_of(theme, evs, cap).commits.len() ==> #[trigger] milestone_of(
                theme,
                evs,
                cap,
            ).commits[i] == evs[i],
        milestone_of(theme, evs, cap).commit_type == theme.0,
        milestone_of(theme, evs, cap).scope == theme.1,
        milestone_of(theme, evs, cap).has_breaking <==> exists|i: int|
            0 <= i < evs.len() && is_migration((#[trigger] evs[i]).message),
        milestone_of(theme, evs, cap).last_ts == latest(evs),
        earliest(evs) < i64::MAX ==> milestone_of(theme, evs, cap).first_ts == earliest(evs),
        milestone_of(theme, evs, cap).files.no_duplicates(),
        milestone_of(theme, evs, cap).files.len() <= 50,
        forall|f: Seq<char>| #[trigger]
            milestone_of(theme, evs, cap).files.contains(f) ==> all_files(evs).contains(f),
        text::first_seen(all_files(evs)).len() <= 50 ==> forall|f: Seq<char>| #[trigger]
            all_files(evs).contains(f) ==> milestone_of(theme, evs, cap).files.contains(f),
{
    let all = all_files(evs);
    let once = text::first_seen(all);
    let files = milestone_of(theme, evs, cap).files;
    text::first_seen_is_distinct(all);
    assert forall|f: Seq<char>| #[trigger] files.contains(f) implies all.contains(f) by {
        let i = choose|i: int| 0 <= i < files.len() && files[i] == f;
        assert(once[i] == f);
        assert(once.contains(f));
    }
    assert forall|i: int, j: int| 0 <= i < files.len() && 0 <= j < files.len() && i
        != j implies files[i] != files[j] by {
        assert(once[i] != once[j]);
    }
}

/// Ordering milestones by size neither drops nor adds one and puts the larger first.
pub proof fn larger_milestones_come_first(ms: Seq<MilestoneView>)
    ensures
        by_size(ms).len() == ms.len(),
        by_size(ms).to_multiset() == ms.to_multiset(),
        forall|i: int, j: int|
            0 <= i < j < ms.len() ==> (#[trigger] by_size(ms)[i]).commit_count >= (
            #[trigger] by_size(ms)[j]).commit_count,
{
    let items = with_counts(ms);
    let sorted = order::ordered(items);
    order::ordered_is_sorted(items);
    order::ordered_seconds_permutation(items);
    assert(order::seconds(items) =~= ms);
    let keyed = |p: (LargerFirst, MilestoneView)| p.0.0 == p.1.commit_count;
    order::ordered_keeps(items, keyed);
    assert forall|i: int, j: int| 0 <= i < j < ms.len() implies (
    #[trigger] by_size(ms)[i]).commit_count >= (#[trigger] by_size(ms)[j]).commit_count by {
        assert(!sorted[j].0.lt(&sorted[i].0));
        assert(keyed(sorted[i]) && keyed(sorted[j]));
    }
}

/// A theme is cut only where it changes or pauses: the first commit of a milestone does
/// not continue the last one of the milestone before it.
pub proof fn runs_are_cut_only_where_needed(evs: Seq<EventView>, r: int)
    requires
        0 <= r < runs(evs).len() - 1,
    ensures
        runs(evs)[r].len() > 0,
        runs(evs)[r + 1].len() > 0,
        theme_of(runs(evs)[r].last().message) != theme_of(runs(evs)[r + 1][0].message)
            || runs(evs)[r].last().timestamp - runs(evs)[r + 1][0].timestamp
            > MAX_THEME_GAP_SECS,
    decreases evs.len(),
{
    runs_end_with_the_last(evs);
    let rest = evs.drop_last();
    let before = runs(rest);
    if before.len() > 0 && continues(evs[evs.len() - 2], evs.last()) {
        runs_are_cut_only_where_needed(rest, r);
        assert(before[r] == runs(evs)[r]);
    } else if r < before.len() - 1 {
        runs_are_cut_only_where_needed(rest, r);
    } else {
        runs_end_with_the_last(rest);
        assert(runs(evs)[r] == before.last());
        assert(runs(evs)[r + 1] == seq![evs.last()]);
        assert(before.last().last() == evs[evs.len() - 2]);
    }
}

proof fn runs_end_with_the_last(evs: Seq<EventView>)
    ensures
        evs.len() > 0 ==> runs(evs).len() > 0 && runs(evs).last().len() > 0
            && runs(evs).last().last() == evs.last(),
        evs.len() == 0 ==> runs(evs).len() == 0,
        forall|r: int| 0 <= r < runs(evs).len() ==> (#[trigger] runs(evs)[r]).len() > 0,
    decreases evs.len(),
{
    if evs.len() > 0 {
        runs_end_with_the_last(evs.drop_last());
    }
}

/// Commits come theme by theme, and within a theme the newest first.
pub proof fn commits_come_by_theme(evs: Seq<EventView>, i: int, j: int)
    requires
        0 <= i < j < evs.len(),
    ensures
        arranged(evs).len() == evs.len(),
        theme_of(arranged(evs)[i].message) == theme_of(arranged(evs)[j].message)
            ==> arranged(evs)[i].timestamp >= arranged(evs)[j].timestamp,
        !theme_lt(theme_of(arranged(evs)[j].message), theme_of(arranged(evs)[i].message)),
{
    let items = with_orders(evs);
    let sorted = order::ordered(items);
    order::ordered_is_sorted(items);
    let keyed = |p: (ThemeOrder, EventView)| p.0 == theme_order(p.1);
    order::ordered_keeps(items, keyed);
    assert(!sorted[j].0.lt(&sorted[i].0));
    assert(keyed(sorted[i]) && keyed(sorted[j]));
}

/// The evidence of a history lists every commit that has not been ingested, in order, and
/// all that look like migrations among them; the others are counted.
pub proof fn evidence_covers_the_history(
    c: GitCollection,
    evs: Seq<EventView>,
    ingested: Seq<Seq<char>>,
    cap: int,
)
    requires
        is_git_evidence(c, evs, ingested, cap),
    ensures
        ({
            let kept = evs.filter(|e: EventView| !ingested.contains(e.hash));
            &&& c.recent_commits@.len() == kept.len()
            &&& forall|i: int|
                0 <= i < kept.len() ==> (#[trigger] c.recent_commits@[i]).hash@ == kept[i].hash
                    && c.recent_commits@[i].message@ == kept[i].message
            &&& c.skipped_ingested + kept.len() == evs.len()
            &&& c.migrations@.len() == kept.filter(|e: EventView| is_migration(e.message)).len()
        }),
{
    fresh_commits_are_all_kept(evs, ingested);
    let kept = fresh(evs, ingested);
    fresh_commits_are_all_kept(kept, ingested);
    let seen = ref_views(c.recent_commits@);
    assert(seen.len() == c.recent_commits@.len());
    assert(ref_views(c.migrations@).len() == c.migrations@.len());
    assert forall|i: int| 0 <= i < kept.len() implies (#[trigger] c.recent_commits@[i]).hash@
        == kept[i].hash && c.recent_commits@[i].message@ == kept[i].message by {
        assert(seen[i] == c.recent_commits@[i]@);
    }
}

/// These are the types that a commit can have, and no other.
pub proof fn types_of_commits(name: Seq<char>)
    ensures
        known_types().contains(name) <==> {
            ||| name == "feat"@
            ||| name == "fix"@
            ||| name == "docs"@
            ||| name == "style"@
            ||| name == "refactor"@
            ||| name == "perf"@
            ||| name == "test"@
            ||| name == "build"@
            ||| name == "ci"@
            ||| name == "chore"@
            ||| name == "revert"@
            ||| name == "hotfix"@
            ||| name == "bugfix"@
            ||| name == "wip"@
            ||| name == "release"@
            ||| name == "merge"@
        },
{
    let all = known_types();
    assert(all[0] == "feat"@);
    assert(all[1] == "fix"@);
    assert(all[2] == "docs"@);
    assert(all[3] == "style"@);
    assert(all[4] == "refactor"@);
    assert(all[5] == "perf"@);
    assert(all[6] == "test"@);
    assert(all[7] == "build"@);
    assert(all[8] == "ci"@);
    assert(all[9] == "chore"@);
    assert(all[10] == "revert"@);
    assert(all[11] == "hotfix"@);
    assert(all[12] == "bugfix"@);
    assert(all[13] == "wip"@);
    assert(all[14] == "release"@);
    assert(all[15] == "merge"@);
}

/// The head of a message names a type, with a scope in brackets behind it or without one;
/// a type that is not known names nothing.
pub proof fn heads_name_type_and_scope(typ: Seq<char>, scope: Seq<char>)
    requires
        typ.len() > 0,
        text::is_lower(typ[0]),
        !typ.contains('('),
        !scope.contains(')'),
    ensures
        known_types().contains(typ) ==> parsed_head(typ) == (Some(typ), None::<Seq<char>>),
        known_types().contains(typ) ==> parsed_head(typ + seq!['('] + scope + seq![')']) == (
            Some(typ),
            Some(scope),
        ),
        !known_types().contains(typ) ==> parsed_head(typ) == (None::<Seq<char>>, None::<Seq<char>>)
            && parsed_head(typ + seq!['('] + scope + seq![')']) == (
            None::<Seq<char>>,
            None::<Seq<char>>,
        ),
        scope.len() > 0 ==> theme_label(typ, Some(scope)) == typ + ": "@ + scope,
        theme_label(typ, None) == typ,
{
    text::char_index_is_first(typ, '(');
    if text::char_index(typ, '(') is Some {
        let p = text::char_index(typ, '(')->0;
        assert(typ.contains(typ[p]));
    }
    let head = typ + seq!['('] + scope + seq![')'];
    assert(head[0] == typ[0]);
    text::char_index_is_first(head, '(');
    assert(head[typ.len() as int] == '(');
    let open = text::char_index(head, '(')->0;
    if open < typ.len() {
        assert(typ.contains(typ[open]));
    }
    assert(open == typ.len());
    let tail = head.skip(open);
    assert(tail =~= seq!['('] + scope + seq![')']);
    text::char_index_is_first(tail, ')');
    assert(tail[scope.len() as int + 1] == ')');
    let close = text::char_index(tail, ')')->0;
    if close < scope.len() + 1 {
        assert(tail[0] == '(');
        assert(tail[close] == scope[close - 1]);
        assert(scope.contains(scope[close - 1]));
    }
    assert(head.take(open) =~= typ);
    assert(head.subrange(open + 1, open + close) =~= scope);
}

} // verus!
