//! Failures collector: fix commits, change logs and tests of error cases.
use crate::collectors::files;
use crate::collectors::files::{FileView, WalkedFile};
use crate::collectors::git_collector;
use crate::collectors::CollectOptions;
use crate::git_integration::listener::{CommitEvent, EventView};
use crate::text;
use vstd::prelude::*;

verus! {

/// The most fix commits that are collected.
pub const MAX_FIX_COMMITS: usize = 100;

/// The most test files that are collected.
pub const MAX_ERROR_TEST_FILES: usize = 30;

/// Evidence for past failures and incidents.
#[derive(Clone, Debug)]
pub struct FailuresCollection {
    pub fix_commits: Vec<FixCommit>,
    pub changelog_fixed: Vec<ChangelogFixedEntry>,
    /// Test files whose names hint at error cases: a weak signal.
    pub error_test_files: Vec<String>,
}

impl FailuresCollection {
    pub fn item_count(&self) -> (r: usize)
        ensures
            r == text::tallied(
                self.fix_commits@.len() + self.changelog_fixed@.len()
                    + self.error_test_files@.len(),
            ),
    {
        text::tally(
            text::tally(self.fix_commits.len(), self.changelog_fixed.len()),
            self.error_test_files.len(),
        )
    }
}

#[derive(Clone, Debug)]
pub struct FixCommit {
    pub hash: String,
    pub message: String,
    pub files: Vec<String>,
    pub timestamp: i64,
}

impl View for FixCommit {
    type V = EventView;

    open spec fn view(&self) -> EventView {
        EventView {
            hash: self.hash@,
            message: self.message@,
            files: text::texts(self.files@),
            timestamp: self.timestamp as int,
        }
    }
}

pub open spec fn fix_views(v: Seq<FixCommit>) -> Seq<EventView> {
    Seq::new(v.len(), |i: int| v[i]@)
}

#[derive(Clone, Debug)]
pub struct ChangelogFixedEntry {
    pub path: String,
    pub section: String,
    pub line_start: usize,
    pub entry: String,
}

/// An entry of a change log as a mathematical value.
pub struct ChangelogView {
    pub path: Seq<char>,
    pub section: Seq<char>,
    pub line_start: int,
    pub entry: Seq<char>,
}

impl View for ChangelogFixedEntry {
    type V = ChangelogView;

    open spec fn view(&self) -> ChangelogView {
        ChangelogView {
            path: self.path@,
            section: self.section@,
            line_start: self.line_start as int,
            entry: self.entry@,
        }
    }
}

pub open spec fn changelog_views(v: Seq<ChangelogFixedEntry>) -> Seq<ChangelogView> {
    Seq::new(v.len(), |i: int| v[i]@)
}

// ---------------------------------------------------------------------------
// Fix commits
// ---------------------------------------------------------------------------

/// The first line, trimmed, and the whole message, both in lower case, describe a
/// fix.
pub open spec fn fix_marks(first: Seq<char>, lower: Seq<char>) -> bool {
    ||| text::starts_with(first, "fix"@)
    ||| text::starts_with(first, "hotfix"@)
    ||| text::starts_with(first, "revert"@)
    ||| text::contains(lower, "bug"@)
    ||| text::contains(lower, "bugfix"@)
    ||| text::contains(lower, "patch"@)
    ||| text::contains(lower, "crash"@)
    ||| text::contains(lower, "regression"@)
    ||| text::contains(lower, "hotfix"@)
    ||| text::contains(lower, "broken"@)
    ||| text::contains(lower, "leak"@)
}

pub open spec fn is_fix(msg: Seq<char>) -> bool {
    fix_marks(text::lowercase(text::trimmed(text::first_line(msg))), text::lowercase(msg))
}

/// Look for the marks of a fix in the lowercase forms of a message.
pub fn has_fix_marks(first: &str, lower: &str) -> (r: bool)
    ensures
        r == fix_marks(first@, lower@),
{
    text::has_prefix(first, "fix") || text::has_prefix(first, "hotfix") || text::has_prefix(
        first,
        "revert",
    ) || text::has_substring(lower, "bug") || text::has_substring(lower, "bugfix")
        || text::has_substring(lower, "patch") || text::has_substring(lower, "crash")
        || text::has_substring(lower, "regression") || text::has_substring(lower, "hotfix")
        || text::has_substring(lower, "broken") || text::has_substring(lower, "leak")
}

/// Does a commit message describe a fix?
pub fn is_fix_message(msg: &str) -> (r: bool)
    ensures
        r == is_fix(msg@),
        text::is_ascii(msg@) ==> r == fix_marks(
            text::ascii_lowered(text::trimmed(text::first_line(msg@))),
            text::ascii_lowered(msg@),
        ),
{
    let line = text::trim(text::head_line(msg).as_str());
    proof {
        if text::is_ascii(msg@) {
            text::lines_keep_ascii(msg@);
            if text::lines(msg@).len() > 0 {
                assert(text::is_ascii(text::lines(msg@)[0]));
            }
            text::trimmed_keeps_ascii(text::first_line(msg@));
        }
    }
    has_fix_marks(
        text::to_lowercase(line.as_str()).as_str(),
        text::to_lowercase(msg).as_str(),
    )
}

/// The commits that describe a fix.
pub open spec fn fixes_of(evs: Seq<EventView>) -> Seq<EventView>
    decreases evs.len(),
{
    if evs.len() == 0 {
        Seq::empty()
    } else if is_fix(evs.last().message) {
        fixes_of(evs.drop_last()).push(evs.last())
    } else {
        fixes_of(evs.drop_last())
    }
}

// ---------------------------------------------------------------------------
// Change logs
// ---------------------------------------------------------------------------

/// The text of a heading.
pub open spec fn heading_text(line: Seq<char>) -> Seq<char> {
    text::trimmed(text::trim_start_char(line, '#'))
}

/// A heading, given in lower case, opens a section of fixes.
pub open spec fn heading_of_fixes(lower: Seq<char>) -> bool {
    text::contains(lower, "fix"@) || text::contains(lower, "bug"@)
}

/// The text of a list item; none for a line that is no item.
pub open spec fn item_text(line: Seq<char>) -> Option<Seq<char>> {
    match text::after_prefix(line, "- "@) {
        Some(rest) => Some(text::trimmed(rest)),
        None => match text::after_prefix(line, "* "@) {
            Some(rest) => Some(text::trimmed(rest)),
            None => match text::after_prefix(line, "+ "@) {
                Some(rest) => Some(text::trimmed(rest)),
                None => None,
            },
        },
    }
}

/// How far a change log has been read: whether the section is one of fixes, the
/// name of the last such section, and the entries found.
pub struct ChangelogState {
    pub in_fixed: bool,
    pub section: Seq<char>,
    pub entries: Seq<ChangelogView>,
}

/// One more line of a change log.
pub open spec fn changelog_step(
    s: ChangelogState,
    line: Seq<char>,
    number: int,
    path: Seq<char>,
    lower: spec_fn(Seq<char>) -> Seq<char>,
) -> ChangelogState {
    let t = text::trimmed(line);
    if t.len() > 0 && t[0] == '#' {
        let heading = heading_text(t);
        let in_fixed = heading_of_fixes(lower(heading));
        ChangelogState {
            in_fixed,
            section: if in_fixed {
                heading
            } else {
                s.section
            },
            entries: s.entries,
        }
    } else if !s.in_fixed {
        s
    } else {
        match item_text(t) {
            Some(item) => if item.len() > 0 {
                ChangelogState {
                    in_fixed: s.in_fixed,
                    section: s.section,
                    entries: s.entries.push(
                        ChangelogView { path, section: s.section, line_start: number, entry: item },
                    ),
                }
            } else {
                s
            },
            None => s,
        }
    }
}

/// A change log read line by line.
pub open spec fn changelog_read(
    lines: Seq<Seq<char>>,
    path: Seq<char>,
    lower: spec_fn(Seq<char>) -> Seq<char>,
) -> ChangelogState
    decreases lines.len(),
{
    if lines.len() == 0 {
        ChangelogState { in_fixed: false, section: Seq::empty(), entries: Seq::empty() }
    } else {
        changelog_step(
            changelog_read(lines.drop_last(), path, lower),
            lines.last(),
            lines.len() as int,
            path,
            lower,
        )
    }
}

pub open spec fn full_lower() -> spec_fn(Seq<char>) -> Seq<char> {
    |s: Seq<char>| text::lowercase(s)
}

/// The entries under the fix sections of a change log.
pub open spec fn changelog_entries(log: Seq<char>, path: Seq<char>) -> Seq<ChangelogView> {
    changelog_read(text::lines(log), path, full_lower()).entries
}

fn list_item(line: &str) -> (r: Option<String>)
    ensures
        text::opt_text(r) == item_text(line@),
{
    match text::strip_prefix(line, "- ") {
        Some(rest) => Some(text::trim(rest.as_str())),
        None => match text::strip_prefix(line, "* ") {
            Some(rest) => Some(text::trim(rest.as_str())),
            None => match text::strip_prefix(line, "+ ") {
                Some(rest) => Some(text::trim(rest.as_str())),
                None => None,
            },
        },
    }
}

/// Parse the sections of fixes out of a change log, each list item an entry.
pub fn parse_changelog_fixed(log: &str, path: &str) -> (r: Vec<ChangelogFixedEntry>)
    ensures
        changelog_views(r@) == changelog_entries(log@, path@),
        text::is_ascii(log@) ==> changelog_views(r@) == changelog_read(
            text::lines(log@),
            path@,
            |s: Seq<char>| text::ascii_lowered(s),
        ).entries,
{
    let lines = text::line_list(log);
    let ghost all = text::texts(lines@);
    let ghost lower = full_lower();
    let ghost plain = |s: Seq<char>| text::ascii_lowered(s);
    let ghost ascii = text::is_ascii(log@);
    proof {
        if ascii {
            text::lines_keep_ascii(log@);
        }
    }
    let mut entries: Vec<ChangelogFixedEntry> = Vec::new();
    let mut in_fixed = false;
    let mut section = String::new();
    let mut i: usize = 0;
    assert(all.take(0) =~= Seq::empty());
    assert(changelog_views(entries@) =~= changelog_read(all.take(0), path@, lower).entries);
    while i < lines.len()
        invariant
            i <= lines@.len(),
            all == text::texts(lines@),
            lower == full_lower(),
            plain == (|s: Seq<char>| text::ascii_lowered(s)),
            ascii ==> forall|k: int| 0 <= k < all.len() ==> text::is_ascii(#[trigger] all[k]),
            ascii ==> changelog_read(all.take(i as int), path@, lower) == changelog_read(
                all.take(i as int),
                path@,
                plain,
            ),
            in_fixed == changelog_read(all.take(i as int), path@, lower).in_fixed,
            section@ == changelog_read(all.take(i as int), path@, lower).section,
            changelog_views(entries@) == changelog_read(all.take(i as int), path@, lower).entries,
        decreases lines@.len() - i,
    {
        assert(all.take(i + 1).drop_last() =~= all.take(i as int));
        assert(all.take(i + 1).last() == lines@[i as int]@);
        let t = text::trim(lines[i].as_str());
        let v = text::chars_of(t.as_str());
        if v.len() > 0 && v[0] == '#' {
            let heading = text::trim(text::strip_leading(t.as_str(), '#').as_str());
            let low = text::to_lowercase(heading.as_str());
            proof {
                if ascii {
                    assert(text::is_ascii(all[i as int]));
                    text::trimmed_keeps_ascii(all[i as int]);
                    text::trim_start_char_keeps_ascii(t@, '#');
                    text::trimmed_keeps_ascii(text::trim_start_char(t@, '#'));
                }
            }
            in_fixed = text::has_substring(low.as_str(), "fix") || text::has_substring(
                low.as_str(),
                "bug",
            );
            if in_fixed {
                section = heading;
            }
        } else if in_fixed {
            match list_item(t.as_str()) {
                Some(item) => {
                    if !item.as_str().is_empty() {
                        let ghost before = changelog_views(entries@);
                        let found = ChangelogFixedEntry {
                            path: path.to_owned(),
                            section: section.clone(),
                            line_start: i + 1,
                            entry: item,
                        };
                        let ghost seen = found@;
                        entries.push(found);
                        assert(changelog_views(entries@) =~= before.push(seen));
                    }
                },
                None => {},
            }
        }
        i = i + 1;
    }
    assert(all.take(i as int) =~= all);
    entries
}

// ---------------------------------------------------------------------------
// Tests of error cases
// ---------------------------------------------------------------------------

/// A file name, in lower case, suggests a test of an error case.
pub open spec fn error_test_name(lower: Seq<char>) -> bool {
    &&& text::starts_with(lower, "test"@) || text::contains(lower, "_test"@) || text::ends_with(
        lower,
        "test.rs"@,
    )
    &&& text::contains(lower, "error"@) || text::contains(lower, "panic"@) || text::contains(
        lower,
        "edge"@,
    ) || text::contains(lower, "fuzz"@) || text::contains(lower, "fail"@)
}

/// Judge a file name that is in lower case already.
pub fn error_test_lowered(lower: &str) -> (r: bool)
    ensures
        r == error_test_name(lower@),
{
    (text::has_prefix(lower, "test") || text::has_substring(lower, "_test") || text::has_suffix(
        lower,
        "test.rs",
    )) && (text::has_substring(lower, "error") || text::has_substring(lower, "panic")
        || text::has_substring(lower, "edge") || text::has_substring(lower, "fuzz")
        || text::has_substring(lower, "fail"))
}

/// Does a file name suggest a test of an error or edge case?
pub fn looks_like_error_test(name: &str) -> (r: bool)
    ensures
        r == error_test_name(text::lowercase(name@)),
        text::is_plain(name@) ==> r == error_test_name(text::ascii_lowered(name@)),
{
    error_test_lowered(text::to_lowercase(name).as_str())
}

// ---------------------------------------------------------------------------
// Collection
// ---------------------------------------------------------------------------

/// The change-log entries of several files.
pub open spec fn logs_of(fs: Seq<FileView>, root: Seq<char>) -> Seq<ChangelogView>
    decreases fs.len(),
{
    if fs.len() == 0 {
        Seq::empty()
    } else {
        let f = fs.last();
        let before = logs_of(fs.drop_last(), root);
        if files::base_name(f.path) == "CHANGELOG.md"@ {
            match files::text_read(f) {
                Some(log) => before + changelog_entries(log, files::relative(f.path, root)),
                None => before,
            }
        } else {
            before
        }
    }
}

/// The paths of the files that look like tests of error cases, no change log among
/// them.
pub open spec fn tests_of(fs: Seq<FileView>, root: Seq<char>) -> Seq<Seq<char>>
    decreases fs.len(),
{
    if fs.len() == 0 {
        Seq::empty()
    } else {
        let f = fs.last();
        let name = files::base_name(f.path);
        if name != "CHANGELOG.md"@ && error_test_name(text::lowercase(name)) {
            tests_of(fs.drop_last(), root).push(files::relative(f.path, root))
        } else {
            tests_of(fs.drop_last(), root)
        }
    }
}

/// `c` is what the commits and files yield.
pub open spec fn is_failure_evidence(
    c: FailuresCollection,
    evs: Seq<EventView>,
    ingested: Seq<Seq<char>>,
    fs: Seq<FileView>,
    root: Seq<char>,
) -> bool {
    &&& fix_views(c.fix_commits@) == text::at_most(
        fixes_of(git_collector::fresh(evs, ingested)),
        MAX_FIX_COMMITS as int,
    )
    &&& changelog_views(c.changelog_fixed@) == logs_of(fs, root)
    &&& text::texts(c.error_test_files@) == text::at_most(
        tests_of(fs, root),
        MAX_ERROR_TEST_FILES as int,
    )
}

/// The commits of a history; none where it is unavailable.
pub open spec fn history(events: Option<&Vec<CommitEvent>>) -> Seq<EventView> {
    match events {
        Some(v) => git_collector::commit_views(v@),
        None => Seq::empty(),
    }
}

/// Whether the text of a file is wanted.
pub fn wants_text(path: &str) -> (r: bool)
    ensures
        r == (files::base_name(path@) == "CHANGELOG.md"@),
{
    text::same(files::file_name(path).as_str(), "CHANGELOG.md")
}

fn collect_fixes(events: &Vec<CommitEvent>, opts: &CollectOptions) -> (r: Vec<FixCommit>)
    ensures
        fix_views(r@) == text::at_most(
            fixes_of(
                git_collector::fresh(
                    git_collector::commit_views(events@),
                    text::texts(opts.ingested_commit_hashes@),
                ),
            ),
            MAX_FIX_COMMITS as int,
        ),
{
    let ghost evs = git_collector::commit_views(events@);
    let ghost ingested = text::texts(opts.ingested_commit_hashes@);
    let ghost cap = MAX_FIX_COMMITS as int;
    let mut r: Vec<FixCommit> = Vec::new();
    let mut i: usize = 0;
    assert(evs.take(0) =~= Seq::empty());
    assert(fix_views(r@) =~= text::at_most(
        fixes_of(git_collector::fresh(evs.take(0), ingested)),
        cap,
    ));
    while i < events.len()
        invariant
            i <= events@.len(),
            cap == MAX_FIX_COMMITS,
            evs == git_collector::commit_views(events@),
            ingested == text::texts(opts.ingested_commit_hashes@),
            fix_views(r@) == text::at_most(
                fixes_of(git_collector::fresh(evs.take(i as int), ingested)),
                cap,
            ),
        decreases events@.len() - i,
    {
        let e = &events[i];
        assert(evs.take(i + 1).drop_last() =~= evs.take(i as int));
        assert(evs.take(i + 1).last() == e@);
        let ghost kept = git_collector::fresh(evs.take(i as int), ingested);
        let ghost found = fixes_of(kept);
        if !text::has_text(&opts.ingested_commit_hashes, e.commit_hash.as_str()) {
            assert(kept.push(e@).drop_last() =~= kept);
            if is_fix_message(e.message.as_str()) {
                if r.len() < MAX_FIX_COMMITS {
                    let ghost before = fix_views(r@);
                    r.push(
                        FixCommit {
                            hash: e.commit_hash.clone(),
                            message: e.message.clone(),
                            files: text::copy_list(&e.files_changed),
                            timestamp: e.timestamp,
                        },
                    );
                    assert(fix_views(r@) =~= before.push(e@));
                }
                proof {
                    text::at_most_push(found, e@, cap);
                }
            }
        }
        i = i + 1;
    }
    assert(evs.take(i as int) =~= evs);
    r
}

/// Collect evidence of failures from the commits, if there is a history, and from
/// the files that were walked.
pub fn collect(
    repo_path: &str,
    shared_events: Option<&Vec<CommitEvent>>,
    walked: Vec<WalkedFile>,
    opts: &CollectOptions,
) -> (r: FailuresCollection)
    ensures
        is_failure_evidence(
            r,
            history(shared_events),
            text::texts(opts.ingested_commit_hashes@),
            files::walked_views(walked@),
            repo_path@,
        ),
{
    let ghost ingested = text::texts(opts.ingested_commit_hashes@);
    let fix_commits = match shared_events {
        Some(events) => collect_fixes(events, opts),
        None => {
            let none: Vec<FixCommit> = Vec::new();
            assert(git_collector::fresh(Seq::empty(), ingested) =~= Seq::empty());
            assert(fix_views(none@) =~= text::at_most(
                fixes_of(Seq::empty()),
                MAX_FIX_COMMITS as int,
            ));
            none
        },
    };
    let ghost fs = files::walked_views(walked@);
    let ghost all = walked@;
    let ghost cap = MAX_ERROR_TEST_FILES as int;
    let mut rest = walked;
    let mut logs: Vec<ChangelogFixedEntry> = Vec::new();
    let mut tests: Vec<String> = Vec::new();
    let ghost mut done: int = 0;
    assert(all.skip(0) =~= all);
    assert(fs.take(0) =~= Seq::empty());
    assert(changelog_views(logs@) =~= logs_of(fs.take(0), repo_path@));
    assert(text::texts(tests@) =~= text::at_most(tests_of(fs.take(0), repo_path@), cap));
    while rest.len() > 0
        invariant
            0 <= done <= all.len(),
            fs == files::walked_views(all),
            cap == MAX_ERROR_TEST_FILES,
            rest@ == all.skip(done),
            changelog_views(logs@) == logs_of(fs.take(done), repo_path@),
            text::texts(tests@) == text::at_most(
                tests_of(fs.take(done), repo_path@),
                cap,
            ),
        decreases rest@.len(),
    {
        let f = rest.remove(0);
        proof {
            assert(f == all[done]);
            assert(fs.take(done + 1).drop_last() =~= fs.take(done));
            assert(fs.take(done + 1).last() == f@);
        }
        let ghost found = tests_of(fs.take(done), repo_path@);
        let name = files::file_name(f.path.as_str());
        let rel = files::relpath(f.path.as_str(), repo_path);
        if text::same(name.as_str(), "CHANGELOG.md") {
            match f.read {
                Some(bytes) => {
                    match files::whole_text(bytes) {
                        Some(log) => {
                            let mut more = parse_changelog_fixed(log.as_str(), rel.as_str());
                            let ghost before = changelog_views(logs@);
                            let ghost added = changelog_views(more@);
                            logs.append(&mut more);
                            assert(changelog_views(logs@) =~= before + added);
                        },
                        None => {},
                    }
                },
                None => {},
            }
        } else if looks_like_error_test(name.as_str()) {
            if tests.len() < MAX_ERROR_TEST_FILES {
                let ghost before = text::texts(tests@);
                let ghost added = rel@;
                tests.push(rel);
                assert(text::texts(tests@) =~= before.push(added));
            }
            proof {
                text::at_most_push(
                    found,
                    files::relative(f.path@, repo_path@),
                    cap,
                );
            }
        }
        proof {
            assert(rest@ =~= all.skip(done + 1));
            done = done + 1;
        }
    }
    assert(fs.take(done) =~= fs);
    FailuresCollection { fix_commits, changelog_fixed: logs, error_test_files: tests }
}

// ---------------------------------------------------------------------------
// Laws
// ---------------------------------------------------------------------------

/// The commits that describe a fix are all kept, in their order.
pub proof fn fixes_are_all_kept(evs: Seq<EventView>)
    ensures
        fixes_of(evs) == evs.filter(|e: EventView| is_fix(e.message)),
    decreases evs.len(),
{
    reveal(Seq::filter);
    if evs.len() > 0 {
        fixes_are_all_kept(evs.drop_last());
    }
}

/// A message describes a fix where its first line starts with one of these words, or one
/// of these words stands anywhere in it.
pub proof fn marks_of_a_fix(msg: Seq<char>)
    ensures
        is_fix(msg) <==> {
            let first = text::lowercase(text::trimmed(text::first_line(msg)));
            let lower = text::lowercase(msg);
            ||| text::starts_with(first, "fix"@) || text::starts_with(first, "hotfix"@)
            ||| text::starts_with(first, "revert"@)
            ||| text::contains(lower, "bug"@) || text::contains(lower, "patch"@)
            ||| text::contains(lower, "crash"@) || text::contains(lower, "regression"@)
            ||| text::contains(lower, "hotfix"@) || text::contains(lower, "broken"@)
            ||| text::contains(lower, "leak"@)
        },
{
    reveal_strlit("bug");
    reveal_strlit("bugfix");
    let lower = text::lowercase(msg);
    if text::contains(lower, "bugfix"@) {
        let i = choose|i: int| #[trigger] text::occurs_at(lower, "bugfix"@, i);
        assert(lower.subrange(i, i + 3) =~= lower.subrange(i, i + 6).subrange(0, 3));
        assert("bugfix"@.subrange(0, 3) =~= "bug"@);
        assert(text::occurs_at(lower, "bug"@, i));
    }
}

/// A list item below a heading of fixes is an entry under that heading, with its own line
/// number and the text behind the mark; other headings end the section.
pub proof fn items_under_fixes_are_entries(
    before: Seq<Seq<char>>,
    line: Seq<char>,
    path: Seq<char>,
    lower: spec_fn(Seq<char>) -> Seq<char>,
)
    ensures
        ({
            let s = changelog_read(before, path, lower);
            let t = changelog_read(before.push(line), path, lower);
            let said = text::trimmed(line);
            let heading = text::trimmed(text::trim_start_char(said, '#'));
            let item = text::trimmed(said.skip(2));
            let marked = text::starts_with(said, "- "@) || text::starts_with(said, "* "@)
                || text::starts_with(said, "+ "@);
            &&& said.len() > 0 && said[0] == '#' ==> t.entries == s.entries && (t.in_fixed <==> (
            text::contains(lower(heading), "fix"@) || text::contains(lower(heading), "bug"@))) && (
            t.in_fixed ==> t.section == heading)
            &&& !(said.len() > 0 && said[0] == '#') ==> t.in_fixed == s.in_fixed && t.section
                == s.section
            &&& !(said.len() > 0 && said[0] == '#') && s.in_fixed && marked && item.len() > 0
                ==> t.entries == s.entries.push(
                ChangelogView {
                    path,
                    section: s.section,
                    line_start: before.len() as int + 1,
                    entry: item,
                },
            )
            &&& (!s.in_fixed || !marked || item.len() == 0) ==> t.entries == s.entries
        }),
        !changelog_read(Seq::<Seq<char>>::empty(), path, lower).in_fixed,
        changelog_read(Seq::<Seq<char>>::empty(), path, lower).entries == Seq::<
            ChangelogView,
        >::empty(),
{
    reveal_strlit("- ");
    reveal_strlit("* ");
    reveal_strlit("+ ");
    assert(before.push(line).drop_last() =~= before);
}

/// A file is listed as a test of errors where its name looks like it, wherever it stands
/// among the files, and change logs are read in their order.
pub proof fn files_are_taken_one_by_one(fs: Seq<FileView>, f: FileView, root: Seq<char>)
    ensures
        tests_of(fs.push(f), root) == if files::base_name(f.path) != "CHANGELOG.md"@
            && error_test_name(text::lowercase(files::base_name(f.path))) {
            tests_of(fs, root).push(files::relative(f.path, root))
        } else {
            tests_of(fs, root)
        },
        logs_of(fs.push(f), root) == match files::text_read(f) {
            Some(log) => if files::base_name(f.path) == "CHANGELOG.md"@ {
                logs_of(fs, root) + changelog_entries(log, files::relative(f.path, root))
            } else {
                logs_of(fs, root)
            },
            None => logs_of(fs, root),
        },
        tests_of(Seq::<FileView>::empty(), root) == Seq::<Seq<char>>::empty(),
        logs_of(Seq::<FileView>::empty(), root) == Seq::<ChangelogView>::empty(),
{
    assert(fs.push(f).drop_last() =~= fs);
}

/// The evidence of failures lists the fixes that have not been ingested, the first hundred
/// of them, and the first thirty tests of errors.
pub proof fn failure_evidence_is_complete(
    c: FailuresCollection,
    evs: Seq<EventView>,
    ingested: Seq<Seq<char>>,
    fs: Seq<FileView>,
    root: Seq<char>,
)
    requires
        is_failure_evidence(c, evs, ingested, fs, root),
    ensures
        ({
            let fixes = evs.filter(|e: EventView| !ingested.contains(e.hash)).filter(
                |e: EventView| is_fix(e.message),
            );
            &&& c.fix_commits@.len() == if fixes.len() <= 100 {
                fixes.len()
            } else {
                100
            }
            &&& forall|i: int|
                0 <= i < c.fix_commits@.len() ==> (#[trigger] c.fix_commits@[i]).hash@
                    == fixes[i].hash && c.fix_commits@[i].message@ == fixes[i].message
        }),
        c.error_test_files@.len() <= 30,
        tests_of(fs, root).len() <= 30 ==> c.error_test_files@.len() == tests_of(fs, root).len(),
        c.changelog_fixed@.len() == logs_of(fs, root).len(),
{
    git_collector::fresh_commits_are_all_kept(evs, ingested);
    let kept = git_collector::fresh(evs, ingested);
    fixes_are_all_kept(kept);
    let fixes = fixes_of(kept);
    let seen = fix_views(c.fix_commits@);
    text::the_first_few(fixes, 100);
    text::the_first_few(tests_of(fs, root), 30);
    assert(seen.len() == c.fix_commits@.len());
    assert(text::texts(c.error_test_files@).len() == c.error_test_files@.len());
    assert(changelog_views(c.changelog_fixed@).len() == c.changelog_fixed@.len());
    assert forall|i: int| 0 <= i < c.fix_commits@.len() implies (
    #[trigger] c.fix_commits@[i]).hash@ == fixes[i].hash && c.fix_commits@[i].message@
        == fixes[i].message by {
        assert(seen[i] == c.fix_commits@[i]@);
        assert(seen[i] == fixes[i]);
    }
}

/// A test of errors is told by a mark of a test and a mark of an error in its name, in any
/// combination.
pub proof fn marks_of_an_error_test(lower: Seq<char>)
    ensures
        error_test_name(lower) <==> {
            &&& text::starts_with(lower, "test"@) || text::contains(lower, "_test"@)
                || text::ends_with(lower, "test.rs"@)
            &&& text::contains(lower, "error"@) || text::contains(lower, "panic"@)
                || text::contains(lower, "edge"@) || text::contains(lower, "fuzz"@)
                || text::contains(lower, "fail"@)
        },
{
}

} // verus!
