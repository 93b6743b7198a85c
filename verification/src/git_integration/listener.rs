use crate::collectors::git_collector;
use crate::collectors::git_collector::{GitMilestone, MilestoneView};
use crate::models::EpisodicMemory;
use crate::text;
use vstd::prelude::*;

verus! {

/// A commit event extracted from git history.
#[derive(Clone, Debug)]
pub struct CommitEvent {
    pub commit_hash: String,
    pub message: String,
    pub files_changed: Vec<String>,
    pub timestamp: i64,
}

/// A commit as a mathematical value.
pub struct EventView {
    pub hash: Seq<char>,
    pub message: Seq<char>,
    pub files: Seq<Seq<char>>,
    pub timestamp: int,
}

impl View for CommitEvent {
    type V = EventView;

    open spec fn view(&self) -> EventView {
        EventView {
            hash: self.commit_hash@,
            message: self.message@,
            files: text::texts(self.files_changed@),
            timestamp: self.timestamp as int,
        }
    }
}

// ---------------------------------------------------------------------------
// Words of a message
// ---------------------------------------------------------------------------

/// A whole word of a text.
pub open spec fn says(lower: Seq<char>, word: Seq<char>) -> bool {
    text::word_from(lower, word, 0)
}

/// Whole-word containment on a lowercased text.
pub fn has_word(haystack_lower: &str, word: &str) -> (r: bool)
    requires
        word@.len() > 0,
    ensures
        r == says(haystack_lower@, word@),
{
    text::find_word(haystack_lower, word)
}

/// A list of one text, or of none.
pub open spec fn only_if(b: bool, tag: Seq<char>) -> Seq<Seq<char>> {
    if b {
        seq![tag]
    } else {
        Seq::empty()
    }
}

/// The tags that a lowercased message earns.
pub open spec fn tags_in(lower: Seq<char>) -> Seq<Seq<char>> {
    only_if(says(lower, "fix"@) || says(lower, "bug"@), "bugfix"@)
        + only_if(says(lower, "feat"@) || says(lower, "feature"@), "feature"@)
        + only_if(says(lower, "refactor"@), "refactor"@)
        + only_if(says(lower, "perf"@) || says(lower, "performance"@), "performance"@)
        + only_if(says(lower, "security"@) || says(lower, "cve"@), "security"@)
        + only_if(says(lower, "doc"@) || says(lower, "docs"@), "docs"@)
        + only_if(says(lower, "test"@), "test"@)
        + only_if(says(lower, "deploy"@) || says(lower, "release"@), "deployment"@)
}

fn add_if(tags: &mut Vec<String>, b: bool, tag: &str)
    ensures
        text::texts(final(tags)@) == text::texts(old(tags)@) + only_if(b, tag@),
{
    let ghost before = text::texts(tags@);
    if b {
        tags.push(tag.to_owned());
        assert(text::texts(tags@) =~= before + only_if(b, tag@));
    } else {
        assert(text::texts(tags@) =~= before + only_if(b, tag@));
    }
}

/// The tags of a message that is in lower case already.
pub fn tags_of_lowered(lower: &str) -> (r: Vec<String>)
    ensures
        text::texts(r@) == tags_in(lower@),
{
    proof {
        reveal_strlit("bug");
        reveal_strlit("cve");
        reveal_strlit("deploy");
        reveal_strlit("doc");
        reveal_strlit("docs");
        reveal_strlit("feat");
        reveal_strlit("feature");
        reveal_strlit("fix");
        reveal_strlit("perf");
        reveal_strlit("performance");
        reveal_strlit("refactor");
        reveal_strlit("release");
        reveal_strlit("security");
        reveal_strlit("test");
    }
    let mut tags: Vec<String> = Vec::new();
    add_if(&mut tags, has_word(lower, "fix") || has_word(lower, "bug"), "bugfix");
    assert(text::texts(tags@) =~= only_if(says(lower@, "fix"@) || says(lower@, "bug"@), "bugfix"@));
    add_if(&mut tags, has_word(lower, "feat") || has_word(lower, "feature"), "feature");
    add_if(&mut tags, has_word(lower, "refactor"), "refactor");
    add_if(&mut tags, has_word(lower, "perf") || has_word(lower, "performance"), "performance");
    add_if(&mut tags, has_word(lower, "security") || has_word(lower, "cve"), "security");
    add_if(&mut tags, has_word(lower, "doc") || has_word(lower, "docs"), "docs");
    add_if(&mut tags, has_word(lower, "test"), "test");
    add_if(&mut tags, has_word(lower, "deploy") || has_word(lower, "release"), "deployment");
    tags
}

/// Extract tags from a commit message.
pub fn extract_tags(message: &str) -> (r: Vec<String>)
    ensures
        text::texts(r@) == tags_in(text::lowercase(message@)),
        text::is_plain(message@) ==> text::texts(r@) == tags_in(text::ascii_lowered(message@)),
{
    tags_of_lowered(text::to_lowercase(message).as_str())
}

/// The importance of a lowercased message, in hundredths: the highest of the scores
/// that its words earn.
pub open spec fn importance_in(lower: Seq<char>) -> int {
    if text::contains(lower, "breaking"@) || says(lower, "migration"@) {
        90
    } else if says(lower, "fix"@) || says(lower, "bug"@) || says(lower, "patch"@) {
        70
    } else if says(lower, "refactor"@) || says(lower, "rewrite"@) {
        60
    } else if says(lower, "test"@) {
        40
    } else {
        30
    }
}

/// The importance of a message that is in lower case already, in hundredths.
pub fn importance_of_lowered(lower: &str) -> (r: u32)
    ensures
        r == importance_in(lower@),
{
    proof {
        reveal_strlit("migration");
        reveal_strlit("fix");
        reveal_strlit("bug");
        reveal_strlit("patch");
        reveal_strlit("refactor");
        reveal_strlit("rewrite");
        reveal_strlit("docs");
        reveal_strlit("comment");
        reveal_strlit("test");
    }
    let mut max: u32 = 30;
    if has_word(lower, "fix") || has_word(lower, "bug") || has_word(lower, "patch") {
        max = higher(max, 70);
    }
    if has_word(lower, "refactor") || has_word(lower, "rewrite") {
        max = higher(max, 60);
    }
    if text::has_substring(lower, "breaking") || has_word(lower, "migration") {
        max = higher(max, 90);
    }
    if has_word(lower, "docs") || has_word(lower, "comment") {
        max = higher(max, 20);
    }
    if has_word(lower, "test") {
        max = higher(max, 40);
    }
    max
}

fn higher(a: u32, b: u32) -> (r: u32)
    ensures
        r == vstd::math::max(a as int, b as int),
{
    if a < b {
        b
    } else {
        a
    }
}

/// Estimate the importance of a commit by the words of its message, in hundredths.
pub fn estimate_importance(message: &str) -> (r: u32)
    ensures
        r == importance_in(text::lowercase(message@)),
        text::is_plain(message@) ==> r == importance_in(text::ascii_lowered(message@)),
{
    importance_of_lowered(text::to_lowercase(message).as_str())
}

/// Importance by milestone type, in hundredths.
pub open spec fn theme_importance(commit_type: Seq<char>, has_breaking: bool) -> int {
    if has_breaking {
        90
    } else if commit_type == "feat"@ || commit_type == "fix"@ {
        70
    } else if commit_type == "perf"@ || commit_type == "refactor"@ {
        60
    } else if commit_type == "docs"@ {
        30
    } else {
        40
    }
}

pub fn milestone_importance(commit_type: &str, has_breaking: bool) -> (r: u32)
    ensures
        r == theme_importance(commit_type@, has_breaking),
{
    if has_breaking {
        90
    } else if text::same(commit_type, "feat") || text::same(commit_type, "fix") {
        70
    } else if text::same(commit_type, "perf") || text::same(commit_type, "refactor") {
        60
    } else if text::same(commit_type, "docs") {
        30
    } else {
        40
    }
}

/// The bits of the 32-bit IEEE 754 number nearest to one of the scores in use.
pub open spec fn score_bits(hundredths: int) -> u32 {
    if hundredths == 30 {
        0x3e99_999a
    } else if hundredths == 40 {
        0x3ecc_cccd
    } else if hundredths == 60 {
        0x3f19_999a
    } else if hundredths == 70 {
        0x3f33_3333
    } else {
        0x3f66_6666
    }
}

fn bits_of(hundredths: u32) -> (r: u32)
    requires
        hundredths == 30 || hundredths == 40 || hundredths == 60 || hundredths == 70
            || hundredths == 90,
    ensures
        r == score_bits(hundredths as int),
{
    match hundredths {
        30 => 0x3e99_999a,
        40 => 0x3ecc_cccd,
        60 => 0x3f19_999a,
        70 => 0x3f33_3333,
        _ => 0x3f66_6666,
    }
}

/// A list with a path added, unless the path is empty or in it already.
pub open spec fn with_path(files: Seq<Seq<char>>, path: Seq<char>) -> Seq<Seq<char>> {
    if path.len() == 0 || files.contains(path) {
        files
    } else {
        files.push(path)
    }
}

/// Push a non-empty path into `files`, de-duplicating.
pub fn push_path(files: &mut Vec<String>, path: &str)
    ensures
        text::texts(final(files)@) == with_path(text::texts(old(files)@), path@),
{
    let ghost before = text::texts(files@);
    if !path.is_empty() && !text::has_text(files, path) {
        files.push(path.to_owned());
        assert(text::texts(files@) =~= before.push(path@));
    }
}

// ---------------------------------------------------------------------------
// Memories
// ---------------------------------------------------------------------------

/// `m` is the memory of one commit.
pub open spec fn is_commit_memory(m: EpisodicMemory, e: EventView, lower: Seq<char>) -> bool {
    &&& m.summary@ == text::first_line(e.message)
    &&& m.content@ == e.message
    &&& text::texts(m.files_touched@) == e.files
    &&& text::texts(m.related_commits@) == seq![e.hash]
    &&& m.importance == score_bits(importance_in(lower))
    &&& text::texts(m.tags@) == tags_in(lower).push("source:ingest"@)
}

/// `m` belongs to a project and a session and was made now.
pub open spec fn is_filed(
    m: EpisodicMemory,
    id: Seq<char>,
    project_id: Seq<char>,
    session_id: Seq<char>,
    now: i64,
) -> bool {
    &&& m.id@ == id
    &&& m.project_id@ == project_id
    &&& m.session_id@ == session_id
    &&& m.created_at == now
    &&& m.updated_at == now
}

/// Make an episodic memory of a commit event.
pub fn auto_generate_episodic(
    event: &CommitEvent,
    project_id: &str,
    session_id: &str,
    id: String,
    now: i64,
) -> (r: EpisodicMemory)
    ensures
        is_filed(r, id@, project_id@, session_id@, now),
        is_commit_memory(r, event@, text::lowercase(event@.message)),
        text::is_plain(event@.message) ==> is_commit_memory(
            r,
            event@,
            text::ascii_lowered(event@.message),
        ),
{
    let mut tags = extract_tags(event.message.as_str());
    let ghost found = text::texts(tags@);
    tags.push("source:ingest".to_owned());
    assert(text::texts(tags@) =~= found.push("source:ingest"@));
    let mut commits: Vec<String> = Vec::new();
    commits.push(event.commit_hash.clone());
    assert(text::texts(commits@) =~= seq![event@.hash]);
    let score: u32 = estimate_importance(event.message.as_str());
    EpisodicMemory {
        id,
        project_id: project_id.to_owned(),
        session_id: session_id.to_owned(),
        summary: text::head_line(event.message.as_str()),
        content: event.message.clone(),
        files_touched: text::copy_list(&event.files_changed),
        related_commits: commits,
        importance: bits_of(score),
        tags,
        created_at: now,
        updated_at: now,
    }
}

/// The most subjects that the memory of a milestone lists.
pub const MAX_SUBJECTS: usize = 30;

/// The longest summary of a milestone, in characters.
pub const MAX_SUMMARY: usize = 200;

pub open spec fn hashes_of(evs: Seq<EventView>) -> Seq<Seq<char>> {
    Seq::new(evs.len(), |i: int| evs[i].hash)
}

pub open spec fn subject_lines(evs: Seq<EventView>) -> Seq<Seq<char>> {
    Seq::new(evs.len(), |i: int| text::trimmed(text::first_line(evs[i].message)))
}

/// The subjects of the commits that have one, the first few of them.
pub open spec fn subjects_of(evs: Seq<EventView>) -> Seq<Seq<char>> {
    text::at_most(text::non_empty(subject_lines(evs)), MAX_SUBJECTS as int)
}

pub open spec fn milestone_files(evs: Seq<EventView>) -> Seq<Seq<char>> {
    text::at_most(
        text::first_seen(git_collector::all_files(evs)),
        git_collector::MAX_FILES as int,
    )
}

pub open spec fn milestone_summary(m: MilestoneView) -> Seq<char> {
    let subjects = subjects_of(m.commits);
    let first = if subjects.len() == 0 {
        Seq::empty()
    } else {
        subjects[0]
    };
    text::first_chars(
        m.theme + ": "@ + text::decimal(m.commit_count as nat) + " commits — "@ + first,
        MAX_SUMMARY as int,
    )
}

/// The subjects as lines of a list.
pub open spec fn bulleted(lines: Seq<Seq<char>>) -> Seq<char>
    decreases lines.len(),
{
    if lines.len() == 0 {
        Seq::empty()
    } else {
        bulleted(lines.drop_last()) + "\n- "@ + lines.last()
    }
}

pub open spec fn milestone_content(m: MilestoneView) -> Seq<char> {
    "Milestone "@ + m.theme + " ("@ + text::decimal(m.commit_count as nat)
        + " commit(s), first "@ + text::signed_decimal(m.first_ts) + " last "@
        + text::signed_decimal(m.last_ts) + ")"@ + (if m.has_breaking {
        " [BREAKING]"@
    } else {
        ""@
    }) + "\n\nFiles: "@ + text::joined(milestone_files(m.commits), ", "@) + bulleted(
        subjects_of(m.commits),
    )
}

pub open spec fn milestone_tags(m: MilestoneView) -> Seq<Seq<char>> {
    let scope = match m.scope {
        Some(s) => if s.len() > 0 {
            seq![s]
        } else {
            Seq::empty()
        },
        None => Seq::empty(),
    };
    (seq![m.commit_type] + scope).push("source:ingest"@)
}

/// `r` is the memory of a milestone.
pub open spec fn is_milestone_memory(r: EpisodicMemory, m: MilestoneView) -> bool {
    &&& r.summary@ == milestone_summary(m)
    &&& r.content@ == milestone_content(m)
    &&& text::texts(r.files_touched@) == milestone_files(m.commits)
    &&& text::texts(r.related_commits@) == hashes_of(m.commits)
    &&& r.importance == score_bits(theme_importance(m.commit_type, m.has_breaking))
    &&& text::texts(r.tags@) == milestone_tags(m)
}

/// Make the memory of a milestone.
fn milestone_memory(
    m: &GitMilestone,
    project_id: &str,
    session_id: &str,
    id: String,
    now: i64,
) -> (r: EpisodicMemory)
    ensures
        is_filed(r, id@, project_id@, session_id@, now),
        is_milestone_memory(r, m@),
{
    let ghost evs = m@.commits;
    let mut hashes: Vec<String> = Vec::new();
    let mut files: Vec<String> = Vec::new();
    let mut subjects: Vec<String> = Vec::new();
    let mut i: usize = 0;
    assert(evs.take(0) =~= Seq::empty());
    assert(text::texts(hashes@) =~= hashes_of(evs.take(0)));
    assert(text::texts(files@) =~= milestone_files(evs.take(0)));
    assert(text::texts(subjects@) =~= subjects_of(evs.take(0)));
    while i < m.commits.len()
        invariant
            i <= m.commits@.len(),
            evs == git_collector::ref_views(m.commits@),
            text::texts(hashes@) == hashes_of(evs.take(i as int)),
            text::texts(files@) == milestone_files(evs.take(i as int)),
            text::texts(subjects@) == subjects_of(evs.take(i as int)),
        decreases m.commits@.len() - i,
    {
        let c = &m.commits[i];
        let ghost before = evs.take(i as int);
        let ghost after = evs.take(i + 1);
        assert(after.drop_last() =~= before);
        assert(after =~= before.push(c@));
        let ghost seen = text::texts(hashes@);
        hashes.push(c.hash.clone());
        assert(text::texts(hashes@) =~= seen.push(c@.hash));
        assert(hashes_of(after) =~= hashes_of(before).push(c@.hash));
        let ghost start = git_collector::all_files(before);
        let ghost more = c@.files;
        let mut k: usize = 0;
        assert(start + more.take(0) =~= start);
        while k < c.files.len()
            invariant
                k <= c.files@.len(),
                more == text::texts(c.files@),
                text::texts(files@) == text::at_most(
                    text::first_seen(start + more.take(k as int)),
                    git_collector::MAX_FILES as int,
                ),
            decreases c.files@.len() - k,
        {
            git_collector::add_file(
                &mut files,
                c.files[k].as_str(),
                Ghost(start + more.take(k as int)),
            );
            k = k + 1;
            assert(start + more.take(k as int) =~= (start + more.take(k - 1)).push(more[k - 1]));
        }
        assert(more.take(k as int) =~= more);
        let line = text::trim(text::head_line(c.message.as_str()).as_str());
        proof {
            assert(subject_lines(after).drop_last() =~= subject_lines(before));
            assert(subject_lines(after).last() == line@);
        }
        let ghost told = text::non_empty(subject_lines(before));
        let ghost listed = text::texts(subjects@);
        let ghost added = line@;
        if !line.as_str().is_empty() && subjects.len() < MAX_SUBJECTS {
            subjects.push(line);
            assert(text::texts(subjects@) =~= listed.push(added));
        }
        proof {
            let now_told = text::non_empty(subject_lines(after));
            if told.len() < MAX_SUBJECTS {
                assert(text::texts(subjects@) =~= text::at_most(
                    now_told,
                    MAX_SUBJECTS as int,
                ));
            } else {
                assert(told.take(MAX_SUBJECTS as int) =~= now_told.take(MAX_SUBJECTS as int));
                assert(told.len() == MAX_SUBJECTS ==> told.take(MAX_SUBJECTS as int) =~= told);
                assert(now_told.len() == MAX_SUBJECTS ==> now_told =~= told);
                assert(text::texts(subjects@) =~= text::at_most(
                    now_told,
                    MAX_SUBJECTS as int,
                ));
            }
        }
        i = i + 1;
    }
    assert(evs.take(i as int) =~= evs);
    let mut summary = m.theme.clone();
    summary.append(": ");
    summary.append(text::decimal_of(m.commit_count as u64).as_str());
    summary.append(" commits — ");
    if subjects.len() > 0 {
        summary.append(subjects[0].as_str());
        assert(subjects@[0]@ == text::texts(subjects@)[0]);
    } else {
        assert(summary@ + Seq::<char>::empty() =~= summary@);
    }
    let mut content = "Milestone ".to_owned();
    content.append(m.theme.as_str());
    content.append(" (");
    content.append(text::decimal_of(m.commit_count as u64).as_str());
    content.append(" commit(s), first ");
    content.append(text::signed_decimal_of(m.first_ts).as_str());
    content.append(" last ");
    content.append(text::signed_decimal_of(m.last_ts).as_str());
    content.append(")");
    if m.has_breaking {
        content.append(" [BREAKING]");
    } else {
        content.append("");
    }
    content.append("\n\nFiles: ");
    content.append(text::join(&files, ", ").as_str());
    content.append(bullets(&subjects).as_str());
    let mut tags: Vec<String> = Vec::new();
    tags.push(m.commit_type.clone());
    assert(text::texts(tags@) =~= seq![m@.commit_type]);
    match &m.scope {
        Some(s) => {
            if !s.as_str().is_empty() {
                tags.push(s.clone());
                assert(text::texts(tags@) =~= seq![m@.commit_type] + seq![s@]);
            } else {
                assert(text::texts(tags@) =~= seq![m@.commit_type] + Seq::<Seq<char>>::empty());
            }
        },
        None => {
            assert(text::texts(tags@) =~= seq![m@.commit_type] + Seq::<Seq<char>>::empty());
        },
    }
    let ghost listed = text::texts(tags@);
    tags.push("source:ingest".to_owned());
    assert(text::texts(tags@) =~= listed.push("source:ingest"@));
    let score: u32 = milestone_importance(m.commit_type.as_str(), m.has_breaking);
    EpisodicMemory {
        id,
        project_id: project_id.to_owned(),
        session_id: session_id.to_owned(),
        summary: text::head(summary.as_str(), MAX_SUMMARY),
        content,
        files_touched: files,
        related_commits: hashes,
        importance: bits_of(score),
        tags,
        created_at: now,
        updated_at: now,
    }
}

fn bullets(lines: &Vec<String>) -> (r: String)
    ensures
        r@ == bulleted(text::texts(lines@)),
{
    let ghost all = text::texts(lines@);
    let mut s = String::new();
    let mut i: usize = 0;
    assert(all.take(0) =~= Seq::empty());
    while i < lines.len()
        invariant
            i <= lines@.len(),
            all == text::texts(lines@),
            s@ == bulleted(all.take(i as int)),
        decreases lines@.len() - i,
    {
        assert(all.take(i + 1).drop_last() =~= all.take(i as int));
        s.append("\n- ");
        s.append(lines[i].as_str());
        i = i + 1;
    }
    assert(all.take(i as int) =~= all);
    s
}

/// The milestones that a list of commits is turned into memories by: those of all
/// commits, none of them left out of its milestone.
pub open spec fn ingested_milestones(evs: Seq<EventView>) -> Seq<MilestoneView> {
    git_collector::clustered(evs, usize::MAX as int)
}

/// Distill commit events into one episodic memory per milestone. `ids` holds a fresh
/// id for every memory, at least as many as there are events.
pub fn milestone_memories(
    project_id: &str,
    session_id: &str,
    events: &Vec<CommitEvent>,
    ids: &Vec<String>,
    now: i64,
) -> (r: Vec<EpisodicMemory>)
    requires
        ids@.len() >= events@.len(),
    ensures
        ({
            let ms = ingested_milestones(git_collector::commit_views(events@));
            &&& r@.len() == ms.len()
            &&& r@.len() <= events@.len()
            &&& forall|i: int|
                0 <= i < r@.len() ==> is_milestone_memory(#[trigger] r@[i], ms[i]) && is_filed(
                    r@[i],
                    ids@[i]@,
                    project_id@,
                    session_id@,
                    now,
                )
        }),
{
    let mut refs: Vec<&CommitEvent> = Vec::new();
    let mut i: usize = 0;
    let ghost evs = git_collector::commit_views(events@);
    while i < events.len()
        invariant
            i <= events@.len(),
            evs == git_collector::commit_views(events@),
            git_collector::event_views(refs@) == evs.take(i as int),
        decreases events@.len() - i,
    {
        let ghost before = git_collector::event_views(refs@);
        refs.push(&events[i]);
        assert(git_collector::event_views(refs@) =~= before.push(evs[i as int]));
        i = i + 1;
        assert(evs.take(i as int) =~= evs.take(i - 1).push(evs[i - 1]));
    }
    assert(evs.take(i as int) =~= evs);
    let milestones = git_collector::cluster_by_theme(refs.as_slice(), usize::MAX);
    let ghost ms = ingested_milestones(evs);
    proof {
        git_collector::no_more_milestones_than_commits(evs, usize::MAX as int);
        assert(git_collector::milestone_views(milestones@).len() == milestones@.len());
    }
    let mut r: Vec<EpisodicMemory> = Vec::new();
    let mut k: usize = 0;
    while k < milestones.len()
        invariant
            k <= milestones@.len(),
            ms == git_collector::milestone_views(milestones@),
            milestones@.len() <= events@.len() <= ids@.len(),
            r@.len() == k,
            forall|i: int|
                0 <= i < r@.len() ==> is_milestone_memory(#[trigger] r@[i], ms[i]) && is_filed(
                    r@[i],
                    ids@[i]@,
                    project_id@,
                    session_id@,
                    now,
                ),
        decreases milestones@.len() - k,
    {
        let m = milestone_memory(&milestones[k], project_id, session_id, ids[k].clone(), now);
        assert(ms[k as int] == milestones@[k as int]@);
        r.push(m);
        k = k + 1;
    }
    r
}

/// The hashes that the memories of milestones record.
pub open spec fn recorded_hashes(ms: Seq<MilestoneView>) -> Seq<Seq<char>>
    decreases ms.len(),
{
    if ms.len() == 0 {
        Seq::empty()
    } else {
        recorded_hashes(ms.drop_last()) + hashes_of(ms.last().commits)
    }
}

proof fn recorded_holds(ms: Seq<MilestoneView>, k: int, e: EventView)
    requires
        0 <= k < ms.len(),
        ms[k].commits.contains(e),
    ensures
        recorded_hashes(ms).contains(e.hash),
    decreases ms.len(),
{
    let before = recorded_hashes(ms.drop_last());
    let last = hashes_of(ms.last().commits);
    if k < ms.len() - 1 {
        recorded_holds(ms.drop_last(), k, e);
        let j = before.index_of(e.hash);
        assert(recorded_hashes(ms)[j] == e.hash);
    } else {
        let j = ms[k].commits.index_of(e);
        assert(last[j] == e.hash);
        assert(recorded_hashes(ms)[before.len() + j] == e.hash);
    }
}

/// Ingesting the same commits again, once the memories of their milestones are stored,
/// finds nothing new: the memories record every hash.
pub proof fn ingesting_milestones_again_finds_nothing(evs: Seq<EventView>)
    requires
        evs.len() <= usize::MAX,
    ensures
        git_collector::fresh(evs, recorded_hashes(ingested_milestones(evs))) == Seq::<
            EventView,
        >::empty(),
{
    let ms = ingested_milestones(evs);
    assert forall|i: int| 0 <= i < evs.len() implies recorded_hashes(ms).contains(
        (#[trigger] evs[i]).hash,
    ) by {
        git_collector::milestones_hold_every_commit(evs, usize::MAX as int, i);
        let k = choose|k: int| 0 <= k < ms.len() && (#[trigger] ms[k]).commits.contains(evs[i]);
        recorded_holds(ms, k, evs[i]);
    }
    git_collector::nothing_fresh_after_ingest(evs, recorded_hashes(ms));
}

/// Make one episodic memory of each of a list of commits. `ids` holds a fresh id for
/// every commit.
pub fn process_recent_commits(
    project_id: &str,
    session_id: &str,
    events: &Vec<CommitEvent>,
    ids: &Vec<String>,
    now: i64,
) -> (r: Vec<EpisodicMemory>)
    requires
        ids@.len() >= events@.len(),
    ensures
        r@.len() == events@.len(),
        forall|i: int|
            0 <= i < r@.len() ==> is_filed(
                #[trigger] r@[i],
                ids@[i]@,
                project_id@,
                session_id@,
                now,
            ) && is_commit_memory(r@[i], events@[i]@, text::lowercase(events@[i]@.message)) && (
            text::is_plain(events@[i]@.message) ==> is_commit_memory(
                r@[i],
                events@[i]@,
                text::ascii_lowered(events@[i]@.message),
            )),
{
    let mut r: Vec<EpisodicMemory> = Vec::new();
    let mut k: usize = 0;
    while k < events.len()
        invariant
            k <= events@.len() <= ids@.len(),
            r@.len() == k,
            forall|i: int|
                0 <= i < r@.len() ==> is_filed(
                    #[trigger] r@[i],
                    ids@[i]@,
                    project_id@,
                    session_id@,
                    now,
                ) && is_commit_memory(r@[i], events@[i]@, text::lowercase(events@[i]@.message)) && (
                text::is_plain(events@[i]@.message) ==> is_commit_memory(
                    r@[i],
                    events@[i]@,
                    text::ascii_lowered(events@[i]@.message),
                )),
        decreases events@.len() - k,
    {
        let m = auto_generate_episodic(&events[k], project_id, session_id, ids[k].clone(), now);
        r.push(m);
        k = k + 1;
    }
    r
}

// ---------------------------------------------------------------------------
// What memories of commits hold
// ---------------------------------------------------------------------------

/// The memory of a commit holds the whole message, its first line as the summary, every
/// file, and the commit's own hash and no other.
pub proof fn commit_memories_hold_their_commit(m: EpisodicMemory, e: EventView, lower: Seq<char>)
    requires
        is_commit_memory(m, e, lower),
    ensures
        m.content@ == e.message,
        m.summary@ == text::first_line(e.message),
        m.related_commits@.len() == 1,
        m.related_commits@[0]@ == e.hash,
        m.files_touched@.len() == e.files.len(),
        forall|i: int|
            0 <= i < e.files.len() ==> (#[trigger] m.files_touched@[i])@ == e.files[i],
        m.tags@.len() > 0,
        m.tags@.last()@ == "source:ingest"@,
{
    let hashes = text::texts(m.related_commits@);
    let files = text::texts(m.files_touched@);
    let tags = text::texts(m.tags@);
    assert(hashes.len() == m.related_commits@.len());
    assert(hashes[0] == m.related_commits@[0]@);
    assert(files.len() == m.files_touched@.len());
    assert forall|i: int| 0 <= i < e.files.len() implies (#[trigger] m.files_touched@[i])@
        == e.files[i] by {
        assert(files[i] == m.files_touched@[i]@);
    }
    assert(tags.len() == m.tags@.len());
    assert(tags[tags.len() - 1] == m.tags@.last()@);
}

/// The memory of a milestone records the hash of every commit that the milestone lists, in
/// order.
pub proof fn milestone_memories_record_their_commits(r: EpisodicMemory, m: MilestoneView)
    requires
        is_milestone_memory(r, m),
    ensures
        r.related_commits@.len() == m.commits.len(),
        forall|i: int|
            0 <= i < m.commits.len() ==> (#[trigger] r.related_commits@[i])@ == m.commits[i].hash,
        r.tags@.len() >= 2,
        r.tags@[0]@ == m.commit_type,
        r.tags@.last()@ == "source:ingest"@,
{
    let hashes = text::texts(r.related_commits@);
    let tags = text::texts(r.tags@);
    assert(hashes.len() == r.related_commits@.len());
    assert forall|i: int| 0 <= i < m.commits.len() implies (#[trigger] r.related_commits@[i])@
        == m.commits[i].hash by {
        assert(hashes[i] == r.related_commits@[i]@);
    }
    assert(tags.len() == r.tags@.len());
    assert(tags[0] == r.tags@[0]@);
    assert(tags[tags.len() - 1] == r.tags@.last()@);
}

/// A memory is filed under the id, the project and the session given, at the time given.
pub proof fn memories_are_filed_where_asked(
    m: EpisodicMemory,
    id: Seq<char>,
    project_id: Seq<char>,
    session_id: Seq<char>,
    now: i64,
)
    requires
        is_filed(m, id, project_id, session_id, now),
    ensures
        m.id@ == id,
        m.project_id@ == project_id,
        m.session_id@ == session_id,
        m.created_at == now,
        m.updated_at == now,
{
}

/// A tag is earned by any one of its words, standing as a word of its own.
pub proof fn words_earn_tags(lower: Seq<char>)
    ensures
        tags_in(lower).contains("bugfix"@) <==> text::word_from(lower, "fix"@, 0)
            || text::word_from(lower, "bug"@, 0),
        tags_in(lower).contains("feature"@) <==> text::word_from(lower, "feat"@, 0)
            || text::word_from(lower, "feature"@, 0),
        tags_in(lower).contains("refactor"@) <==> text::word_from(lower, "refactor"@, 0),
        tags_in(lower).contains("performance"@) <==> text::word_from(lower, "perf"@, 0)
            || text::word_from(lower, "performance"@, 0),
        tags_in(lower).contains("security"@) <==> text::word_from(lower, "security"@, 0)
            || text::word_from(lower, "cve"@, 0),
        tags_in(lower).contains("docs"@) <==> text::word_from(lower, "doc"@, 0)
            || text::word_from(lower, "docs"@, 0),
        tags_in(lower).contains("test"@) <==> text::word_from(lower, "test"@, 0),
        tags_in(lower).contains("deployment"@) <==> text::word_from(lower, "deploy"@, 0)
            || text::word_from(lower, "release"@, 0),
{
    reveal_strlit("bugfix");
    reveal_strlit("feature");
    reveal_strlit("refactor");
    reveal_strlit("performance");
    reveal_strlit("security");
    reveal_strlit("docs");
    reveal_strlit("test");
    reveal_strlit("deployment");
    assert("bugfix"@[0] == 'b' && "feature"@[0] == 'f' && "refactor"@[0] == 'r');
    assert("performance"@[0] == 'p' && "security"@[0] == 's' && "test"@[0] == 't');
    assert("docs"@.len() == 4 && "deployment"@.len() == 10 && "docs"@[0] == 'd');
    assert("deployment"@[0] == 'd');
    tag_members(lower, "bugfix"@);
    tag_members(lower, "feature"@);
    tag_members(lower, "refactor"@);
    tag_members(lower, "performance"@);
    tag_members(lower, "security"@);
    tag_members(lower, "docs"@);
    tag_members(lower, "test"@);
    tag_members(lower, "deployment"@);
}

proof fn tag_members(lower: Seq<char>, x: Seq<char>)
    ensures
        tags_in(lower).contains(x) <==> {
            ||| (says(lower, "fix"@) || says(lower, "bug"@)) && x == "bugfix"@
            ||| (says(lower, "feat"@) || says(lower, "feature"@)) && x == "feature"@
            ||| says(lower, "refactor"@) && x == "refactor"@
            ||| (says(lower, "perf"@) || says(lower, "performance"@)) && x == "performance"@
            ||| (says(lower, "security"@) || says(lower, "cve"@)) && x == "security"@
            ||| (says(lower, "doc"@) || says(lower, "docs"@)) && x == "docs"@
            ||| says(lower, "test"@) && x == "test"@
            ||| (says(lower, "deploy"@) || says(lower, "release"@)) && x == "deployment"@
        },
{
    let a = only_if(says(lower, "fix"@) || says(lower, "bug"@), "bugfix"@);
    let b = only_if(says(lower, "feat"@) || says(lower, "feature"@), "feature"@);
    let c = only_if(says(lower, "refactor"@), "refactor"@);
    let d = only_if(says(lower, "perf"@) || says(lower, "performance"@), "performance"@);
    let e = only_if(says(lower, "security"@) || says(lower, "cve"@), "security"@);
    let f = only_if(says(lower, "doc"@) || says(lower, "docs"@), "docs"@);
    let g = only_if(says(lower, "test"@), "test"@);
    let h = only_if(says(lower, "deploy"@) || says(lower, "release"@), "deployment"@);
    either_holds(a, b, x);
    either_holds(a + b, c, x);
    either_holds(a + b + c, d, x);
    either_holds(a + b + c + d, e, x);
    either_holds(a + b + c + d + e, f, x);
    either_holds(a + b + c + d + e + f, g, x);
    either_holds(a + b + c + d + e + f + g, h, x);
    only_one(says(lower, "fix"@) || says(lower, "bug"@), "bugfix"@, x);
    only_one(says(lower, "feat"@) || says(lower, "feature"@), "feature"@, x);
    only_one(says(lower, "refactor"@), "refactor"@, x);
    only_one(says(lower, "perf"@) || says(lower, "performance"@), "performance"@, x);
    only_one(says(lower, "security"@) || says(lower, "cve"@), "security"@, x);
    only_one(says(lower, "doc"@) || says(lower, "docs"@), "docs"@, x);
    only_one(says(lower, "test"@), "test"@, x);
    only_one(says(lower, "deploy"@) || says(lower, "release"@), "deployment"@, x);
}

proof fn either_holds(a: Seq<Seq<char>>, b: Seq<Seq<char>>, x: Seq<char>)
    ensures
        (a + b).contains(x) <==> a.contains(x) || b.contains(x),
{
    if a.contains(x) {
        let i = choose|i: int| 0 <= i < a.len() && a[i] == x;
        assert((a + b)[i] == x);
    }
    if b.contains(x) {
        let i = choose|i: int| 0 <= i < b.len() && b[i] == x;
        assert((a + b)[a.len() + i] == x);
    }
}

proof fn only_one(holds: bool, tag: Seq<char>, x: Seq<char>)
    ensures
        only_if(holds, tag).contains(x) <==> holds && x == tag,
{
    if holds {
        assert(only_if(holds, tag)[0] == tag);
    }
}

/// A breaking change counts the most, then a fix, a rewrite and a test; a milestone counts
/// by its type in the same way.
pub proof fn importance_by_what_was_done(lower: Seq<char>, commit_type: Seq<char>)
    ensures
        text::contains(lower, "breaking"@) || text::word_from(lower, "migration"@, 0)
            ==> importance_in(lower) == 90,
        30 <= importance_in(lower) <= 90,
        importance_in(lower) == 90 ==> text::contains(lower, "breaking"@) || text::word_from(
            lower,
            "migration"@,
            0,
        ),
        text::word_from(lower, "fix"@, 0) || text::word_from(lower, "bug"@, 0) || text::word_from(
            lower,
            "patch"@,
            0,
        ) ==> importance_in(lower) >= 70,
        text::word_from(lower, "refactor"@, 0) || text::word_from(lower, "rewrite"@, 0)
            ==> importance_in(lower) >= 60,
        text::word_from(lower, "test"@, 0) ==> importance_in(lower) >= 40,
        theme_importance(commit_type, true) == 90,
        30 <= theme_importance(commit_type, false) <= 70,
        score_bits(30) == 0x3e99_999a,
        score_bits(40) == 0x3ecc_cccd,
        score_bits(60) == 0x3f19_999a,
        score_bits(70) == 0x3f33_3333,
        score_bits(90) == 0x3f66_6666,
{
}

/// A path is listed once it was pushed, once only, and an empty one never; the others stay
/// where they are.
pub proof fn pushed_paths_are_listed_once(files: Seq<Seq<char>>, path: Seq<char>)
    requires
        files.no_duplicates(),
    ensures
        path.len() > 0 ==> with_path(files, path).contains(path),
        with_path(files, path).no_duplicates(),
        with_path(files, path).len() >= files.len(),
        with_path(files, path).take(files.len() as int) == files,
        with_path(files, path).len() <= files.len() + 1,
        path.len() == 0 ==> with_path(files, path) == files,
{
    let now = with_path(files, path);
    assert(now.take(files.len() as int) =~= files);
    if path.len() > 0 && !files.contains(path) {
        assert(now[files.len() as int] == path);
        assert forall|i: int, j: int|
            0 <= i < now.len() && 0 <= j < now.len() && i != j implies now[i] != now[j] by {
            if i < files.len() && j < files.len() {
                assert(files[i] != files[j]);
            } else if i < files.len() {
                assert(files.contains(files[i]));
            } else if j < files.len() {
                assert(files.contains(files[j]));
            }
        }
    }
}

/// The content of a milestone lists its subjects, one line for each, behind its theme and
/// its count.
pub proof fn milestones_tell_their_subjects(
    lines: Seq<Seq<char>>,
    line: Seq<char>,
    m: MilestoneView,
)
    requires
        m.commit_count >= 0,
    ensures
        bulleted(Seq::<Seq<char>>::empty()) == Seq::<char>::empty(),
        bulleted(lines.push(line)) == bulleted(lines) + "\n- "@ + line,
        text::starts_with(
            milestone_content(m),
            "Milestone "@ + m.theme + " ("@ + text::decimal(m.commit_count as nat)
                + " commit(s), first "@ + text::signed_decimal(m.first_ts) + " last "@
                + text::signed_decimal(m.last_ts) + ")"@,
        ),
        text::ends_with(milestone_content(m), bulleted(subjects_of(m.commits))),
        milestone_summary(m).len() <= 200,
        subjects_of(m.commits).len() <= 30,
        forall|i: int|
            0 <= i < subjects_of(m.commits).len() ==> text::non_empty(
                subject_lines(m.commits),
            ).contains(#[trigger] subjects_of(m.commits)[i]),
{
    assert(lines.push(line).drop_last() =~= lines);
    let head = "Milestone "@ + m.theme + " ("@ + text::decimal(m.commit_count as nat)
        + " commit(s), first "@ + text::signed_decimal(m.first_ts) + " last "@
        + text::signed_decimal(m.last_ts) + ")"@;
    let mark = if m.has_breaking {
        " [BREAKING]"@
    } else {
        ""@
    };
    let middle = mark + "\n\nFiles: "@ + text::joined(milestone_files(m.commits), ", "@);
    let tail = bulleted(subjects_of(m.commits));
    assert(milestone_content(m) =~= head + (middle + tail));
    assert(milestone_content(m) =~= (head + middle) + tail);
    text::texts_hold_their_parts(head + middle, head, middle + tail);
    text::texts_hold_their_parts(head + middle, tail, tail);
    let all = text::non_empty(subject_lines(m.commits));
    assert forall|i: int| 0 <= i < subjects_of(m.commits).len() implies all.contains(
        #[trigger] subjects_of(m.commits)[i],
    ) by {
        assert(all[i] == subjects_of(m.commits)[i]);
    }
}

/// A milestone is tagged with its type, its scope where it has one, and where it comes
/// from.
pub proof fn milestones_are_tagged(m: MilestoneView, scope: Seq<char>)
    ensures
        m.scope is None ==> milestone_tags(m) == seq![m.commit_type, "source:ingest"@],
        m.scope == Some(scope) && scope.len() > 0 ==> milestone_tags(m) == seq![
            m.commit_type,
            scope,
            "source:ingest"@,
        ],
{
    if m.scope is None {
        assert(milestone_tags(m) =~= seq![m.commit_type, "source:ingest"@]);
    }
    if m.scope == Some(scope) && scope.len() > 0 {
        assert(milestone_tags(m) =~= seq![m.commit_type, scope, "source:ingest"@]);
    }
}

} // verus!
