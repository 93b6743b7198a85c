//! Session transcripts, distilled into one episodic memory each.
use crate::cli::args;
use crate::collectors::files;
use crate::json;
use crate::json::{Json, JsonView};
use crate::models::EpisodicMemory;
use crate::text;
use vstd::prelude::*;

verus! {

/// What was extracted from a session transcript.
#[derive(Clone, Debug)]
pub struct SessionDigest {
    pub user_prompts: Vec<String>,
    pub assistant_texts: Vec<String>,
    pub files: Vec<String>,
}

/// A digest as a mathematical value.
pub struct DigestView {
    pub user_prompts: Seq<Seq<char>>,
    pub assistant_texts: Seq<Seq<char>>,
    pub files: Seq<Seq<char>>,
}

impl View for SessionDigest {
    type V = DigestView;

    open spec fn view(&self) -> DigestView {
        DigestView {
            user_prompts: text::texts(self.user_prompts@),
            assistant_texts: text::texts(self.assistant_texts@),
            files: text::texts(self.files@),
        }
    }
}

pub open spec fn empty_digest() -> DigestView {
    DigestView {
        user_prompts: Seq::empty(),
        assistant_texts: Seq::empty(),
        files: Seq::empty(),
    }
}

impl Default for SessionDigest {
    fn default() -> (r: Self)
        ensures
            r@ == empty_digest(),
    {
        let r = SessionDigest {
            user_prompts: Vec::new(),
            assistant_texts: Vec::new(),
            files: Vec::new(),
        };
        assert(r@.user_prompts =~= Seq::empty());
        assert(r@.assistant_texts =~= Seq::empty());
        assert(r@.files =~= Seq::empty());
        r
    }
}

/// A list with one more text, unless it is in it already.
pub open spec fn with_unique(list: Seq<Seq<char>>, item: Seq<char>) -> Seq<Seq<char>> {
    if list.contains(item) {
        list
    } else {
        list.push(item)
    }
}

pub fn push_unique(list: &mut Vec<String>, item: &str)
    ensures
        text::texts(final(list)@) == with_unique(text::texts(old(list)@), item@),
{
    if !text::has_text(list, item) {
        let ghost before = text::texts(list@);
        list.push(item.to_owned());
        assert(text::texts(list@) =~= before.push(item@));
    }
}

// ---------------------------------------------------------------------------
// Messages
// ---------------------------------------------------------------------------

/// A text that a user typed: not empty, and no wrapper that was put in for them.
pub open spec fn is_prompt(t: Seq<char>) -> bool {
    t.len() > 0 && t[0] != '<'
}

pub open spec fn with_prompt(list: Seq<Seq<char>>, s: Seq<char>) -> Seq<Seq<char>> {
    if is_prompt(text::trimmed(s)) {
        with_unique(list, text::trimmed(s))
    } else {
        list
    }
}

pub open spec fn with_said(list: Seq<Seq<char>>, s: Seq<char>) -> Seq<Seq<char>> {
    if text::trimmed(s).len() > 0 {
        with_unique(list, text::trimmed(s))
    } else {
        list
    }
}

/// The text of an item that is of type `text`.
pub open spec fn item_text(item: JsonView) -> Option<Seq<char>> {
    if json::string_member(item, "type"@) == Some("text"@) {
        json::string_member(item, "text"@)
    } else {
        None
    }
}

/// The prompts among the items of a user's message.
pub open spec fn with_user_items(list: Seq<Seq<char>>, items: Seq<JsonView>) -> Seq<Seq<char>>
    decreases items.len(),
{
    if items.len() == 0 {
        list
    } else {
        let before = with_user_items(list, items.drop_last());
        match item_text(items.last()) {
            Some(s) => with_prompt(before, s),
            None => before,
        }
    }
}

/// The texts among the items of an assistant's message.
pub open spec fn with_spoken(list: Seq<Seq<char>>, items: Seq<JsonView>) -> Seq<Seq<char>>
    decreases items.len(),
{
    if items.len() == 0 {
        list
    } else {
        let before = with_spoken(list, items.drop_last());
        match item_text(items.last()) {
            Some(s) => with_said(before, s),
            None => before,
        }
    }
}

/// A file that a tool was given under one key.
pub open spec fn with_target(
    list: Seq<Seq<char>>,
    input: JsonView,
    key: Seq<char>,
) -> Seq<Seq<char>> {
    match json::string_member(input, key) {
        Some(s) => with_said(list, s),
        None => list,
    }
}

/// The files that a tool call was given.
pub open spec fn with_targets(list: Seq<Seq<char>>, item: JsonView) -> Seq<Seq<char>> {
    if json::string_member(item, "type"@) == Some("tool_use"@) {
        match json::member(item, "input"@) {
            Some(input) => with_target(
                with_target(with_target(list, input, "file_path"@), input, "path"@),
                input,
                "notebook_path"@,
            ),
            None => list,
        }
    } else {
        list
    }
}

/// The files that the tool calls of an assistant's message were given.
pub open spec fn with_touched(list: Seq<Seq<char>>, items: Seq<JsonView>) -> Seq<Seq<char>>
    decreases items.len(),
{
    if items.len() == 0 {
        list
    } else {
        with_targets(with_touched(list, items.drop_last()), items.last())
    }
}

/// A digest with the content of one message taken in.
pub open spec fn with_content(d: DigestView, ty: Seq<char>, content: Option<JsonView>) -> DigestView {
    if ty == "user"@ {
        DigestView {
            user_prompts: match content {
                Some(JsonView::Str(s)) => with_prompt(d.user_prompts, s),
                Some(JsonView::Array(items)) => with_user_items(d.user_prompts, items),
                _ => d.user_prompts,
            },
            assistant_texts: d.assistant_texts,
            files: d.files,
        }
    } else if ty == "assistant"@ {
        match content {
            Some(JsonView::Array(items)) => DigestView {
                user_prompts: d.user_prompts,
                assistant_texts: with_spoken(d.assistant_texts, items),
                files: with_touched(d.files, items),
            },
            _ => d,
        }
    } else {
        d
    }
}

/// A digest with a session title taken in: it stands for a prompt where there is none
/// yet.
pub open spec fn with_title(d: DigestView, line: JsonView) -> DigestView {
    match json::string_member(line, "summary"@) {
        Some(s) => if text::trimmed(s).len() > 0 && d.user_prompts.len() == 0 {
            DigestView {
                user_prompts: d.user_prompts.push("[session] "@ + s),
                assistant_texts: d.assistant_texts,
                files: d.files,
            }
        } else {
            d
        },
        None => d,
    }
}

/// A digest with one line of a transcript taken in.
pub open spec fn with_message(d: DigestView, line: JsonView) -> DigestView {
    let ty = match json::string_member(line, "type"@) {
        Some(t) => t,
        None => ""@,
    };
    if json::member(line, "isMeta"@) == Some(JsonView::Bool(true)) {
        d
    } else {
        match json::member(line, "message"@) {
            None => if ty == "summary"@ {
                with_title(d, line)
            } else {
                d
            },
            Some(message) => with_content(d, ty, json::member(message, "content"@)),
        }
    }
}

/// A digest with the lines of a transcript taken in. Blank lines and lines that are
/// not JSON are skipped.
pub open spec fn with_lines(d: DigestView, lines: Seq<Seq<char>>) -> DigestView
    decreases lines.len(),
{
    if lines.len() == 0 {
        d
    } else {
        let before = with_lines(d, lines.drop_last());
        let line = text::trimmed(lines.last());
        if line.len() == 0 {
            before
        } else {
            match json::json_read(line) {
                Ok(v) => with_message(before, v),
                Err(_) => before,
            }
        }
    }
}

fn text_of_item(item: &Json) -> (r: Option<&str>)
    ensures
        text::opt_str(r) == item_text(item@),
{
    match item.get_str("type") {
        Some(t) => {
            if text::same(t, "text") {
                item.get_str("text")
            } else {
                None
            }
        },
        None => None,
    }
}

fn push_prompt(list: &mut Vec<String>, s: &str)
    ensures
        text::texts(final(list)@) == with_prompt(text::texts(old(list)@), s@),
{
    let t = text::trim(s);
    let v = text::chars_of(t.as_str());
    if v.len() > 0 && v[0] != '<' {
        push_unique(list, t.as_str());
    }
}

fn push_said(list: &mut Vec<String>, s: &str)
    ensures
        text::texts(final(list)@) == with_said(text::texts(old(list)@), s@),
{
    let t = text::trim(s);
    if !t.as_str().is_empty() {
        push_unique(list, t.as_str());
    }
}

fn push_target(list: &mut Vec<String>, input: &Json, key: &str)
    ensures
        text::texts(final(list)@) == with_target(text::texts(old(list)@), input@, key@),
{
    match input.get_str(key) {
        Some(s) => push_said(list, s),
        None => {},
    }
}

fn push_targets(list: &mut Vec<String>, item: &Json)
    ensures
        text::texts(final(list)@) == with_targets(text::texts(old(list)@), item@),
{
    match item.get_str("type") {
        Some(t) => {
            if text::same(t, "tool_use") {
                match item.get("input") {
                    Some(input) => {
                        push_target(list, input, "file_path");
                        push_target(list, input, "path");
                        push_target(list, input, "notebook_path");
                    },
                    None => {},
                }
            }
        },
        None => {},
    }
}

fn push_user_items(list: &mut Vec<String>, items: &Vec<Json>)
    ensures
        text::texts(final(list)@) == with_user_items(
            text::texts(old(list)@),
            json::views(items@),
        ),
{
    let ghost all = json::views(items@);
    let ghost start = text::texts(list@);
    let mut i: usize = 0;
    assert(all.take(0) =~= Seq::empty());
    while i < items.len()
        invariant
            i <= items@.len(),
            all == json::views(items@),
            text::texts(list@) == with_user_items(start, all.take(i as int)),
        decreases items@.len() - i,
    {
        assert(all.take(i + 1).drop_last() =~= all.take(i as int));
        assert(all.take(i + 1).last() == items@[i as int]@);
        match text_of_item(&items[i]) {
            Some(s) => push_prompt(list, s),
            None => {},
        }
        i = i + 1;
    }
    assert(all.take(i as int) =~= all);
}

fn push_assistant_items(said: &mut Vec<String>, touched: &mut Vec<String>, items: &Vec<Json>)
    ensures
        text::texts(final(said)@) == with_spoken(text::texts(old(said)@), json::views(items@)),
        text::texts(final(touched)@) == with_touched(
            text::texts(old(touched)@),
            json::views(items@),
        ),
{
    let ghost all = json::views(items@);
    let ghost said_before = text::texts(said@);
    let ghost touched_before = text::texts(touched@);
    let mut i: usize = 0;
    assert(all.take(0) =~= Seq::empty());
    while i < items.len()
        invariant
            i <= items@.len(),
            all == json::views(items@),
            text::texts(said@) == with_spoken(said_before, all.take(i as int)),
            text::texts(touched@) == with_touched(touched_before, all.take(i as int)),
        decreases items@.len() - i,
    {
        assert(all.take(i + 1).drop_last() =~= all.take(i as int));
        assert(all.take(i + 1).last() == items@[i as int]@);
        match text_of_item(&items[i]) {
            Some(s) => push_said(said, s),
            None => {},
        }
        push_targets(touched, &items[i]);
        i = i + 1;
    }
    assert(all.take(i as int) =~= all);
}

impl SessionDigest {
    /// Take in one line of a transcript, parsed. Unknown shapes are skipped; results
    /// of tools are ignored; only prompts, visible assistant text and the files that
    /// tools were given are kept.
    pub fn absorb(&mut self, line: &Json)
        ensures
            final(self)@ == with_message(old(self)@, line@),
    {
        match line.get("isMeta") {
            Some(j) => {
                match j {
                    Json::Bool(b) => {
                        if *b {
                            return;
                        }
                    },
                    Json::Array(v) => {
                        proof {
                            Json::array_view(*v);
                        }
                    },
                    Json::Object(v) => {
                        proof {
                            Json::object_view(*v);
                        }
                    },
                    _ => {},
                }
            },
            None => {},
        }
        let ty = match line.get_str("type") {
            Some(t) => t,
            None => "",
        };
        match line.get("message") {
            None => {
                if text::same(ty, "summary") {
                    match line.get_str("summary") {
                        Some(s) => {
                            let t = text::trim(s);
                            if !t.as_str().is_empty() && self.user_prompts.len() == 0 {
                                let mut title = "[session] ".to_owned();
                                title.append(s);
                                let ghost before = text::texts(self.user_prompts@);
                                let ghost added = title@;
                                self.user_prompts.push(title);
                                assert(text::texts(self.user_prompts@) =~= before.push(added));
                            }
                        },
                        None => {},
                    }
                }
            },
            Some(message) => {
                let content = message.get("content");
                if text::same(ty, "user") {
                    match content {
                        Some(j) => match j {
                            Json::Str(s) => push_prompt(&mut self.user_prompts, s.as_str()),
                            Json::Array(items) => {
                                proof {
                                    Json::array_view(*items);
                                }
                                push_user_items(&mut self.user_prompts, items)
                            },
                            Json::Object(v) => {
                                proof {
                                    Json::object_view(*v);
                                }
                            },
                            _ => {},
                        },
                        None => {},
                    }
                } else if text::same(ty, "assistant") {
                    match content {
                        Some(j) => match j {
                            Json::Array(items) => {
                                proof {
                                    Json::array_view(*items);
                                }
                                push_assistant_items(
                                    &mut self.assistant_texts,
                                    &mut self.files,
                                    items,
                                )
                            },
                            Json::Object(v) => {
                                proof {
                                    Json::object_view(*v);
                                }
                            },
                            _ => {},
                        },
                        None => {},
                    }
                }
            },
        }
    }
}

/// Parse a transcript, one message object per line.
pub fn parse_transcript(transcript: &str) -> (r: SessionDigest)
    ensures
        r@ == with_lines(empty_digest(), text::lines(transcript@)),
{
    let lines = text::line_list(transcript);
    let ghost all = text::texts(lines@);
    let mut digest = SessionDigest::default();
    let mut i: usize = 0;
    assert(all.take(0) =~= Seq::empty());
    while i < lines.len()
        invariant
            i <= lines@.len(),
            all == text::texts(lines@),
            digest@ == with_lines(empty_digest(), all.take(i as int)),
        decreases lines@.len() - i,
    {
        assert(all.take(i + 1).drop_last() =~= all.take(i as int));
        assert(all.take(i + 1).last() == lines@[i as int]@);
        let line = text::trim(lines[i].as_str());
        if !line.as_str().is_empty() {
            match Json::parse(line.as_str()) {
                Ok(v) => digest.absorb(&v),
                Err(_) => {},
            }
        }
        i = i + 1;
    }
    assert(all.take(i as int) =~= all);
    digest
}

// ---------------------------------------------------------------------------
// The memory of a session
// ---------------------------------------------------------------------------

/// The session id that a transcript's file name gives.
pub fn session_id_from_path(path: &str) -> (r: String)
    ensures
        r@ == match files::final_name(path@) {
            Some(name) => files::stem(name),
            None => "session"@,
        },
{
    match files::file_stem(path) {
        Some(s) => s,
        None => "session".to_owned(),
    }
}

/// The texts as list items, each cut to a width.
pub open spec fn bulleted(items: Seq<Seq<char>>, width: int) -> Seq<char>
    decreases items.len(),
{
    if items.len() == 0 {
        Seq::empty()
    } else {
        bulleted(items.drop_last(), width) + "- "@ + text::first_chars(items.last(), width) + "\n"@
    }
}

/// The last few of a list.
pub open spec fn last_few<A>(s: Seq<A>, n: int) -> Seq<A> {
    if s.len() <= n {
        s
    } else {
        s.skip(s.len() - n)
    }
}

/// The summary of a session: its first prompt in one line.
pub open spec fn session_summary(d: DigestView, session_id: Seq<char>) -> Seq<char> {
    text::first_chars(
        if d.user_prompts.len() > 0 {
            text::replaced(d.user_prompts[0], "\n"@, " "@)
        } else {
            "session "@ + session_id
        },
        160,
    )
}

/// The content of a session's memory.
pub open spec fn session_content(d: DigestView) -> Seq<char> {
    let said = "User prompts:\n"@ + bulleted(text::at_most(d.user_prompts, 10), 400)
        + "\nAssistant conclusions (latest last):\n"@ + bulleted(
        last_few(d.assistant_texts, 5),
        600,
    );
    text::first_chars(
        if d.files.len() > 0 {
            said + "\nFiles touched ("@ + text::decimal(d.files.len()) + "):\n"@ + text::joined(
                text::at_most(d.files, 50),
                ", "@,
            )
        } else {
            said
        },
        4000,
    )
}

/// The message for a transcript without prompts and files.
pub open spec fn no_signal() -> Seq<char> {
    "transcript yielded no usable signal (no user prompts, no file edits); not writing an empty memory"@
}

/// `m` is the memory of a session.
pub open spec fn is_session_memory(
    m: EpisodicMemory,
    d: DigestView,
    project_id: Seq<char>,
    session_id: Seq<char>,
    id: Seq<char>,
    now: i64,
) -> bool {
    &&& m.id@ == id
    &&& m.project_id@ == project_id
    &&& m.session_id@ == session_id
    &&& m.summary@ == session_summary(d, session_id)
    &&& m.content@ == session_content(d)
    &&& text::texts(m.files_touched@) == text::at_most(d.files, 50)
    &&& m.related_commits@.len() == 0
    &&& m.importance == 0x3f00_0000
    &&& text::texts(m.tags@) == Seq::empty().push("session-import"@)
    &&& m.created_at == now
    &&& m.updated_at == now
}

fn bullets(items: &Vec<String>, from: usize, to: usize, width: usize) -> (r: String)
    requires
        from <= to <= items@.len(),
    ensures
        r@ == bulleted(
            text::texts(items@).subrange(from as int, to as int),
            width as int,
        ),
{
    let ghost all = text::texts(items@).subrange(from as int, to as int);
    let mut r = String::new();
    let mut i: usize = from;
    assert(all.take(0) =~= Seq::empty());
    while i < to
        invariant
            from <= i <= to <= items@.len(),
            all == text::texts(items@).subrange(from as int, to as int),
            r@ == bulleted(all.take(i - from), width as int),
        decreases to - i,
    {
        assert(all.take(i + 1 - from).drop_last() =~= all.take(i - from));
        assert(all.take(i + 1 - from).last() == items@[i as int]@);
        r.append("- ");
        r.append(text::head(items[i].as_str(), width).as_str());
        r.append("\n");
        i = i + 1;
    }
    assert(all.take(i - from) =~= all);
    r
}

fn first_few(items: &Vec<String>, n: usize) -> (r: Vec<String>)
    ensures
        text::texts(r@) == text::at_most(text::texts(items@), n as int),
{
    let ghost all = text::texts(items@);
    let end: usize = if items.len() <= n {
        items.len()
    } else {
        n
    };
    let mut r: Vec<String> = Vec::new();
    let mut i: usize = 0;
    assert(text::texts(r@) =~= all.take(0));
    while i < end
        invariant
            i <= end <= items@.len(),
            all == text::texts(items@),
            text::texts(r@) == all.take(i as int),
        decreases end - i,
    {
        let ghost before = text::texts(r@);
        r.push(items[i].clone());
        assert(text::texts(r@) =~= before.push(all[i as int]));
        i = i + 1;
        assert(all.take(i as int) =~= all.take(i - 1).push(all[i - 1]));
    }
    assert(all.take(all.len() as int) =~= all);
    r
}

/// Distill a session into one episodic memory. A transcript without prompts and files
/// makes none.
pub fn session_memory(
    digest: &SessionDigest,
    project_id: &str,
    session_id: &str,
    id: String,
    now: i64,
) -> (r: Result<EpisodicMemory, String>)
    ensures
        match r {
            Ok(m) => (digest@.user_prompts.len() > 0 || digest@.files.len() > 0)
                && is_session_memory(m, digest@, project_id@, session_id@, id@, now),
            Err(e) => digest@.user_prompts.len() == 0 && digest@.files.len() == 0 && e@
                == no_signal(),
        },
{
    if digest.user_prompts.len() == 0 && digest.files.len() == 0 {
        return Err(
            "transcript yielded no usable signal (no user prompts, no file edits); not writing an empty memory".to_owned(),
        );
    }
    proof {
        reveal_strlit("\n");
    }
    let ghost prompts = text::texts(digest.user_prompts@);
    let ghost said = text::texts(digest.assistant_texts@);
    let first = if digest.user_prompts.len() > 0 {
        assert(prompts[0] == digest.user_prompts@[0]@);
        text::replace(digest.user_prompts[0].as_str(), "\n", " ")
    } else {
        let mut s = "session ".to_owned();
        s.append(session_id);
        s
    };
    let summary = text::head(first.as_str(), 160);
    let n: usize = digest.user_prompts.len();
    let k: usize = digest.assistant_texts.len();
    let shown: usize = if n <= 10 {
        n
    } else {
        10
    };
    let skipped: usize = if k <= 5 {
        0
    } else {
        k - 5
    };
    assert(prompts.subrange(0, shown as int) =~= text::at_most(prompts, 10));
    assert(said.subrange(skipped as int, k as int) =~= last_few(said, 5));
    let mut content = "User prompts:\n".to_owned();
    content.append(bullets(&digest.user_prompts, 0, shown, 400).as_str());
    content.append("\nAssistant conclusions (latest last):\n");
    content.append(bullets(&digest.assistant_texts, skipped, k, 600).as_str());
    if digest.files.len() > 0 {
        content.append("\nFiles touched (");
        content.append(text::decimal_of(digest.files.len() as u64).as_str());
        content.append("):\n");
        content.append(text::join(&first_few(&digest.files, 50), ", ").as_str());
    }
    let content = text::head(content.as_str(), 4000);
    let tags = vec!["session-import".to_owned()];
    assert(text::texts(tags@) =~= Seq::empty().push("session-import"@));
    Ok(
        EpisodicMemory {
            id,
            project_id: project_id.to_owned(),
            session_id: session_id.to_owned(),
            summary,
            content,
            files_touched: first_few(&digest.files, 50),
            related_commits: Vec::new(),
            importance: 0x3f00_0000,
            tags,
            created_at: now,
            updated_at: now,
        },
    )
}

/// The options of `session-import`.
#[derive(Debug)]
pub struct SessionOptions {
    pub project_id: String,
    pub transcript: String,
    pub session_id: String,
    pub dry_run: bool,
}

/// Read the options of `session-import`: the session id defaults to the transcript's
/// file name.
pub fn session_options(args: &Vec<String>) -> (r: Result<SessionOptions, String>)
    ensures
        ({
            let all = text::texts(args@);
            match r {
                Ok(o) => {
                    &&& args::required_value(all, "project"@) == Ok::<Seq<char>, Seq<char>>(
                        o.project_id@,
                    )
                    &&& args::required_value(all, "transcript"@) == Ok::<Seq<char>, Seq<char>>(
                        o.transcript@,
                    )
                    &&& o.session_id@ == match args::option_value(all, "session"@) {
                        Some(s) => s,
                        None => match files::final_name(o.transcript@) {
                            Some(name) => files::stem(name),
                            None => "session"@,
                        },
                    }
                    &&& o.dry_run == all.contains("--dry-run"@)
                },
                Err(e) => match args::required_value(all, "project"@) {
                    Err(f) => e@ == f,
                    Ok(_) => args::required_value(all, "transcript"@) == Err::<
                        Seq<char>,
                        Seq<char>,
                    >(e@),
                },
            }
        }),
{
    let project_id = match args::require_str(args, "project") {
        Ok(s) => s,
        Err(e) => {
            return Err(e);
        },
    };
    let transcript = match args::require_str(args, "transcript") {
        Ok(s) => s,
        Err(e) => {
            return Err(e);
        },
    };
    let session_id = match args::optional_str(args, "session") {
        Some(s) => s,
        None => session_id_from_path(transcript.as_str()),
    };
    Ok(
        SessionOptions {
            project_id,
            transcript,
            session_id,
            dry_run: args::has_flag(args, "--dry-run"),
        },
    )
}

// ---------------------------------------------------------------------------
// Laws
// ---------------------------------------------------------------------------

/// Every text of a list occurs once.
pub open spec fn no_repeats(list: Seq<Seq<char>>) -> bool {
    forall|i: int, j: int|
        0 <= i < j < list.len() ==> #[trigger] list[i] != #[trigger] list[j]
}

proof fn unique_push(list: Seq<Seq<char>>, item: Seq<char>)
    requires
        no_repeats(list),
    ensures
        no_repeats(with_unique(list, item)),
{
    if !list.contains(item) {
        let now = list.push(item);
        assert forall|i: int, j: int| 0 <= i < j < now.len() implies #[trigger] now[i]
            != #[trigger] now[j] by {
            if j == list.len() {
                assert(list[i] == now[i]);
            }
        }
    }
}

proof fn user_items_unique(list: Seq<Seq<char>>, items: Seq<JsonView>)
    requires
        no_repeats(list),
    ensures
        no_repeats(with_user_items(list, items)),
    decreases items.len(),
{
    if items.len() > 0 {
        user_items_unique(list, items.drop_last());
        let before = with_user_items(list, items.drop_last());
        if item_text(items.last()) is Some {
            unique_push(before, text::trimmed(item_text(items.last())->0));
        }
    }
}

proof fn spoken_unique(list: Seq<Seq<char>>, items: Seq<JsonView>)
    requires
        no_repeats(list),
    ensures
        no_repeats(with_spoken(list, items)),
    decreases items.len(),
{
    if items.len() > 0 {
        spoken_unique(list, items.drop_last());
        let before = with_spoken(list, items.drop_last());
        if item_text(items.last()) is Some {
            unique_push(before, text::trimmed(item_text(items.last())->0));
        }
    }
}

proof fn target_unique(list: Seq<Seq<char>>, input: JsonView, key: Seq<char>)
    requires
        no_repeats(list),
    ensures
        no_repeats(with_target(list, input, key)),
{
    if json::string_member(input, key) is Some {
        unique_push(list, text::trimmed(json::string_member(input, key)->0));
    }
}

proof fn touched_unique(list: Seq<Seq<char>>, items: Seq<JsonView>)
    requires
        no_repeats(list),
    ensures
        no_repeats(with_touched(list, items)),
    decreases items.len(),
{
    if items.len() > 0 {
        touched_unique(list, items.drop_last());
        let a = with_touched(list, items.drop_last());
        if json::member(items.last(), "input"@) is Some {
            let input = json::member(items.last(), "input"@)->0;
            target_unique(a, input, "file_path"@);
            let b = with_target(a, input, "file_path"@);
            target_unique(b, input, "path"@);
            target_unique(with_target(b, input, "path"@), input, "notebook_path"@);
        }
    }
}

/// No prompt, no conclusion and no file is listed twice, however often the transcript
/// repeats it.
pub proof fn digests_do_not_repeat(lines: Seq<Seq<char>>)
    ensures
        no_repeats(with_lines(empty_digest(), lines).user_prompts),
        no_repeats(with_lines(empty_digest(), lines).assistant_texts),
        no_repeats(with_lines(empty_digest(), lines).files),
    decreases lines.len(),
{
    if lines.len() > 0 {
        digests_do_not_repeat(lines.drop_last());
        let d = with_lines(empty_digest(), lines.drop_last());
        let line = text::trimmed(lines.last());
        match json::json_read(line) {
            Ok(v) => {
                if json::member(v, "message"@) is Some {
                    let content = json::member(json::member(v, "message"@)->0, "content"@);
                    match content {
                        Some(JsonView::Str(s)) => {
                            unique_push(d.user_prompts, text::trimmed(s));
                        },
                        Some(JsonView::Array(items)) => {
                            user_items_unique(d.user_prompts, items);
                            spoken_unique(d.assistant_texts, items);
                            touched_unique(d.files, items);
                        },
                        _ => {},
                    }
                }
            },
            Err(_) => {},
        }
    }
}

/// A text is among those of an assistant's message once it is taken in just where it was
/// there before or some item of the message says it.
pub proof fn everything_said_is_kept(list: Seq<Seq<char>>, items: Seq<JsonView>, x: Seq<char>)
    ensures
        with_spoken(list, items).contains(x) <==> list.contains(x) || (x.len() > 0 && exists|i: int|
            0 <= i < items.len() && says_text(#[trigger] items[i], x)),
    decreases items.len(),
{
    if items.len() > 0 {
        let rest = items.drop_last();
        let last = items.last();
        everything_said_is_kept(list, rest, x);
        let before = with_spoken(list, rest);
        text::push_contains(before, x, x);
        if item_text(last) is Some {
            text::push_contains(before, text::trimmed(item_text(last)->0), x);
        }
        one_more_says(items, x);
    }
}

/// An item is of type `text` and says this, spaces around it aside.
pub open spec fn says_text(item: JsonView, x: Seq<char>) -> bool {
    &&& json::string_member(item, "type"@) == Some("text"@)
    &&& json::string_member(item, "text"@) matches Some(s) && text::trimmed(s) == x
}

proof fn one_more_says(items: Seq<JsonView>, x: Seq<char>)
    requires
        items.len() > 0,
    ensures
        (exists|i: int| 0 <= i < items.len() && says_text(#[trigger] items[i], x)) <==> (exists|
            i: int,
        |
            0 <= i < items.drop_last().len() && says_text(#[trigger] items.drop_last()[i], x))
            || says_text(items.last(), x),
{
    let rest = items.drop_last();
    if exists|i: int| 0 <= i < items.len() && says_text(#[trigger] items[i], x) {
        let i = choose|i: int| 0 <= i < items.len() && says_text(#[trigger] items[i], x);
        if i < rest.len() {
            assert(says_text(rest[i], x));
        }
    }
    if exists|i: int| 0 <= i < rest.len() && says_text(#[trigger] rest[i], x) {
        let i = choose|i: int| 0 <= i < rest.len() && says_text(#[trigger] rest[i], x);
        assert(says_text(items[i], x));
    }
    if says_text(items.last(), x) {
        assert(says_text(items[items.len() - 1], x));
    }
}

/// A prompt is among those of a user's message once it is taken in just where it was there
/// before or some item says it and it is no wrapper.
pub proof fn every_prompt_is_kept(list: Seq<Seq<char>>, items: Seq<JsonView>, x: Seq<char>)
    ensures
        with_user_items(list, items).contains(x) <==> list.contains(x) || (x.len() > 0 && x[0]
            != '<' && exists|i: int| 0 <= i < items.len() && says_text(#[trigger] items[i], x)),
        with_prompt(list, x).contains(text::trimmed(x)) <==> list.contains(text::trimmed(x)) || (
        text::trimmed(x).len() > 0 && text::trimmed(x)[0] != '<'),
    decreases items.len(),
{
    text::push_contains(list, text::trimmed(x), text::trimmed(x));
    if items.len() > 0 {
        let rest = items.drop_last();
        let last = items.last();
        every_prompt_is_kept(list, rest, x);
        let before = with_user_items(list, rest);
        if item_text(last) is Some {
            text::push_contains(before, text::trimmed(item_text(last)->0), x);
        }
        one_more_says(items, x);
    }
}

/// A tool call was given this file, spaces around it aside.
pub open spec fn names_file(item: JsonView, x: Seq<char>) -> bool {
    &&& json::string_member(item, "type"@) == Some("tool_use"@)
    &&& json::member(item, "input"@) matches Some(input) && {
        ||| json::string_member(input, "file_path"@) matches Some(s) && text::trimmed(s) == x
        ||| json::string_member(input, "path"@) matches Some(s) && text::trimmed(s) == x
        ||| json::string_member(input, "notebook_path"@) matches Some(s) && text::trimmed(s) == x
    }
}

/// A file is among those touched just where it was there before or some tool call of the
/// message was given it.
pub proof fn every_file_is_kept(list: Seq<Seq<char>>, items: Seq<JsonView>, x: Seq<char>)
    ensures
        with_touched(list, items).contains(x) <==> list.contains(x) || (x.len() > 0 && exists|
            i: int,
        |
            0 <= i < items.len() && names_file(#[trigger] items[i], x)),
    decreases items.len(),
{
    if items.len() > 0 {
        let rest = items.drop_last();
        let last = items.last();
        every_file_is_kept(list, rest, x);
        let before = with_touched(list, rest);
        if json::member(last, "input"@) is Some {
            let input = json::member(last, "input"@)->0;
            let one = with_target(before, input, "file_path"@);
            let two = with_target(one, input, "path"@);
            target_kept(before, input, "file_path"@, x);
            target_kept(one, input, "path"@, x);
            target_kept(two, input, "notebook_path"@, x);
        }
        if exists|i: int| 0 <= i < items.len() && names_file(#[trigger] items[i], x) {
            let i = choose|i: int| 0 <= i < items.len() && names_file(#[trigger] items[i], x);
            if i < rest.len() {
                assert(names_file(rest[i], x));
            }
        }
        if exists|i: int| 0 <= i < rest.len() && names_file(#[trigger] rest[i], x) {
            let i = choose|i: int| 0 <= i < rest.len() && names_file(#[trigger] rest[i], x);
            assert(names_file(items[i], x));
        }
        if names_file(last, x) {
            assert(names_file(items[items.len() - 1], x));
        }
    }
}

proof fn target_kept(list: Seq<Seq<char>>, input: JsonView, key: Seq<char>, x: Seq<char>)
    ensures
        with_target(list, input, key).contains(x) <==> list.contains(x) || (x.len() > 0
            && json::string_member(input, key) is Some && text::trimmed(
            json::string_member(input, key)->0,
        ) == x),
{
    if json::string_member(input, key) is Some {
        text::push_contains(list, text::trimmed(json::string_member(input, key)->0), x);
    }
}

/// Reading on loses nothing, and each message of a line is taken in by its role; what is
/// no message, or is marked as put in, leaves everything as it was.
pub proof fn messages_are_taken_in_by_role(
    d: DigestView,
    lines: Seq<Seq<char>>,
    line: Seq<char>,
    v: JsonView,
    message: JsonView,
    items: Seq<JsonView>,
)
    ensures
        with_lines(d, Seq::<Seq<char>>::empty()) == d,
        text::trimmed(line).len() == 0 || json::json_read(text::trimmed(line)) is Err
            ==> with_lines(d, lines.push(line)) == with_lines(d, lines),
        text::trimmed(line).len() > 0 && json::json_read(text::trimmed(line)) == Ok::<
            JsonView,
            Seq<char>,
        >(v) ==> {
            let before = with_lines(d, lines);
            let after = with_lines(d, lines.push(line));
            let meta = json::member(v, "isMeta"@) == Some(JsonView::Bool(true));
            let held = json::member(v, "message"@) == Some(message) && json::member(
                message,
                "content"@,
            ) == Some(JsonView::Array(items));
            &&& meta ==> after == before
            &&& !meta && held && json::string_member(v, "type"@) == Some("assistant"@) ==> {
                &&& after.assistant_texts == with_spoken(before.assistant_texts, items)
                &&& after.files == with_touched(before.files, items)
                &&& after.user_prompts == before.user_prompts
            }
            &&& !meta && held && json::string_member(v, "type"@) == Some("user"@) ==> {
                &&& after.user_prompts == with_user_items(before.user_prompts, items)
                &&& after.assistant_texts == before.assistant_texts
                &&& after.files == before.files
            }
        },
{
    reveal_strlit("user");
    reveal_strlit("assistant");
    assert("user"@.len() == 4 && "assistant"@.len() == 9);
    assert(lines.push(line).drop_last() =~= lines);
}

/// The memory of a session is filed as asked, holds the first prompt as its summary, and
/// the files that were touched, the first fifty of them.
pub proof fn session_memories_hold_their_session(
    m: EpisodicMemory,
    d: DigestView,
    project_id: Seq<char>,
    session_id: Seq<char>,
    id: Seq<char>,
    now: i64,
)
    requires
        is_session_memory(m, d, project_id, session_id, id, now),
    ensures
        m.id@ == id,
        m.project_id@ == project_id,
        m.session_id@ == session_id,
        m.created_at == now,
        m.updated_at == now,
        m.summary@.len() <= 160,
        m.content@.len() <= 4000,
        d.user_prompts.len() > 0 ==> m.summary@ == text::first_chars(
            text::replaced(d.user_prompts[0], "\n"@, " "@),
            160,
        ),
        d.files.len() <= 50 ==> m.files_touched@.len() == d.files.len() && forall|i: int|
            0 <= i < d.files.len() ==> (#[trigger] m.files_touched@[i])@ == d.files[i],
        d.files.len() > 50 ==> m.files_touched@.len() == 50,
        m.related_commits@.len() == 0,
{
    let files = text::texts(m.files_touched@);
    assert(files.len() == m.files_touched@.len());
    if d.files.len() <= 50 {
        assert forall|i: int| 0 <= i < d.files.len() implies (#[trigger] m.files_touched@[i])@
            == d.files[i] by {
            assert(files[i] == m.files_touched@[i]@);
        }
    }
}

/// A list of items has one line for each of them, in order and cut to a width.
pub proof fn lists_have_a_line_for_each(items: Seq<Seq<char>>, item: Seq<char>, width: int)
    ensures
        bulleted(Seq::<Seq<char>>::empty(), width) == Seq::<char>::empty(),
        bulleted(items.push(item), width) == bulleted(items, width) + "- "@ + text::first_chars(
            item,
            width,
        ) + "\n"@,
        last_few(items, 5).len() == if items.len() <= 5 {
            items.len()
        } else {
            5
        },
        items.len() > 0 ==> last_few(items, 5).last() == items.last(),
{
    assert(items.push(item).drop_last() =~= items);
}

} // verus!
