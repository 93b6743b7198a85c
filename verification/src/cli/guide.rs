//! The agent guide and its import into the file of rules that agents read first.
use crate::cli::args;
use crate::text;
use vstd::prelude::*;

verus! {

/// The line that pulls the guide into the agents' rules.
pub open spec fn import_line() -> Seq<char> {
    "@ENGRAM.md"@
}

/// Render the agent guide: its template with the project id put in.
pub fn render_guide(template: &str, project_id: &str) -> (r: String)
    ensures
        r@ == text::replaced(template@, "{{PROJECT_ID}}"@, project_id@),
{
    proof {
        reveal_strlit("{{PROJECT_ID}}");
    }
    text::replace(template, "{{PROJECT_ID}}", project_id)
}

/// Result of importing the guide into the agents' rules.
#[derive(Clone, Copy, Debug, PartialEq, Eq, Structural)]
pub enum ImportOutcome {
    Created,
    Appended,
    AlreadyPresent,
}

/// Some line of a text is the import, spaces around it aside.
pub open spec fn imports_guide(content: Seq<char>) -> bool {
    exists|i: int|
        0 <= i < text::lines(content).len() && text::trimmed(#[trigger] text::lines(content)[i])
            == import_line()
}

/// A text that ends in a line feed.
pub open spec fn closed_line(content: Seq<char>) -> Seq<char> {
    if content.len() > 0 && content.last() == '\n' {
        content
    } else {
        content.push('\n')
    }
}

/// What becomes of the agents' rules: the outcome, and their new text unless they stay as
/// they are.
pub open spec fn imported(content: Option<Seq<char>>) -> (ImportOutcome, Option<Seq<char>>) {
    match content {
        None => (ImportOutcome::Created, Some(import_line() + "\n"@)),
        Some(c) => if imports_guide(c) {
            (ImportOutcome::AlreadyPresent, None)
        } else {
            (ImportOutcome::Appended, Some(closed_line(c) + import_line() + "\n"@))
        },
    }
}

fn has_import(content: &str) -> (r: bool)
    ensures
        r == imports_guide(content@),
{
    let lines = text::line_list(content);
    let ghost all = text::lines(content@);
    let mut i: usize = 0;
    while i < lines.len()
        invariant
            i <= lines@.len(),
            all == text::texts(lines@),
            all == text::lines(content@),
            forall|k: int| 0 <= k < i ==> text::trimmed(#[trigger] all[k]) != import_line(),
        decreases lines@.len() - i,
    {
        assert(all[i as int] == lines@[i as int]@);
        let t = text::trim(lines[i].as_str());
        if text::same(t.as_str(), "@ENGRAM.md") {
            assert(text::trimmed(text::lines(content@)[i as int]) == import_line());
            return true;
        }
        i = i + 1;
    }
    false
}

/// Import the guide into the agents' rules, given their text if there are any. An import that is
/// there already is left untouched.
pub fn import_into_claude_md(content: Option<&str>) -> (r: (ImportOutcome, Option<String>))
    ensures
        (r.0, text::opt_text(r.1)) == imported(text::opt_str(content)),
{
    match content {
        None => {
            let mut created = "@ENGRAM.md".to_owned();
            created.append("\n");
            (ImportOutcome::Created, Some(created))
        },
        Some(c) => {
            if has_import(c) {
                return (ImportOutcome::AlreadyPresent, None);
            }
            let v = text::chars_of(c);
            let n: usize = v.len();
            let mut updated = c.to_owned();
            if n == 0 || v[n - 1] != '\n' {
                updated.push('\n');
            }
            assert(updated@ =~= closed_line(c@));
            updated.append("@ENGRAM.md");
            updated.append("\n");
            (ImportOutcome::Appended, Some(updated))
        },
    }
}

// ---------------------------------------------------------------------------
// Options
// ---------------------------------------------------------------------------

/// Whether the guide is to be imported, as the arguments say.
#[derive(Clone, Copy, Debug, PartialEq, Eq, Structural)]
pub enum ImportChoice {
    Import,
    Skip,
    Undecided,
}

/// The options of `init-guide`.
#[derive(Debug)]
pub struct GuideOptions {
    pub dir: String,
    pub project: Option<String>,
    pub force: bool,
    pub import: ImportChoice,
}

pub open spec fn import_choice(args: Seq<Seq<char>>) -> ImportChoice {
    if args.contains("--import"@) {
        ImportChoice::Import
    } else if args.contains("--no-import"@) {
        ImportChoice::Skip
    } else {
        ImportChoice::Undecided
    }
}

/// Read the options of `init-guide`.
pub fn guide_options(args: &Vec<String>) -> (r: GuideOptions)
    ensures
        r.dir@ == match args::option_value(text::texts(args@), "dir"@) {
            Some(d) => d,
            None => "."@,
        },
        text::opt_text(r.project) == args::option_value(text::texts(args@), "project"@),
        r.force == text::texts(args@).contains("--force"@),
        r.import == import_choice(text::texts(args@)),
{
    let dir = match args::optional_str(args, "dir") {
        Some(d) => d,
        None => ".".to_owned(),
    };
    let import = if args::has_flag(args, "--import") {
        ImportChoice::Import
    } else if args::has_flag(args, "--no-import") {
        ImportChoice::Skip
    } else {
        ImportChoice::Undecided
    };
    GuideOptions {
        dir,
        project: args::optional_str(args, "project"),
        force: args::has_flag(args, "--force"),
        import,
    }
}

/// The project id: the one that was given, else the name of the directory.
pub fn guide_project(project: Option<String>, dir_name: Option<String>) -> (r: Result<
    String,
    String,
>)
    ensures
        args::text_result(r) == match text::opt_text(project) {
            Some(p) => Ok::<Seq<char>, Seq<char>>(p),
            None => match text::opt_text(dir_name) {
                Some(d) => if d.len() > 0 {
                    Ok(d)
                } else {
                    Err("could not derive project_id from directory; pass --project"@)
                },
                None => Err("could not derive project_id from directory; pass --project"@),
            },
        },
{
    match project {
        Some(p) => Ok(p),
        None => match dir_name {
            Some(d) => if !d.as_str().is_empty() {
                Ok(d)
            } else {
                Err("could not derive project_id from directory; pass --project".to_owned())
            },
            None => Err("could not derive project_id from directory; pass --project".to_owned()),
        },
    }
}

/// Whether the guide is to be written: not over one that exists, unless forced.
pub fn writes_guide(exists_already: bool, force: bool) -> (r: bool)
    ensures
        r == (!exists_already || force),
{
    !exists_already || force
}

/// What to do about the import.
#[derive(Clone, Copy, Debug, PartialEq, Eq, Structural)]
pub enum ImportStep {
    Import,
    Skip,
    /// Ask on the terminal.
    Ask,
    /// Nobody can be asked.
    NoTerminal,
}

pub fn import_step(choice: ImportChoice, is_terminal: bool) -> (r: ImportStep)
    ensures
        r == match choice {
            ImportChoice::Import => ImportStep::Import,
            ImportChoice::Skip => ImportStep::Skip,
            ImportChoice::Undecided => if is_terminal {
                ImportStep::Ask
            } else {
                ImportStep::NoTerminal
            },
        },
{
    match choice {
        ImportChoice::Import => ImportStep::Import,
        ImportChoice::Skip => ImportStep::Skip,
        ImportChoice::Undecided => if is_terminal {
            ImportStep::Ask
        } else {
            ImportStep::NoTerminal
        },
    }
}

/// An answer, in lower case, that means yes.
pub open spec fn means_yes(lower: Seq<char>) -> bool {
    lower == "y"@ || lower == "yes"@
}

/// Does a line typed at a prompt mean yes? Everything but `y` and `yes` means no.
pub fn is_yes(line: &str) -> (r: bool)
    ensures
        r == means_yes(text::lowercase(text::trimmed(line@))),
        text::is_ascii(line@) ==> r == means_yes(text::ascii_lowered(text::trimmed(line@))),
{
    let t = text::trim(line);
    proof {
        if text::is_ascii(line@) {
            text::trimmed_keeps_ascii(line@);
        }
    }
    let answer = text::to_lowercase(t.as_str());
    text::same(answer.as_str(), "y") || text::same(answer.as_str(), "yes")
}

// ---------------------------------------------------------------------------
// Laws
// ---------------------------------------------------------------------------

proof fn import_line_stands_alone()
    ensures
        !import_line().contains('\n'),
        import_line().len() == 10,
        import_line().last() == 'd',
        text::trimmed(import_line()) == import_line(),
{
    reveal_strlit("@ENGRAM.md");
    let l = import_line();
    assert(!l.contains('\n')) by {
        if l.contains('\n') {
            let k = choose|k: int| 0 <= k < l.len() && l[k] == '\n';
            assert(l[k] != '\n');
        }
    }
    assert(text::trim_start(l) == l);
    assert(text::trim_end(l) == l);
}

/// The lines of a text that ends in a line feed, with the import behind it.
proof fn lines_with_import(c: Seq<char>)
    requires
        c.len() > 0,
        c.last() == '\n',
    ensures
        text::lines(c + import_line() + "\n"@) == text::lines(c).push(import_line()),
{
    reveal_strlit("\n");
    import_line_stands_alone();
    let l = import_line();
    let tail = l + "\n"@;
    let whole = c + l + "\n"@;
    assert(whole =~= c + tail);
    text::split_without_separator(l, '\n');
    assert(tail.drop_last() =~= l);
    assert(text::split(tail, '\n') =~= Seq::empty().push(l).push(Seq::empty()));
    text::split_behind_separator(c, tail, '\n');
    text::split_is_not_empty(c.drop_last(), '\n');
    let old_parts = text::split(c, '\n');
    let parts = text::split(whole, '\n');
    assert(parts.last().len() == 0);
    assert(parts.drop_last() =~= old_parts.drop_last().push(l));
    assert(text::without_cr(l) == l);
    assert(text::lines(whole) =~= text::lines(c).push(l));
}

/// Importing the guide twice does no more than importing it once.
pub proof fn import_is_idempotent(content: Option<Seq<char>>)
    ensures
        imported(content).1 matches Some(updated) ==> imported(Some(updated)) == (
            ImportOutcome::AlreadyPresent,
            None::<Seq<char>>,
        ),
{
    reveal_strlit("\n");
    import_line_stands_alone();
    let l = import_line();
    match content {
        None => {
            let whole = l + "\n"@;
            text::split_without_separator(l, '\n');
            assert(whole.drop_last() =~= l);
            assert(text::split(whole, '\n') =~= Seq::empty().push(l).push(Seq::empty()));
            assert(text::without_cr(l) == l);
            assert(text::lines(whole) =~= Seq::empty().push(l));
            assert(text::trimmed(text::lines(whole)[0]) == l);
        },
        Some(c) => {
            if !imports_guide(c) {
                lines_with_import(closed_line(c));
                let whole = closed_line(c) + l + "\n"@;
                let n = text::lines(closed_line(c)).len() as int;
                assert(text::trimmed(text::lines(whole)[n]) == l);
            }
        },
    }
}

/// An import that is appended is a line of its own behind the lines that were there.
/// A carriage return at the very end would become part of a line ending, and an empty
/// text becomes an empty line.
pub proof fn import_adds_one_line(c: Seq<char>)
    requires
        !imports_guide(c),
        c.len() > 0,
        c.last() != '\r',
    ensures
        imported(Some(c)).1 is Some,
        text::lines(imported(Some(c)).1->0) == text::lines(c).push(import_line()),
{
    lines_with_import(closed_line(c));
    if c.last() != '\n' {
        let parts = text::split(c, '\n');
        let closed = c.push('\n');
        assert(closed.drop_last() =~= c);
        assert(text::split(closed, '\n') =~= parts.push(Seq::empty()));
        text::split_is_not_empty(c.drop_last(), '\n');
        assert(parts.last().len() > 0 && parts.last().last() == c.last());
        assert(text::lines(closed) =~= text::lines(c));
    }
}

/// What was in the agents' rules stays in them.
pub proof fn import_keeps_content(c: Seq<char>)
    ensures
        imported(Some(c)).1 matches Some(updated) ==> text::starts_with(updated, c),
{
    if !imports_guide(c) {
        let updated = closed_line(c) + import_line() + "\n"@;
        assert(updated.subrange(0, c.len() as int) =~= c);
    }
}

} // verus!
