//! The command line: which command is to be run, and what each command decides.
use crate::text;
use vstd::prelude::*;

pub mod args;
pub mod commands;
pub mod guide;
pub mod search;
pub mod session;

verus! {

/// What `engram help` prints.
pub const USAGE: &'static str = "Usage: engram <command> [options]\n\nCommands:\n  search            Search memories\n  create-episodic   Create episodic memory\n  create-decision   Create decision memory\n  create-failure    Create failure memory\n  create-procedural Create procedural memory\n  ingest            Ingest git commits\n  collect           Collect bootstrap evidence from a project\n  recent-failures   List recent failures\n  decisions         List architectural decisions\n  timeline          Show project timeline\n  queries           Show popular search queries (retrieval feedback)\n  forget            Archive (soft-delete) a memory by id\n  restore           Un-archive a memory by id\n  update            Patch fields of a memory (--set key=value)\n  forget-batch      Archive memories by --tag/--before (dry-run; --apply to commit)\n  list-archived     List archived memories\n  gc                Garbage-collect archived memories + reclaim WAL space (dry-run; --apply)\n  consolidate       Find/merge duplicate memories (--near, --apply)\n  reflect           Propose preventive rules from recurring failures (dry-run; --apply)\n  suggestions       List pending reflection proposals awaiting confirmation\n  confirm-suggestion Promote a pending proposal into a searchable procedural memory\n  reject-suggestion Discard a pending proposal without creating a procedural memory\n  reindex           Backfill embeddings for existing memories (semantic build)\n  init              Initialize database\n  init-guide        Generate ENGRAM.md agent guide; optionally @import into the agents' rules file\n\nRun 'engram' with no arguments to start the MCP server (stdio).";

/// The commands.
#[derive(Clone, Copy, Debug, PartialEq, Eq, Structural)]
pub enum Command {
    Search,
    CreateEpisodic,
    CreateDecision,
    CreateFailure,
    CreateProcedural,
    Ingest,
    Collect,
    RecentFailures,
    Decisions,
    Timeline,
    Queries,
    Forget,
    Restore,
    Update,
    ForgetBatch,
    ListArchived,
    Gc,
    Consolidate,
    Reflect,
    Suggestions,
    ConfirmSuggestion,
    RejectSuggestion,
    Reindex,
    Init,
    InitGuide,
    Get,
    Maintain,
    SessionImport,
}

/// The name of a command.
pub open spec fn command_name(c: Command) -> Seq<char> {
    match c {
        Command::Search => "search"@,
        Command::CreateEpisodic => "create-episodic"@,
        Command::CreateDecision => "create-decision"@,
        Command::CreateFailure => "create-failure"@,
        Command::CreateProcedural => "create-procedural"@,
        Command::Ingest => "ingest"@,
        Command::Collect => "collect"@,
        Command::RecentFailures => "recent-failures"@,
        Command::Decisions => "decisions"@,
        Command::Timeline => "timeline"@,
        Command::Queries => "queries"@,
        Command::Forget => "forget"@,
        Command::Restore => "restore"@,
        Command::Update => "update"@,
        Command::ForgetBatch => "forget-batch"@,
        Command::ListArchived => "list-archived"@,
        Command::Gc => "gc"@,
        Command::Consolidate => "consolidate"@,
        Command::Reflect => "reflect"@,
        Command::Suggestions => "suggestions"@,
        Command::ConfirmSuggestion => "confirm-suggestion"@,
        Command::RejectSuggestion => "reject-suggestion"@,
        Command::Reindex => "reindex"@,
        Command::Init => "init"@,
        Command::InitGuide => "init-guide"@,
        Command::Get => "get"@,
        Command::Maintain => "maintain"@,
        Command::SessionImport => "session-import"@,
    }
}

/// The command that a name stands for.
pub open spec fn command_of(name: Seq<char>) -> Option<Command> {
    if name == "search"@ {
        Some(Command::Search)
    } else if name == "create-episodic"@ {
        Some(Command::CreateEpisodic)
    } else if name == "create-decision"@ {
        Some(Command::CreateDecision)
    } else if name == "create-failure"@ {
        Some(Command::CreateFailure)
    } else if name == "create-procedural"@ {
        Some(Command::CreateProcedural)
    } else if name == "ingest"@ {
        Some(Command::Ingest)
    } else if name == "collect"@ {
        Some(Command::Collect)
    } else if name == "recent-failures"@ {
        Some(Command::RecentFailures)
    } else if name == "decisions"@ {
        Some(Command::Decisions)
    } else if name == "timeline"@ {
        Some(Command::Timeline)
    } else if name == "queries"@ {
        Some(Command::Queries)
    } else if name == "forget"@ {
        Some(Command::Forget)
    } else if name == "restore"@ {
        Some(Command::Restore)
    } else if name == "update"@ {
        Some(Command::Update)
    } else if name == "forget-batch"@ {
        Some(Command::ForgetBatch)
    } else if name == "list-archived"@ {
        Some(Command::ListArchived)
    } else if name == "gc"@ {
        Some(Command::Gc)
    } else if name == "consolidate"@ {
        Some(Command::Consolidate)
    } else if name == "reflect"@ {
        Some(Command::Reflect)
    } else if name == "suggestions"@ {
        Some(Command::Suggestions)
    } else if name == "confirm-suggestion"@ {
        Some(Command::ConfirmSuggestion)
    } else if name == "reject-suggestion"@ {
        Some(Command::RejectSuggestion)
    } else if name == "reindex"@ {
        Some(Command::Reindex)
    } else if name == "init"@ {
        Some(Command::Init)
    } else if name == "init-guide"@ {
        Some(Command::InitGuide)
    } else if name == "get"@ {
        Some(Command::Get)
    } else if name == "maintain"@ {
        Some(Command::Maintain)
    } else if name == "session-import"@ {
        Some(Command::SessionImport)
    } else {
        None
    }
}

impl Command {
    /// The command with a name.
    pub fn from_name(name: &str) -> (r: Option<Command>)
        ensures
            r == command_of(name@),
    {
        if text::same(name, "search") {
            Some(Command::Search)
        } else if text::same(name, "create-episodic") {
            Some(Command::CreateEpisodic)
        } else if text::same(name, "create-decision") {
            Some(Command::CreateDecision)
        } else if text::same(name, "create-failure") {
            Some(Command::CreateFailure)
        } else if text::same(name, "create-procedural") {
            Some(Command::CreateProcedural)
        } else if text::same(name, "ingest") {
            Some(Command::Ingest)
        } else if text::same(name, "collect") {
            Some(Command::Collect)
        } else if text::same(name, "recent-failures") {
            Some(Command::RecentFailures)
        } else if text::same(name, "decisions") {
            Some(Command::Decisions)
        } else if text::same(name, "timeline") {
            Some(Command::Timeline)
        } else if text::same(name, "queries") {
            Some(Command::Queries)
        } else if text::same(name, "forget") {
            Some(Command::Forget)
        } else if text::same(name, "restore") {
            Some(Command::Restore)
        } else if text::same(name, "update") {
            Some(Command::Update)
        } else if text::same(name, "forget-batch") {
            Some(Command::ForgetBatch)
        } else if text::same(name, "list-archived") {
            Some(Command::ListArchived)
        } else if text::same(name, "gc") {
            Some(Command::Gc)
        } else if text::same(name, "consolidate") {
            Some(Command::Consolidate)
        } else if text::same(name, "reflect") {
            Some(Command::Reflect)
        } else if text::same(name, "suggestions") {
            Some(Command::Suggestions)
        } else if text::same(name, "confirm-suggestion") {
            Some(Command::ConfirmSuggestion)
        } else if text::same(name, "reject-suggestion") {
            Some(Command::RejectSuggestion)
        } else if text::same(name, "reindex") {
            Some(Command::Reindex)
        } else if text::same(name, "init") {
            Some(Command::Init)
        } else if text::same(name, "init-guide") {
            Some(Command::InitGuide)
        } else if text::same(name, "get") {
            Some(Command::Get)
        } else if text::same(name, "maintain") {
            Some(Command::Maintain)
        } else if text::same(name, "session-import") {
            Some(Command::SessionImport)
        } else {
            None
        }
    }
}

/// What a command line leads to.
#[derive(Debug)]
pub enum Dispatch {
    /// Print the usage.
    Usage,
    /// Run a command with the arguments behind its name.
    Run(Command, Vec<String>),
    /// Fail with a message.
    Unknown(String),
}

pub enum DispatchView {
    Usage,
    Run(Command, Seq<Seq<char>>),
    Unknown(Seq<char>),
}

impl View for Dispatch {
    type V = DispatchView;

    open spec fn view(&self) -> DispatchView {
        match *self {
            Dispatch::Usage => DispatchView::Usage,
            Dispatch::Run(c, rest) => DispatchView::Run(c, text::texts(rest@)),
            Dispatch::Unknown(e) => DispatchView::Unknown(e@),
        }
    }
}

pub open spec fn asks_for_help(name: Seq<char>) -> bool {
    name == "help"@ || name == "--help"@ || name == "-h"@
}

/// What arguments lead to.
pub open spec fn dispatched(args: Seq<Seq<char>>) -> DispatchView {
    if args.len() == 0 || asks_for_help(args[0]) {
        DispatchView::Usage
    } else {
        match command_of(args[0]) {
            Some(c) => DispatchView::Run(c, args.skip(1)),
            None => DispatchView::Unknown(
                "Unknown command: "@ + args[0] + "\nRun 'engram help' for usage."@,
            ),
        }
    }
}

/// Find out what the arguments ask for. Without any, the usage is printed.
pub fn run(args: &Vec<String>) -> (r: Dispatch)
    ensures
        r@ == dispatched(text::texts(args@)),
{
    if args.len() == 0 {
        return Dispatch::Usage;
    }
    let ghost all = text::texts(args@);
    let name = args[0].as_str();
    assert(all[0] == name@);
    if text::same(name, "help") || text::same(name, "--help") || text::same(name, "-h") {
        return Dispatch::Usage;
    }
    match Command::from_name(name) {
        Some(c) => {
            let mut rest = text::copy_list(args);
            assert(text::texts(rest@).len() == all.len());
            rest.remove(0);
            assert(text::texts(rest@) =~= all.skip(1));
            Dispatch::Run(c, rest)
        },
        None => {
            let mut e = "Unknown command: ".to_owned();
            e.append(name);
            e.append("\nRun 'engram help' for usage.");
            Dispatch::Unknown(e)
        },
    }
}

/// Reading back the name of a command gives that command, and no command hides behind
/// a request for help.
pub proof fn command_name_reads_back(c: Command)
    ensures
        command_of(command_name(c)) == Some(c),
        !asks_for_help(command_name(c)),
{
    reveal_strlit("gc");
    reveal_strlit("get");
    reveal_strlit("init");
    reveal_strlit("forget");
    reveal_strlit("ingest");
    reveal_strlit("search");
    reveal_strlit("update");
    reveal_strlit("collect");
    reveal_strlit("queries");
    reveal_strlit("reflect");
    reveal_strlit("reindex");
    reveal_strlit("restore");
    reveal_strlit("maintain");
    reveal_strlit("timeline");
    reveal_strlit("decisions");
    reveal_strlit("init-guide");
    reveal_strlit("consolidate");
    reveal_strlit("suggestions");
    reveal_strlit("forget-batch");
    reveal_strlit("list-archived");
    reveal_strlit("create-failure");
    reveal_strlit("session-import");
    reveal_strlit("create-decision");
    reveal_strlit("create-episodic");
    reveal_strlit("recent-failures");
    reveal_strlit("create-procedural");
    reveal_strlit("reject-suggestion");
    reveal_strlit("confirm-suggestion");
    reveal_strlit("help");
    reveal_strlit("--help");
    reveal_strlit("-h");
    assert("gc"@.len() == 2);
    assert("get"@.len() == 3);
    assert("init"@.len() == 4);
    assert("forget"@.len() == 6);
    assert("ingest"@.len() == 6);
    assert("search"@.len() == 6);
    assert("update"@.len() == 6);
    assert("collect"@.len() == 7);
    assert("queries"@.len() == 7);
    assert("reflect"@.len() == 7);
    assert("reindex"@.len() == 7);
    assert("restore"@.len() == 7);
    assert("maintain"@.len() == 8);
    assert("timeline"@.len() == 8);
    assert("decisions"@.len() == 9);
    assert("init-guide"@.len() == 10);
    assert("consolidate"@.len() == 11);
    assert("suggestions"@.len() == 11);
    assert("forget-batch"@.len() == 12);
    assert("list-archived"@.len() == 13);
    assert("create-failure"@.len() == 14);
    assert("session-import"@.len() == 14);
    assert("create-decision"@.len() == 15);
    assert("create-episodic"@.len() == 15);
    assert("recent-failures"@.len() == 15);
    assert("create-procedural"@.len() == 17);
    assert("reject-suggestion"@.len() == 17);
    assert("confirm-suggestion"@.len() == 18);
    assert("help"@.len() == 4);
    assert("--help"@.len() == 6);
    assert("-h"@.len() == 2);
    assert("gc"@[0] != "-h"@[0]);
    assert("init"@[0] != "help"@[0]);
    assert("forget"@[0] != "ingest"@[0]);
    assert("forget"@[0] != "search"@[0]);
    assert("forget"@[0] != "update"@[0]);
    assert("forget"@[0] != "--help"@[0]);
    assert("ingest"@[0] != "search"@[0]);
    assert("ingest"@[0] != "update"@[0]);
    assert("ingest"@[0] != "--help"@[0]);
    assert("search"@[0] != "update"@[0]);
    assert("search"@[0] != "--help"@[0]);
    assert("update"@[0] != "--help"@[0]);
    assert("collect"@[0] != "queries"@[0]);
    assert("collect"@[0] != "reflect"@[0]);
    assert("collect"@[0] != "reindex"@[0]);
    assert("collect"@[0] != "restore"@[0]);
    assert("queries"@[0] != "reflect"@[0]);
    assert("queries"@[0] != "reindex"@[0]);
    assert("queries"@[0] != "restore"@[0]);
    assert("reflect"@[2] != "reindex"@[2]);
    assert("reflect"@[2] != "restore"@[2]);
    assert("reindex"@[2] != "restore"@[2]);
    assert("maintain"@[0] != "timeline"@[0]);
    assert("consolidate"@[0] != "suggestions"@[0]);
    assert("create-failure"@[0] != "session-import"@[0]);
    assert("create-decision"@[7] != "create-episodic"@[7]);
    assert("create-decision"@[0] != "recent-failures"@[0]);
    assert("create-episodic"@[0] != "recent-failures"@[0]);
    assert("create-procedural"@[0] != "reject-suggestion"@[0]);
}

/// A command runs with all the arguments behind its name; a name that is none is refused,
/// and without any, or for help, the usage is shown.
pub proof fn commands_get_their_arguments(c: Command, rest: Seq<Seq<char>>, other: Seq<char>)
    ensures
        dispatched(seq![command_name(c)] + rest) == DispatchView::Run(c, rest),
        dispatched(Seq::<Seq<char>>::empty()) == DispatchView::Usage,
        dispatched(seq!["help"@] + rest) == DispatchView::Usage,
        command_of(other) is None && !asks_for_help(other) ==> dispatched(
            seq![other] + rest,
        ) is Unknown,
{
    command_name_reads_back(c);
    assert((seq![command_name(c)] + rest).skip(1) =~= rest);
}

} // verus!
