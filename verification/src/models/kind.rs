use crate::text;
use vstd::prelude::*;

verus! {

/// The four kinds of memory.
#[derive(Clone, Copy, Debug, PartialEq, Eq, Structural)]
pub enum MemoryKind {
    Episodic,
    Decision,
    Failure,
    Procedural,
}

/// The name of a kind, as it is stored and typed.
pub open spec fn kind_name(kind: MemoryKind) -> Seq<char> {
    match kind {
        MemoryKind::Episodic => "episodic"@,
        MemoryKind::Decision => "decision"@,
        MemoryKind::Failure => "failure"@,
        MemoryKind::Procedural => "procedural"@,
    }
}

/// The kind that a name stands for.
pub open spec fn kind_of(name: Seq<char>) -> Option<MemoryKind> {
    if name == "episodic"@ {
        Some(MemoryKind::Episodic)
    } else if name == "decision"@ {
        Some(MemoryKind::Decision)
    } else if name == "failure"@ {
        Some(MemoryKind::Failure)
    } else if name == "procedural"@ {
        Some(MemoryKind::Procedural)
    } else {
        None
    }
}

/// All kinds, in their fixed order.
pub open spec fn all_kinds() -> Seq<MemoryKind> {
    seq![
        MemoryKind::Episodic,
        MemoryKind::Decision,
        MemoryKind::Failure,
        MemoryKind::Procedural,
    ]
}

/// Reading back the name of a kind gives that kind.
pub proof fn kind_name_reads_back(kind: MemoryKind)
    ensures
        kind_of(kind_name(kind)) == Some(kind),
{
    reveal_strlit("episodic");
    reveal_strlit("decision");
    reveal_strlit("failure");
    reveal_strlit("procedural");
    assert("episodic"@.len() == 8);
    assert("decision"@.len() == 8);
    assert("episodic"@[0] != "decision"@[0]);
    assert("failure"@.len() == 7);
    assert("procedural"@.len() == 10);
}

impl MemoryKind {
    pub fn as_str(&self) -> (r: &'static str)
        ensures
            r@ == kind_name(*self),
    {
        match self {
            MemoryKind::Episodic => "episodic",
            MemoryKind::Decision => "decision",
            MemoryKind::Failure => "failure",
            MemoryKind::Procedural => "procedural",
        }
    }

    /// The kind with the name `s`; `None` for a text that names none.
    pub fn from_type_str(s: &str) -> (r: Option<MemoryKind>)
        ensures
            r == kind_of(s@),
    {
        if text::same(s, "episodic") {
            Some(MemoryKind::Episodic)
        } else if text::same(s, "decision") {
            Some(MemoryKind::Decision)
        } else if text::same(s, "failure") {
            Some(MemoryKind::Failure)
        } else if text::same(s, "procedural") {
            Some(MemoryKind::Procedural)
        } else {
            None
        }
    }

    pub fn all() -> (r: Vec<MemoryKind>)
        ensures
            r@ == all_kinds(),
    {
        vec![
            MemoryKind::Episodic,
            MemoryKind::Decision,
            MemoryKind::Failure,
            MemoryKind::Procedural,
        ]
    }
}

/// The kinds that an optional type stands for: all of them where it is missing.
pub open spec fn kinds_for(memory_type: Option<Seq<char>>) -> Result<Seq<MemoryKind>, Seq<char>> {
    match memory_type {
        None => Ok(all_kinds()),
        Some(s) => match kind_of(s) {
            Some(k) => Ok(Seq::empty().push(k)),
            None => Err("unknown memory type: "@ + s),
        },
    }
}

pub open spec fn kinds_result(r: Result<Vec<MemoryKind>, String>) -> Result<
    Seq<MemoryKind>,
    Seq<char>,
> {
    match r {
        Ok(v) => Ok(v@),
        Err(e) => Err(e@),
    }
}

/// The kind that a type stands for, or the message that there is none.
pub fn resolve_kind(memory_type: &str) -> (r: Result<MemoryKind, String>)
    ensures
        match r {
            Ok(k) => kind_of(memory_type@) == Some(k),
            Err(e) => kind_of(memory_type@) is None && e@ == "unknown memory type: "@
                + memory_type@,
        },
{
    match MemoryKind::from_type_str(memory_type) {
        Some(k) => Ok(k),
        None => {
            let mut e = "unknown memory type: ".to_owned();
            e.append(memory_type);
            Err(e)
        },
    }
}

/// Resolve an optional type into the kinds to operate on.
pub fn resolve_kinds(memory_type: Option<&str>) -> (r: Result<Vec<MemoryKind>, String>)
    ensures
        kinds_result(r) == kinds_for(text::opt_str(memory_type)),
{
    match memory_type {
        None => Ok(MemoryKind::all()),
        Some(s) => match resolve_kind(s) {
            Ok(k) => {
                let v = vec![k];
                assert(v@ =~= Seq::empty().push(k));
                Ok(v)
            },
            Err(e) => Err(e),
        },
    }
}

/// Without a type all kinds are meant, with one just the kind of that name, and a name
/// that is none is refused.
pub proof fn types_stand_for_kinds(kind: MemoryKind, other: Seq<char>)
    ensures
        kinds_for(None) == Ok::<Seq<MemoryKind>, Seq<char>>(all_kinds()),
        all_kinds().contains(kind),
        all_kinds().len() == 4,
        kinds_for(Some(kind_name(kind))) == Ok::<Seq<MemoryKind>, Seq<char>>(seq![kind]),
        kind_of(other) is None ==> kinds_for(Some(other)) is Err,
{
    kind_name_reads_back(kind);
    let all = all_kinds();
    assert(all[0] == MemoryKind::Episodic && all[1] == MemoryKind::Decision);
    assert(all[2] == MemoryKind::Failure && all[3] == MemoryKind::Procedural);
    assert(Seq::empty().push(kind) =~= seq![kind]);
}

} // verus!
