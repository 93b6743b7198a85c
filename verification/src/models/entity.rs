use crate::text;
use std::str::FromStr;
use vstd::prelude::*;

verus! {

/// Entity types in the engineering topology graph.
#[derive(Clone, Copy, Debug, PartialEq, Eq, Hash, Structural)]
pub enum EntityType {
    File,
    Function,
    Module,
    Service,
    Commit,
    PullRequest,
    Bug,
    Incident,
}

/// The stored name of an entity type.
pub open spec fn entity_name(t: EntityType) -> Seq<char> {
    match t {
        EntityType::File => "File"@,
        EntityType::Function => "Function"@,
        EntityType::Module => "Module"@,
        EntityType::Service => "Service"@,
        EntityType::Commit => "Commit"@,
        EntityType::PullRequest => "PullRequest"@,
        EntityType::Bug => "Bug"@,
        EntityType::Incident => "Incident"@,
    }
}

/// What a stored name stands for.
pub open spec fn entity_of(name: Seq<char>) -> Option<EntityType> {
    if name == "File"@ {
        Some(EntityType::File)
    } else if name == "Function"@ {
        Some(EntityType::Function)
    } else if name == "Module"@ {
        Some(EntityType::Module)
    } else if name == "Service"@ {
        Some(EntityType::Service)
    } else if name == "Commit"@ {
        Some(EntityType::Commit)
    } else if name == "PullRequest"@ {
        Some(EntityType::PullRequest)
    } else if name == "Bug"@ {
        Some(EntityType::Bug)
    } else if name == "Incident"@ {
        Some(EntityType::Incident)
    } else {
        None
    }
}

/// Reading back a stored name gives the EntityType that it was made from.
pub proof fn entity_name_reads_back(t: EntityType)
    ensures
        entity_of(entity_name(t)) == Some(t),
{
    reveal_strlit("File");
    reveal_strlit("Function");
    reveal_strlit("Module");
    reveal_strlit("Service");
    reveal_strlit("Commit");
    reveal_strlit("PullRequest");
    reveal_strlit("Bug");
    reveal_strlit("Incident");
    assert("File"@.len() == 4);
    assert("Function"@.len() == 8);
    assert("Module"@.len() == 6);
    assert("Service"@.len() == 7);
    assert("Commit"@.len() == 6);
    assert("PullRequest"@.len() == 11);
    assert("Bug"@.len() == 3);
    assert("Incident"@.len() == 8);
    assert("Commit"@[0] != "Module"@[0]);
    assert("Incident"@[0] != "Function"@[0]);
}

impl EntityType {
    pub fn as_str(&self) -> (r: &'static str)
        ensures
            r@ == entity_name(*self),
    {
        match self {
            EntityType::File => "File",
            EntityType::Function => "Function",
            EntityType::Module => "Module",
            EntityType::Service => "Service",
            EntityType::Commit => "Commit",
            EntityType::PullRequest => "PullRequest",
            EntityType::Bug => "Bug",
            EntityType::Incident => "Incident",
        }
    }

    /// The EntityType with a stored name; otherwise the message of the error.
    pub fn parse(s: &str) -> (r: Result<EntityType, String>)
        ensures
            match r {
                Ok(t) => entity_of(s@) == Some(t),
                Err(e) => entity_of(s@) is None && e@ == "unknown entity type: "@ + s@,
            },
    {
        if text::same(s, "File") {
            Ok(EntityType::File)
        } else if text::same(s, "Function") {
            Ok(EntityType::Function)
        } else if text::same(s, "Module") {
            Ok(EntityType::Module)
        } else if text::same(s, "Service") {
            Ok(EntityType::Service)
        } else if text::same(s, "Commit") {
            Ok(EntityType::Commit)
        } else if text::same(s, "PullRequest") {
            Ok(EntityType::PullRequest)
        } else if text::same(s, "Bug") {
            Ok(EntityType::Bug)
        } else if text::same(s, "Incident") {
            Ok(EntityType::Incident)
        } else {
            let mut e = "unknown entity type: ".to_owned();
            e.append(s);
            Err(e)
        }
    }
}

impl FromStr for EntityType {
    type Err = String;

    fn from_str(s: &str) -> (r: Result<Self, Self::Err>)
        ensures
            match r {
                Ok(t) => entity_of(s@) == Some(t),
                Err(e) => entity_of(s@) is None && e@ == "unknown entity type: "@ + s@,
            },
    {
        EntityType::parse(s)
    }
}

/// Relation types between entities.
#[derive(Clone, Copy, Debug, PartialEq, Eq, Hash, Structural)]
pub enum RelationType {
    DependsOn,
    Calls,
    FixedBy,
    IntroducedBy,
    RelatedTo,
    References,
}

/// The stored name of a relation type.
pub open spec fn relation_name(t: RelationType) -> Seq<char> {
    match t {
        RelationType::DependsOn => "DependsOn"@,
        RelationType::Calls => "Calls"@,
        RelationType::FixedBy => "FixedBy"@,
        RelationType::IntroducedBy => "IntroducedBy"@,
        RelationType::RelatedTo => "RelatedTo"@,
        RelationType::References => "References"@,
    }
}

/// What a stored name stands for.
pub open spec fn relation_of(name: Seq<char>) -> Option<RelationType> {
    if name == "DependsOn"@ {
        Some(RelationType::DependsOn)
    } else if name == "Calls"@ {
        Some(RelationType::Calls)
    } else if name == "FixedBy"@ {
        Some(RelationType::FixedBy)
    } else if name == "IntroducedBy"@ {
        Some(RelationType::IntroducedBy)
    } else if name == "RelatedTo"@ {
        Some(RelationType::RelatedTo)
    } else if name == "References"@ {
        Some(RelationType::References)
    } else {
        None
    }
}

/// Reading back a stored name gives the RelationType that it was made from.
pub proof fn relation_name_reads_back(t: RelationType)
    ensures
        relation_of(relation_name(t)) == Some(t),
{
    reveal_strlit("DependsOn");
    reveal_strlit("Calls");
    reveal_strlit("FixedBy");
    reveal_strlit("IntroducedBy");
    reveal_strlit("RelatedTo");
    reveal_strlit("References");
    assert("DependsOn"@.len() == 9);
    assert("Calls"@.len() == 5);
    assert("FixedBy"@.len() == 7);
    assert("IntroducedBy"@.len() == 12);
    assert("RelatedTo"@.len() == 9);
    assert("References"@.len() == 10);
    assert("RelatedTo"@[0] != "DependsOn"@[0]);
}

impl RelationType {
    pub fn as_str(&self) -> (r: &'static str)
        ensures
            r@ == relation_name(*self),
    {
        match self {
            RelationType::DependsOn => "DependsOn",
            RelationType::Calls => "Calls",
            RelationType::FixedBy => "FixedBy",
            RelationType::IntroducedBy => "IntroducedBy",
            RelationType::RelatedTo => "RelatedTo",
            RelationType::References => "References",
        }
    }

    /// The RelationType with a stored name; otherwise the message of the error.
    pub fn parse(s: &str) -> (r: Result<RelationType, String>)
        ensures
            match r {
                Ok(t) => relation_of(s@) == Some(t),
                Err(e) => relation_of(s@) is None && e@ == "unknown relation type: "@ + s@,
            },
    {
        if text::same(s, "DependsOn") {
            Ok(RelationType::DependsOn)
        } else if text::same(s, "Calls") {
            Ok(RelationType::Calls)
        } else if text::same(s, "FixedBy") {
            Ok(RelationType::FixedBy)
        } else if text::same(s, "IntroducedBy") {
            Ok(RelationType::IntroducedBy)
        } else if text::same(s, "RelatedTo") {
            Ok(RelationType::RelatedTo)
        } else if text::same(s, "References") {
            Ok(RelationType::References)
        } else {
            let mut e = "unknown relation type: ".to_owned();
            e.append(s);
            Err(e)
        }
    }
}

impl FromStr for RelationType {
    type Err = String;

    fn from_str(s: &str) -> (r: Result<Self, Self::Err>)
        ensures
            match r {
                Ok(t) => relation_of(s@) == Some(t),
                Err(e) => relation_of(s@) is None && e@ == "unknown relation type: "@ + s@,
            },
    {
        RelationType::parse(s)
    }
}

/// An entity in the relationship graph. `metadata` is JSON text.
#[derive(Clone, Debug)]
pub struct Entity {
    pub id: String,
    pub project_id: String,
    pub entity_type: EntityType,
    pub name: String,
    pub metadata: String,
    pub created_at: i64,
    pub updated_at: i64,
}

/// A relation between two entities in the graph. `weight` holds the bits of a
/// 64-bit IEEE 754 number.
#[derive(Clone, Debug)]
pub struct GraphRelation {
    pub id: i64,
    pub project_id: Option<String>,
    pub from_entity: String,
    pub to_entity: String,
    pub relation_type: RelationType,
    pub weight: u64,
    pub created_at: i64,
}

} // verus!
