use crate::models::MemoryIntent;
use vstd::prelude::*;

verus! {

/// Memory sources available for retrieval.
#[derive(Clone, Copy, Debug, PartialEq, Eq, PartialOrd, Ord, Structural)]
pub enum MemorySource {
    Episodic,
    Decision,
    Failure,
    Procedural,
}

/// The name of a source, as storage and full-text search use it.
pub open spec fn source_name(source: MemorySource) -> Seq<char> {
    match source {
        MemorySource::Episodic => "episodic"@,
        MemorySource::Decision => "decision"@,
        MemorySource::Failure => "failure"@,
        MemorySource::Procedural => "procedural"@,
    }
}

/// All four sources, in canonical order.
pub open spec fn all_sources() -> Seq<MemorySource> {
    seq![
        MemorySource::Episodic,
        MemorySource::Decision,
        MemorySource::Failure,
        MemorySource::Procedural,
    ]
}

/// The sources that one intent asks for.
pub open spec fn wants(intent: MemoryIntent, source: MemorySource) -> bool {
    match intent {
        MemoryIntent::Debugging => source == MemorySource::Failure || source
            == MemorySource::Episodic,
        MemoryIntent::Architecture => source == MemorySource::Decision || source
            == MemorySource::Episodic,
        MemoryIntent::Workflow => source == MemorySource::Procedural || source
            == MemorySource::Episodic,
        MemoryIntent::Refactor => source == MemorySource::Decision || source
            == MemorySource::Episodic,
        MemoryIntent::Deployment => source == MemorySource::Procedural || source
            == MemorySource::Episodic || source == MemorySource::Failure,
        MemoryIntent::Incident => source == MemorySource::Failure || source
            == MemorySource::Episodic,
        MemoryIntent::General => true,
    }
}

/// Some intent asks for the source.
pub open spec fn asked_for(intents: Seq<MemoryIntent>, source: MemorySource) -> bool {
    exists|i: int| 0 <= i < intents.len() && wants(#[trigger] intents[i], source)
}

/// The least relevance weight under an intent, in hundredths.
pub open spec fn relevance_floor(intent: MemoryIntent) -> int {
    match intent {
        MemoryIntent::Debugging => 60,
        MemoryIntent::Architecture => 60,
        MemoryIntent::Workflow => 55,
        MemoryIntent::Refactor => 55,
        MemoryIntent::Deployment => 55,
        MemoryIntent::Incident => 65,
        MemoryIntent::General => 0,
    }
}

/// The least recency weight under an intent, in hundredths.
pub open spec fn recency_floor(intent: MemoryIntent) -> int {
    match intent {
        MemoryIntent::Workflow => 25,
        MemoryIntent::Deployment => 30,
        _ => 0,
    }
}

/// The strongest of the floors that the intents set.
pub open spec fn strongest(intents: Seq<MemoryIntent>, floor: spec_fn(MemoryIntent) -> int) -> int
    decreases intents.len(),
{
    if intents.len() == 0 {
        0
    } else {
        let before = strongest(intents.drop_last(), floor);
        if floor(intents.last()) > before {
            floor(intents.last())
        } else {
            before
        }
    }
}

impl MemorySource {
    pub fn as_str(&self) -> (r: &'static str)
        ensures
            r@ == source_name(*self),
    {
        match self {
            MemorySource::Episodic => "episodic",
            MemorySource::Decision => "decision",
            MemorySource::Failure => "failure",
            MemorySource::Procedural => "procedural",
        }
    }

    /// All four sources, in canonical order.
    pub fn all() -> (r: Vec<MemorySource>)
        ensures
            r@ == all_sources(),
    {
        vec![
            MemorySource::Episodic,
            MemorySource::Decision,
            MemorySource::Failure,
            MemorySource::Procedural,
        ]
    }
}

/// Which memory sources the intents of a query speak of, and how far the query raises the weights of the
/// ranking signals that depend on it. The floors are hundredths; a weight below its
/// floor is raised to it, and the weights of importance and memory type are never
/// raised.
#[derive(Clone, Debug)]
pub struct RetrievalPlan {
    pub sources: Vec<MemorySource>,
    pub relevance_floor: u32,
    pub recency_floor: u32,
}

/// Retrieval planner that selects memory sources and weight floors by intent.
pub struct RetrievalPlanner;

/// The sources of a plan, in canonical order and each once.
pub open spec fn planned_sources(intents: Seq<MemoryIntent>) -> Seq<MemorySource> {
    all_sources().filter(|s: MemorySource| asked_for(intents, s))
}

impl RetrievalPlanner {
    pub fn new() -> Self {
        RetrievalPlanner
    }

    /// The plan for the classified intents.
    pub fn plan(&self, intents: &[MemoryIntent]) -> (r: RetrievalPlan)
        ensures
            r.sources@ == planned_sources(intents@),
            r.relevance_floor == strongest(intents@, |m: MemoryIntent| relevance_floor(m)),
            r.recency_floor == strongest(intents@, |m: MemoryIntent| recency_floor(m)),
    {
        let mut episodic = false;
        let mut decision = false;
        let mut failure = false;
        let mut procedural = false;
        let mut relevance: u32 = 0;
        let mut recency: u32 = 0;
        let mut i: usize = 0;
        let ghost rel = |m: MemoryIntent| relevance_floor(m);
        let ghost rec = |m: MemoryIntent| recency_floor(m);
        while i < intents.len()
            invariant
                i <= intents@.len(),
                rel == (|m: MemoryIntent| relevance_floor(m)),
                rec == (|m: MemoryIntent| recency_floor(m)),
                episodic == asked_for(intents@.take(i as int), MemorySource::Episodic),
                decision == asked_for(intents@.take(i as int), MemorySource::Decision),
                failure == asked_for(intents@.take(i as int), MemorySource::Failure),
                procedural == asked_for(intents@.take(i as int), MemorySource::Procedural),
                relevance == strongest(intents@.take(i as int), rel),
                recency == strongest(intents@.take(i as int), rec),
            decreases intents@.len() - i,
        {
            let intent = intents[i];
            let (least, least_recency): (u32, u32) = match intent {
                MemoryIntent::Debugging => {
                    failure = true;
                    episodic = true;
                    (60, 0)
                },
                MemoryIntent::Architecture => {
                    decision = true;
                    episodic = true;
                    (60, 0)
                },
                MemoryIntent::Workflow => {
                    procedural = true;
                    episodic = true;
                    (55, 25)
                },
                MemoryIntent::Refactor => {
                    decision = true;
                    episodic = true;
                    (55, 0)
                },
                MemoryIntent::Deployment => {
                    procedural = true;
                    episodic = true;
                    failure = true;
                    (55, 30)
                },
                MemoryIntent::Incident => {
                    failure = true;
                    episodic = true;
                    (65, 0)
                },
                MemoryIntent::General => {
                    episodic = true;
                    decision = true;
                    failure = true;
                    procedural = true;
                    (0, 0)
                },
            };
            if least > relevance {
                relevance = least;
            }
            if least_recency > recency {
                recency = least_recency;
            }
            proof {
                let now = intents@.take(i + 1);
                assert(now.drop_last() =~= intents@.take(i as int));
                assert(now.last() == intent);
                asked_for_one_more(now, MemorySource::Episodic);
                asked_for_one_more(now, MemorySource::Decision);
                asked_for_one_more(now, MemorySource::Failure);
                asked_for_one_more(now, MemorySource::Procedural);
            }
            i = i + 1;
        }
        assert(intents@.take(i as int) =~= intents@);
        let mut sources: Vec<MemorySource> = Vec::new();
        if episodic {
            sources.push(MemorySource::Episodic);
        }
        if decision {
            sources.push(MemorySource::Decision);
        }
        if failure {
            sources.push(MemorySource::Failure);
        }
        if procedural {
            sources.push(MemorySource::Procedural);
        }
        proof {
            let f = |s: MemorySource| asked_for(intents@, s);
            let all = all_sources();
            let three = seq![MemorySource::Episodic, MemorySource::Decision, MemorySource::Failure];
            let two = seq![MemorySource::Episodic, MemorySource::Decision];
            let one = seq![MemorySource::Episodic];
            assert(all.drop_last() =~= three);
            assert(three.drop_last() =~= two);
            assert(two.drop_last() =~= one);
            assert(one.drop_last() =~= Seq::<MemorySource>::empty());
            reveal_with_fuel(Seq::filter, 5);
            assert(sources@ =~= all.filter(f));
        }
        RetrievalPlan { sources, relevance_floor: relevance, recency_floor: recency }
    }
}

proof fn asked_for_one_more(intents: Seq<MemoryIntent>, source: MemorySource)
    requires
        intents.len() > 0,
    ensures
        asked_for(intents, source) == (asked_for(intents.drop_last(), source) || wants(
            intents.last(),
            source,
        )),
{
    if asked_for(intents.drop_last(), source) {
        let i = choose|i: int|
            0 <= i < intents.drop_last().len() && wants(
                #[trigger] intents.drop_last()[i],
                source,
            );
        assert(wants(intents[i], source));
    }
    if wants(intents.last(), source) {
        assert(wants(intents[intents.len() - 1], source));
    }
    if asked_for(intents, source) {
        let i = choose|i: int| 0 <= i < intents.len() && wants(#[trigger] intents[i], source);
        if i < intents.len() - 1 {
            assert(intents.drop_last()[i] == intents[i]);
        }
    }
}

/// A source is in the plan exactly where some intent asks for it.
pub proof fn plan_holds_what_is_asked_for(intents: Seq<MemoryIntent>, source: MemorySource)
    ensures
        planned_sources(intents).contains(source) <==> asked_for(intents, source),
{
    let f = |s: MemorySource| asked_for(intents, s);
    broadcast use vstd::seq_lib::group_filter_ensures;

    let at = match source {
        MemorySource::Episodic => 0int,
        MemorySource::Decision => 1int,
        MemorySource::Failure => 2int,
        MemorySource::Procedural => 3int,
    };
    assert(all_sources()[at] == source);
    if asked_for(intents, source) {
        assert(all_sources().filter(f).contains(all_sources()[at]));
    }
    if planned_sources(intents).contains(source) {
        let i = choose|i: int|
            0 <= i < planned_sources(intents).len() && planned_sources(intents)[i] == source;
        assert(f(all_sources().filter(f)[i]));
    }
}

/// More intents never drop a source nor lower a floor.
pub proof fn more_intents_only_add(
    intents: Seq<MemoryIntent>,
    more: Seq<MemoryIntent>,
    source: MemorySource,
)
    ensures
        planned_sources(intents).contains(source) ==> planned_sources(intents + more).contains(
            source,
        ),
        strongest(intents, |m: MemoryIntent| relevance_floor(m)) <= strongest(
            intents + more,
            |m: MemoryIntent| relevance_floor(m),
        ),
        strongest(intents, |m: MemoryIntent| recency_floor(m)) <= strongest(
            intents + more,
            |m: MemoryIntent| recency_floor(m),
        ),
{
    plan_holds_what_is_asked_for(intents, source);
    plan_holds_what_is_asked_for(intents + more, source);
    if asked_for(intents, source) {
        let i = choose|i: int| 0 <= i < intents.len() && wants(#[trigger] intents[i], source);
        assert((intents + more)[i] == intents[i]);
    }
    strongest_grows(intents, more, |m: MemoryIntent| relevance_floor(m));
    strongest_grows(intents, more, |m: MemoryIntent| recency_floor(m));
}

proof fn strongest_grows(
    intents: Seq<MemoryIntent>,
    more: Seq<MemoryIntent>,
    floor: spec_fn(MemoryIntent) -> int,
)
    ensures
        strongest(intents, floor) <= strongest(intents + more, floor),
    decreases more.len(),
{
    if more.len() == 0 {
        assert(intents + more =~= intents);
    } else {
        assert((intents + more).drop_last() =~= intents + more.drop_last());
        strongest_grows(intents, more.drop_last(), floor);
    }
}

/// A query about anything in general reads every source.
pub proof fn general_reads_everything(intents: Seq<MemoryIntent>)
    requires
        intents.contains(MemoryIntent::General),
    ensures
        planned_sources(intents) == all_sources(),
{
    let i = choose|i: int| 0 <= i < intents.len() && intents[i] == MemoryIntent::General;
    assert forall|s: MemorySource| asked_for(intents, s) by {
        assert(wants(intents[i], s));
    }
    let all = all_sources();
    let three = seq![MemorySource::Episodic, MemorySource::Decision, MemorySource::Failure];
    let two = seq![MemorySource::Episodic, MemorySource::Decision];
    let one = seq![MemorySource::Episodic];
    assert(all.drop_last() =~= three);
    assert(three.drop_last() =~= two);
    assert(two.drop_last() =~= one);
    assert(one.drop_last() =~= Seq::<MemorySource>::empty());
    reveal_with_fuel(Seq::filter, 5);
    assert(planned_sources(intents) =~= all);
}

/// The strongest floor is at least that of every intent, and is one of them or none.
pub proof fn the_strongest_floor_counts(
    intents: Seq<MemoryIntent>,
    floor: spec_fn(MemoryIntent) -> int,
)
    ensures
        strongest(intents, floor) >= 0,
        forall|i: int|
            0 <= i < intents.len() ==> floor(#[trigger] intents[i]) <= strongest(intents, floor),
        strongest(intents, floor) == 0 || exists|i: int|
            0 <= i < intents.len() && floor(#[trigger] intents[i]) == strongest(intents, floor),
    decreases intents.len(),
{
    if intents.len() > 0 {
        let rest = intents.drop_last();
        let n = intents.len() - 1;
        the_strongest_floor_counts(rest, floor);
        assert(intents[n] == intents.last());
        assert forall|i: int| 0 <= i < intents.len() implies floor(#[trigger] intents[i])
            <= strongest(intents, floor) by {
            if i < n {
                assert(rest[i] == intents[i]);
            }
        }
        if strongest(intents, floor) != 0 {
            if floor(intents[n]) == strongest(intents, floor) {
                assert(exists|i: int|
                    0 <= i < intents.len() && floor(#[trigger] intents[i]) == strongest(
                        intents,
                        floor,
                    ));
            } else {
                let i = choose|i: int|
                    0 <= i < rest.len() && floor(#[trigger] rest[i]) == strongest(rest, floor);
                assert(floor(intents[i]) == strongest(intents, floor));
            }
        }
    }
}

/// Every intent but the general one raises the weight of relevance above one half, an
/// incident the most; only workflows and deployments raise that of recency.
pub proof fn intents_raise_relevance(intent: MemoryIntent)
    ensures
        intent == MemoryIntent::General ==> relevance_floor(intent) == 0,
        intent != MemoryIntent::General ==> 55 <= relevance_floor(intent) <= relevance_floor(
            MemoryIntent::Incident,
        ) == 65,
        intent == MemoryIntent::Debugging || intent == MemoryIntent::Architecture
            ==> relevance_floor(intent) == 60,
        intent == MemoryIntent::Workflow || intent == MemoryIntent::Refactor || intent
            == MemoryIntent::Deployment ==> relevance_floor(intent) == 55,
        recency_floor(MemoryIntent::Workflow) == 25,
        recency_floor(MemoryIntent::Deployment) == 30,
        intent != MemoryIntent::Workflow && intent != MemoryIntent::Deployment ==> recency_floor(
            intent,
        ) == 0,
{
}

/// Every intent asks for episodes, and besides for what it is about: failures for bugs and
/// incidents, decisions for architecture and refactoring, procedures for workflows, both
/// failures and procedures for deployments, and everything for a general query.
pub proof fn intents_ask_for_their_sources(intent: MemoryIntent)
    ensures
        wants(intent, MemorySource::Episodic),
        wants(intent, MemorySource::Failure) <==> intent == MemoryIntent::Debugging || intent
            == MemoryIntent::Incident || intent == MemoryIntent::Deployment || intent
            == MemoryIntent::General,
        wants(intent, MemorySource::Decision) <==> intent == MemoryIntent::Architecture || intent
            == MemoryIntent::Refactor || intent == MemoryIntent::General,
        wants(intent, MemorySource::Procedural) <==> intent == MemoryIntent::Workflow || intent
            == MemoryIntent::Deployment || intent == MemoryIntent::General,
{
}

} // verus!
