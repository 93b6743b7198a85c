//! The graph of entities, held in memory and loaded project by project.
use crate::graph::store;
use crate::models::{Entity, GraphRelation};
use crate::text;
use petgraph::graph::DiGraph;
use vstd::prelude::*;

verus! {

/// Entity relationships in memory. A node of the graph carries the number of its entity,
/// an edge the number of its relation.
pub struct GraphEngine {
    graph: DiGraph<u64, u64>,
    entities: Vec<Entity>,
    relations: Vec<GraphRelation>,
    /// The ids of the entities that can be found, and the position of the node of each.
    index_ids: Vec<String>,
    index_nodes: Vec<usize>,
    loaded_projects: Vec<String>,
}

/// The graph as a mathematical value. An entity goes by its number, whatever position
/// its node has.
pub struct GraphModel {
    /// Every entity that was ever added, by number.
    pub entities: Seq<Entity>,
    pub relations: Seq<GraphRelation>,
    /// The entities that are in the graph.
    pub nodes: Set<u64>,
    /// The relations in the graph, oldest first: from which entity to which, and the
    /// number of the relation.
    pub links: Seq<(u64, u64, u64)>,
    /// The entity that an id stands for.
    pub index: Map<Seq<char>, u64>,
    pub loaded: Set<Seq<char>>,
}

pub open spec fn empty_graph() -> GraphModel {
    GraphModel {
        entities: Seq::empty(),
        relations: Seq::empty(),
        nodes: Set::empty(),
        links: Seq::empty(),
        index: Map::empty(),
        loaded: Set::empty(),
    }
}

/// The graph with one more entity. Its id now stands for it.
pub open spec fn with_entity(m: GraphModel, e: Entity) -> GraphModel {
    let n = m.entities.len() as u64;
    GraphModel {
        entities: m.entities.push(e),
        nodes: m.nodes.insert(n),
        index: m.index.insert(e.id@, n),
        ..m
    }
}

/// Both ends of a relation can be found.
pub open spec fn joins(m: GraphModel, r: GraphRelation) -> bool {
    m.index.dom().contains(r.from_entity@) && m.index.dom().contains(r.to_entity@)
}

/// The graph with one more relation, if both its ends can be found.
pub open spec fn with_relation(m: GraphModel, r: GraphRelation) -> GraphModel {
    if joins(m, r) {
        GraphModel {
            relations: m.relations.push(r),
            links: m.links.push(
                (m.index[r.from_entity@], m.index[r.to_entity@], m.relations.len() as u64),
            ),
            ..m
        }
    } else {
        m
    }
}

/// The graph without the entity that an id stands for, and without its relations.
pub open spec fn without_entity(m: GraphModel, id: Seq<char>) -> GraphModel {
    if m.index.dom().contains(id) {
        GraphModel {
            nodes: m.nodes.remove(m.index[id]),
            links: store::without(m.links, m.index[id]),
            index: m.index.remove(id),
            ..m
        }
    } else {
        m
    }
}

pub open spec fn with_entities(m: GraphModel, es: Seq<Entity>) -> GraphModel
    decreases es.len(),
{
    if es.len() == 0 {
        m
    } else {
        with_entity(with_entities(m, es.drop_last()), es.last())
    }
}

pub open spec fn with_relations(m: GraphModel, rs: Seq<GraphRelation>) -> GraphModel
    decreases rs.len(),
{
    if rs.len() == 0 {
        m
    } else {
        with_relation(with_relations(m, rs.drop_last()), rs.last())
    }
}

/// The graph with a project loaded. A project that has been loaded before changes
/// nothing.
pub open spec fn with_project(
    m: GraphModel,
    project: Seq<char>,
    es: Seq<Entity>,
    rs: Seq<GraphRelation>,
) -> GraphModel {
    if m.loaded.contains(project) {
        m
    } else {
        let filled = with_relations(with_entities(m, es), rs);
        GraphModel { loaded: filled.loaded.insert(project), ..filled }
    }
}

/// The numbers of the relations of an entity: the outgoing ones, then the incoming
/// ones, the newest first.
pub open spec fn relations_of(links: Seq<(u64, u64, u64)>, n: u64) -> Seq<u64> {
    store::weights(store::outgoing(links, n)) + store::weights(store::incoming(links, n))
}

// ---------------------------------------------------------------------------
// Traversal
// ---------------------------------------------------------------------------

/// The neighbors of an entity: those that its relations lead to, then those from which
/// relations lead to it.
pub open spec fn neighbors_of(links: Seq<(u64, u64, u64)>, n: u64) -> Seq<u64> {
    store::ends(store::outgoing(links, n)) + store::starts(store::incoming(links, n))
}

/// The list with those of `xs` added that are not in it yet.
pub open spec fn with_new(list: Seq<u64>, xs: Seq<u64>) -> Seq<u64>
    decreases xs.len(),
{
    if xs.len() == 0 {
        list
    } else {
        let before = with_new(list, xs.drop_last());
        if before.contains(xs.last()) {
            before
        } else {
            before.push(xs.last())
        }
    }
}

/// The list with the neighbors of its entries `from..to` added.
pub open spec fn widened(
    links: Seq<(u64, u64, u64)>,
    list: Seq<u64>,
    from: int,
    to: int,
) -> Seq<u64>
    decreases to - from,
{
    if to <= from {
        list
    } else {
        with_new(widened(links, list, from, to - 1), neighbors_of(links, list[to - 1]))
    }
}

/// What is found within some hops of a start, nearest first, and where those that took
/// the most hops begin.
pub open spec fn layers(links: Seq<(u64, u64, u64)>, start: u64, hops: nat) -> (Seq<u64>, int)
    decreases hops,
{
    if hops == 0 {
        (Seq::empty().push(start), 0)
    } else {
        let (list, from) = layers(links, start, (hops - 1) as nat);
        (widened(links, list, from, list.len() as int), list.len() as int)
    }
}

/// What a traversal finds: all within some hops but the start itself.
pub open spec fn traversed(links: Seq<(u64, u64, u64)>, start: u64, hops: nat) -> Seq<u64> {
    layers(links, start, hops).0.skip(1)
}

// ---------------------------------------------------------------------------
// Well-formedness
// ---------------------------------------------------------------------------

pub open spec fn link_of(nodes: Seq<u64>, e: (int, int, u64)) -> (u64, u64, u64) {
    (nodes[e.0], nodes[e.1], e.2)
}

pub open spec fn links_of(nodes: Seq<u64>, edges: Seq<(int, int, u64)>) -> Seq<(u64, u64, u64)> {
    Seq::new(edges.len(), |i: int| link_of(nodes, edges[i]))
}

pub open spec fn edge_fits(nodes: Seq<u64>, e: (int, int, u64)) -> bool {
    0 <= e.0 < nodes.len() && 0 <= e.1 < nodes.len()
}

pub open spec fn edges_fit(nodes: Seq<u64>, edges: Seq<(int, int, u64)>) -> bool {
    forall|i: int| 0 <= i < edges.len() ==> edge_fits(nodes, #[trigger] edges[i])
}

/// The entity that an id stands for, found by way of its position.
pub open spec fn index_map(
    ids: Seq<Seq<char>>,
    at: Seq<usize>,
    nodes: Seq<u64>,
) -> Map<Seq<char>, u64> {
    Map::new(
        |id: Seq<char>| text::position(ids, id) is Some,
        |id: Seq<char>| nodes[at[text::position(ids, id)->0] as int],
    )
}

impl GraphEngine {
    spec fn nodes(&self) -> Seq<u64> {
        store::graph_nodes(self.graph)
    }

    spec fn edges(&self) -> Seq<(int, int, u64)> {
        store::graph_edges(self.graph)
    }

    spec fn ids(&self) -> Seq<Seq<char>> {
        text::texts(self.index_ids@)
    }

    spec fn graph_fits(&self) -> bool {
        &&& self.nodes().no_duplicates()
        &&& forall|i: int|
            0 <= i < self.nodes().len() ==> (#[trigger] self.nodes()[i]) < self.entities@.len()
        &&& edges_fit(self.nodes(), self.edges())
        &&& forall|i: int|
            0 <= i < self.edges().len() ==> (#[trigger] self.edges()[i]).2 < self.relations@.len()
    }

    spec fn index_fits(&self) -> bool {
        &&& self.index_ids@.len() == self.index_nodes@.len()
        &&& self.ids().no_duplicates()
        &&& forall|k: int|
            0 <= k < self.index_nodes@.len() ==> (#[trigger] self.index_nodes@[k])
                < self.nodes().len() && self.entities@[self.nodes()[self.index_nodes@[k] as int] as int].id@
                == self.index_ids@[k]@
    }

    /// Every node and edge refers to what is there, every entity has one node at most,
    /// and every id leads to an entity with that id.
    pub closed spec fn wf(&self) -> bool {
        self.graph_fits() && self.index_fits()
    }

    pub closed spec fn model(&self) -> GraphModel {
        GraphModel {
            entities: self.entities@,
            relations: self.relations@,
            nodes: self.nodes().to_set(),
            links: links_of(self.nodes(), self.edges()),
            index: index_map(self.ids(), self.index_nodes@, self.nodes()),
            loaded: text::texts(self.loaded_projects@).to_set(),
        }
    }
}

// ---------------------------------------------------------------------------
// Positions and numbers
// ---------------------------------------------------------------------------

proof fn outgoing_links(nodes: Seq<u64>, edges: Seq<(int, int, u64)>, i: int)
    requires
        nodes.no_duplicates(),
        edges_fit(nodes, edges),
        0 <= i < nodes.len(),
    ensures
        store::outgoing(links_of(nodes, edges), nodes[i]) == links_of(
            nodes,
            store::outgoing(edges, i),
        ),
        store::incoming(links_of(nodes, edges), nodes[i]) == links_of(
            nodes,
            store::incoming(edges, i),
        ),
        edges_fit(nodes, store::outgoing(edges, i)),
        edges_fit(nodes, store::incoming(edges, i)),
    decreases edges.len(),
{
    let links = links_of(nodes, edges);
    if edges.len() > 0 {
        let rest = edges.drop_last();
        let e = edges.last();
        assert forall|k: int| 0 <= k < rest.len() implies edge_fits(nodes, #[trigger] rest[k]) by {
            assert(rest[k] == edges[k]);
        }
        outgoing_links(nodes, rest, i);
        assert(links.drop_last() =~= links_of(nodes, rest));
        assert(edge_fits(nodes, edges[edges.len() - 1]));
        assert(links.last() == link_of(nodes, e));
        assert((nodes[e.0] == nodes[i]) == (e.0 == i));
        assert((nodes[e.1] == nodes[i]) == (e.1 == i));
        assert(store::outgoing(links, nodes[i]) =~= links_of(nodes, store::outgoing(edges, i)));
        assert(store::incoming(links, nodes[i]) =~= links_of(nodes, store::incoming(edges, i)));
    } else {
        assert(store::outgoing(links, nodes[i]) =~= links_of(nodes, store::outgoing(edges, i)));
        assert(store::incoming(links, nodes[i]) =~= links_of(nodes, store::incoming(edges, i)));
    }
}

/// The nodes with the last one moved into the place of another.
pub open spec fn closed_up(nodes: Seq<u64>, a: int) -> Seq<u64> {
    nodes.update(a, nodes.last()).drop_last()
}

proof fn links_without(nodes: Seq<u64>, edges: Seq<(int, int, u64)>, a: int)
    requires
        nodes.no_duplicates(),
        edges_fit(nodes, edges),
        0 <= a < nodes.len(),
    ensures
        ({
            let kept = store::moved_edges(store::without(edges, a), a, nodes.len() - 1);
            &&& edges_fit(closed_up(nodes, a), kept)
            &&& links_of(closed_up(nodes, a), kept) == store::without(
                links_of(nodes, edges),
                nodes[a],
            )
        }),
        store::without(edges, a).len() <= edges.len(),
        forall|i: int|
            0 <= i < store::without(edges, a).len() ==> edges.contains(
                #[trigger] store::without(edges, a)[i],
            ),
    decreases edges.len(),
{
    let last = nodes.len() - 1;
    let links = links_of(nodes, edges);
    let after = closed_up(nodes, a);
    if edges.len() > 0 {
        let rest = edges.drop_last();
        let e = edges.last();
        assert forall|k: int| 0 <= k < rest.len() implies edge_fits(nodes, #[trigger] rest[k]) by {
            assert(rest[k] == edges[k]);
        }
        links_without(nodes, rest, a);
        assert(links.drop_last() =~= links_of(nodes, rest));
        assert(edge_fits(nodes, edges[edges.len() - 1]));
        assert((nodes[e.0] == nodes[a]) == (e.0 == a));
        assert((nodes[e.1] == nodes[a]) == (e.1 == a));
        let before = store::moved_edges(store::without(rest, a), a, last);
        let kept = store::moved_edges(store::without(edges, a), a, last);
        if e.0 == a || e.1 == a {
            assert(kept =~= before);
        } else {
            let m = (store::moved(e.0, a, last), store::moved(e.1, a, last), e.2);
            assert(kept =~= before.push(m));
            assert(after[m.0] == nodes[e.0]);
            assert(after[m.1] == nodes[e.1]);
            assert(edge_fits(after, m));
            assert forall|k: int| 0 <= k < kept.len() implies edge_fits(
                after,
                #[trigger] kept[k],
            ) by {
                if k < before.len() {
                    assert(kept[k] == before[k]);
                }
            }
            assert(links_of(after, kept) =~= links_of(after, before).push(link_of(nodes, e)));
        }
        assert forall|i: int| 0 <= i < store::without(edges, a).len() implies edges.contains(
            #[trigger] store::without(edges, a)[i],
        ) by {
            let x = store::without(edges, a)[i];
            if i < store::without(rest, a).len() {
                assert(x == store::without(rest, a)[i]);
                assert(rest.contains(x));
                let j = choose|j: int| 0 <= j < rest.len() && rest[j] == x;
                assert(edges[j] == x);
            } else {
                assert(edges[edges.len() - 1] == x);
            }
        }
    } else {
        assert(links_of(after, store::moved_edges(store::without(edges, a), a, last))
            =~= store::without(links, nodes[a]));
    }
}

proof fn same_cycles(nodes: Seq<u64>, edges: Seq<(int, int, u64)>)
    requires
        nodes.no_duplicates(),
        edges_fit(nodes, edges),
    ensures
        store::cyclic(edges) == store::cyclic(links_of(nodes, edges)),
{
    let links = links_of(nodes, edges);
    if store::cyclic(edges) {
        let p = choose|p: Seq<int>| store::is_round_trip(edges, p);
        let q = Seq::new(p.len(), |i: int| nodes[p[i]]);
        assert forall|i: int| 0 <= i < q.len() - 1 implies #[trigger] store::steps(links, q, i) by {
            assert(store::steps(edges, p, i));
            let k = choose|k: int|
                0 <= k < edges.len() && (#[trigger] edges[k]).0 == p[i] && edges[k].1 == p[i + 1];
            assert(links[k].0 == q[i] && links[k].1 == q[i + 1]);
        }
        assert(store::is_round_trip(links, q));
    }
    if store::cyclic(links) {
        let q = choose|q: Seq<u64>| store::is_round_trip(links, q);
        let at = |n: u64| choose|i: int| 0 <= i < nodes.len() && #[trigger] nodes[i] == n;
        let p = Seq::new(q.len(), |i: int| at(q[i]));
        assert forall|i: int| 0 <= i < p.len() - 1 implies #[trigger] store::steps(edges, p, i) by {
            assert(store::steps(links, q, i));
            let k = choose|k: int|
                0 <= k < links.len() && (#[trigger] links[k]).0 == q[i] && links[k].1 == q[i + 1];
            assert(edge_fits(nodes, edges[k]));
            assert(nodes[edges[k].0] == q[i]);
            assert(nodes[edges[k].1] == q[i + 1]);
            assert(edges[k].0 == p[i]);
            assert(edges[k].1 == p[i + 1]);
        }
        assert(store::is_round_trip(edges, p));
    }
}

// ---------------------------------------------------------------------------
// Execution
// ---------------------------------------------------------------------------

impl Default for GraphEngine {
    fn default() -> (r: Self)
        ensures
            r.wf(),
            r.model() == empty_graph(),
    {
        GraphEngine::new()
    }
}

fn copy_entity(e: &Entity) -> (r: Entity)
    ensures
        r == *e,
{
    Entity {
        id: e.id.clone(),
        project_id: e.project_id.clone(),
        entity_type: e.entity_type,
        name: e.name.clone(),
        metadata: e.metadata.clone(),
        created_at: e.created_at,
        updated_at: e.updated_at,
    }
}

fn has_number(v: &Vec<u64>, n: u64) -> (r: bool)
    ensures
        r == v@.contains(n),
{
    let mut i: usize = 0;
    while i < v.len()
        invariant
            i <= v@.len(),
            forall|k: int| 0 <= k < i ==> v@[k] != n,
        decreases v@.len() - i,
    {
        if v[i] == n {
            return true;
        }
        i = i + 1;
    }
    false
}

impl GraphEngine {
    pub fn new() -> (r: Self)
        ensures
            r.wf(),
            r.model() == empty_graph(),
    {
        let r = GraphEngine {
            graph: store::new_graph(),
            entities: Vec::new(),
            relations: Vec::new(),
            index_ids: Vec::new(),
            index_nodes: Vec::new(),
            loaded_projects: Vec::new(),
        };
        proof {
            assert(r.model().nodes =~= Set::empty());
            assert(r.model().links =~= Seq::empty());
            assert(r.ids() =~= Seq::empty());
            assert(r.model().index =~= Map::empty());
            assert(text::texts(r.loaded_projects@) =~= Seq::empty());
            assert(r.model().loaded =~= Set::empty());
        }
        r
    }

    /// The number of entities (nodes) in the graph.
    pub fn node_count(&self) -> (r: usize)
        requires
            self.wf(),
        ensures
            r == self.model().nodes.len(),
    {
        proof {
            self.nodes().unique_seq_to_set();
        }
        store::node_count(&self.graph)
    }

    /// The number of relations (edges) in the graph.
    pub fn edge_count(&self) -> (r: usize)
        ensures
            r == self.model().links.len(),
    {
        store::edge_count(&self.graph)
    }

    /// The position of the node that an id leads to.
    fn locate(&self, id: &str) -> (r: Option<usize>)
        requires
            self.wf(),
        ensures
            match r {
                Some(a) => a < self.nodes().len() && self.model().index.dom().contains(id@)
                    && self.model().index[id@] == self.nodes()[a as int],
                None => !self.model().index.dom().contains(id@),
            },
    {
        match text::find_text(&self.index_ids, id) {
            Some(k) => {
                assert(self.index_nodes@[k as int] < self.nodes().len());
                Some(self.index_nodes[k])
            },
            None => None,
        }
    }

    /// Add an entity.
    pub fn add_entity(&mut self, entity: Entity)
        requires
            old(self).wf(),
            old(self).model().nodes.len() < u32::MAX,
        ensures
            final(self).wf(),
            final(self).model() == with_entity(old(self).model(), entity),
    {
        let ghost before = *self;
        let ghost m = self.model();
        let ghost e = entity;
        proof {
            self.nodes().unique_seq_to_set();
        }
        let n: u64 = self.entities.len() as u64;
        let a = store::add_node(&mut self.graph, n);
        let id = entity.id.clone();
        let ghost key = id@;
        self.entities.push(entity);
        proof {
            text::position_is_first(before.ids(), key);
        }
        match text::find_text(&self.index_ids, id.as_str()) {
            Some(k) => {
                self.index_nodes.set(k, a);
            },
            None => {
                self.index_ids.push(id);
                self.index_nodes.push(a);
            },
        }
        proof {
            let old_nodes = before.nodes();
            let nodes = self.nodes();
            assert(nodes == old_nodes.push(n));
            assert(forall|i: int|
                0 <= i < old_nodes.len() ==> (#[trigger] old_nodes[i]) < before.entities@.len());
            assert(self.graph_fits()) by {
                assert forall|i: int| 0 <= i < self.edges().len() implies edge_fits(
                    nodes,
                    #[trigger] self.edges()[i],
                ) by {
                    assert(edge_fits(old_nodes, before.edges()[i]));
                }
            }
            if text::position(before.ids(), key) is Some {
                assert(self.ids() =~= before.ids());
            } else {
                assert(self.ids() =~= before.ids().push(key));
            }
            assert(self.index_fits()) by {
                assert forall|k: int| 0 <= k < self.index_nodes@.len() implies (
                #[trigger] self.index_nodes@[k]) < nodes.len()
                    && self.entities@[nodes[self.index_nodes@[k] as int] as int].id@
                    == self.index_ids@[k]@ by {
                    if k < before.index_nodes@.len() {
                        assert(before.index_nodes@[k] < old_nodes.len());
                        assert(self.ids()[k] == before.ids()[k]);
                    }
                }
            }
            assert(self.model().nodes =~= m.nodes.insert(n)) by {
                assert forall|x: u64| nodes.to_set().contains(x) == m.nodes.insert(n).contains(
                    x,
                ) by {
                    if nodes.contains(x) && x != n {
                        let i = choose|i: int| 0 <= i < nodes.len() && nodes[i] == x;
                        assert(old_nodes[i] == x);
                    }
                    if old_nodes.contains(x) {
                        let i = choose|i: int| 0 <= i < old_nodes.len() && old_nodes[i] == x;
                        assert(nodes[i] == x);
                    }
                    assert(nodes[old_nodes.len() as int] == n);
                }
            }
            assert(self.model().links =~= m.links) by {
                assert forall|i: int| 0 <= i < self.edges().len() implies link_of(
                    nodes,
                    #[trigger] self.edges()[i],
                ) == link_of(old_nodes, before.edges()[i]) by {
                    assert(edge_fits(old_nodes, before.edges()[i]));
                }
            }
            let wanted = m.index.insert(key, n);
            assert forall|id: Seq<char>| #[trigger] self.model().index.dom().contains(id)
                == wanted.dom().contains(id) by {
                text::position_is_first(before.ids(), id);
                found_after_add(before.ids(), self.ids(), key, id);
            }
            assert forall|id: Seq<char>| #[trigger]
                self.model().index.dom().contains(id) implies self.model().index[id]
                == wanted[id] by {
                text::position_is_first(before.ids(), id);
                text::position_is_first(before.ids(), key);
                found_after_add(before.ids(), self.ids(), key, id);
                if id != key {
                    let k = text::position(before.ids(), id)->0;
                    assert(before.index_nodes@[k] < old_nodes.len());
                    assert(self.index_nodes@[k] == before.index_nodes@[k]);
                }
            }
            assert(self.model().index =~= wanted);
        }
    }

    /// Get an entity by id.
    pub fn get_entity(&self, id: &str) -> (r: Option<&Entity>)
        requires
            self.wf(),
        ensures
            match r {
                Some(e) => self.model().index.dom().contains(id@) && *e
                    == self.model().entities[self.model().index[id@] as int] && e.id@ == id@,
                None => !self.model().index.dom().contains(id@),
            },
    {
        let found = text::find_text(&self.index_ids, id);
        match found {
            Some(k) => {
                proof {
                    text::position_is_first(self.ids(), id@);
                    assert(self.index_nodes@[k as int] < self.nodes().len());
                    assert(self.ids()[k as int] == self.index_ids@[k as int]@);
                }
                let a = self.index_nodes[k];
                assert(self.nodes()[a as int] < self.entities@.len());
                match store::node_weight(&self.graph, a) {
                    Some(n) => {
                        let count: usize = self.entities.len();
                        assert(n < count);
                        assert(self.model().index[id@] == n);
                        Some(&self.entities[n as usize])
                    },
                    None => None,
                }
            },
            None => None,
        }
    }

    /// Add a relation. Returns false if either entity does not exist.
    pub fn add_relation(&mut self, rel: GraphRelation) -> (r: bool)
        requires
            old(self).wf(),
            old(self).model().links.len() < u32::MAX,
        ensures
            final(self).wf(),
            r == joins(old(self).model(), rel),
            final(self).model() == with_relation(old(self).model(), rel),
    {
        let ghost before = *self;
        let ghost m = self.model();
        let from = match self.locate(rel.from_entity.as_str()) {
            Some(a) => a,
            None => {
                return false;
            },
        };
        let to = match self.locate(rel.to_entity.as_str()) {
            Some(b) => b,
            None => {
                return false;
            },
        };
        let n: u64 = self.relations.len() as u64;
        store::add_edge(&mut self.graph, from, to, n);
        self.relations.push(rel);
        proof {
            let nodes = self.nodes();
            let e = (from as int, to as int, n);
            assert(self.edges() == before.edges().push(e));
            assert(self.graph_fits()) by {
                assert forall|i: int| 0 <= i < self.edges().len() implies edge_fits(
                    nodes,
                    #[trigger] self.edges()[i],
                ) && self.edges()[i].2 < self.relations@.len() by {
                    if i < before.edges().len() {
                        assert(edge_fits(nodes, before.edges()[i]));
                        assert(before.edges()[i].2 < before.relations@.len());
                    }
                }
            }
            assert(self.ids() =~= before.ids());
            assert(self.index_fits()) by {
                assert forall|k: int| 0 <= k < self.index_nodes@.len() implies (
                #[trigger] self.index_nodes@[k]) < nodes.len()
                    && self.entities@[nodes[self.index_nodes@[k] as int] as int].id@
                    == self.index_ids@[k]@ by {
                    assert(before.index_nodes@[k] < before.nodes().len());
                }
            }
            assert(self.model().links =~= m.links.push(link_of(nodes, e)));
            assert(self.model() == with_relation(m, rel));
        }
        true
    }

    /// Remove an entity and its edges from the graph. Every other entity is found as
    /// before.
    pub fn remove_entity(&mut self, id: &str) -> (r: bool)
        requires
            old(self).wf(),
        ensures
            final(self).wf(),
            r == old(self).model().index.dom().contains(id@),
            final(self).model() == without_entity(old(self).model(), id@),
    {
        let ghost before = *self;
        let ghost m = self.model();
        let k = match text::find_text(&self.index_ids, id) {
            Some(k) => k,
            None => {
                return false;
            },
        };
        proof {
            text::position_is_first(before.ids(), id@);
            assert(before.index_nodes@[k as int] < before.nodes().len());
        }
        let a = self.index_nodes[k];
        let last: usize = store::node_count(&self.graph) - 1;
        let ghost old_nodes = before.nodes();
        let ghost nodes = closed_up(old_nodes, a as int);
        store::remove_node(&mut self.graph, a);
        self.index_ids.remove(k);
        self.index_nodes.remove(k);
        let ghost ids = text::texts(self.index_ids@);
        let ghost at = self.index_nodes@;
        let mut j: usize = 0;
        while j < self.index_nodes.len()
            invariant
                self.index_nodes@.len() == at.len(),
                j <= at.len(),
                forall|i: int|
                    0 <= i < at.len() ==> #[trigger] self.index_nodes@[i] == (if i < j && at[i]
                        == last {
                        a
                    } else {
                        at[i]
                    }),
                self.entities == before.entities,
                self.relations == before.relations,
                self.loaded_projects == before.loaded_projects,
                text::texts(self.index_ids@) == ids,
                self.nodes() == nodes,
                self.edges() == store::moved_edges(
                    store::without(before.edges(), a as int),
                    a as int,
                    last as int,
                ),
            decreases at.len() - j,
        {
            if self.index_nodes[j] == last {
                self.index_nodes.set(j, a);
            }
            j = j + 1;
        }
        proof {
            links_without(old_nodes, before.edges(), a as int);
            assert(ids =~= before.ids().remove(k as int));
            assert(at =~= before.index_nodes@.remove(k as int));
            self.removal_fits(before, k as int, a as int);
        }
        true
    }
}

proof fn found_after_add(
    before: Seq<Seq<char>>,
    after: Seq<Seq<char>>,
    key: Seq<char>,
    id: Seq<char>,
)
    requires
        before.no_duplicates(),
        if text::position(before, key) is Some {
            after == before
        } else {
            after == before.push(key)
        },
    ensures
        text::position(after, id) == if id == key && text::position(before, key) is None {
            Some(before.len() as int)
        } else {
            text::position(before, id)
        },
{
    text::position_is_first(before, id);
    text::position_is_first(before, key);
    text::position_is_first(after, id);
    if text::position(before, key) is None {
        let n = before.len() as int;
        assert(after[n] == key);
        assert forall|i: int| 0 <= i < n implies after[i] == before[i] by {}
        match text::position(after, id) {
            Some(p) => {
                if p < n {
                    assert(before[p] == id);
                    if text::position(before, id) is Some {
                        let q = text::position(before, id)->0;
                        assert(after[q] == id);
                    }
                } else {
                    if text::position(before, id) is Some {
                        let q = text::position(before, id)->0;
                        assert(after[q] == id);
                    }
                }
            },
            None => {
                if text::position(before, id) is Some {
                    let q = text::position(before, id)->0;
                    assert(after[q] == id);
                }
                if id == key {
                    assert(after[n] == id);
                }
            },
        }
    }
}

impl GraphEngine {
    /// What remains after a node was taken out fits together.
    proof fn removal_fits(&self, before: GraphEngine, k: int, a: int)
        requires
            before.wf(),
            0 <= k < before.index_ids@.len(),
            a == before.index_nodes@[k],
            self.nodes() == closed_up(before.nodes(), a),
            self.edges() == store::moved_edges(
                store::without(before.edges(), a),
                a,
                before.nodes().len() - 1,
            ),
            self.entities == before.entities,
            self.relations == before.relations,
            self.loaded_projects == before.loaded_projects,
            self.ids() == before.ids().remove(k),
            self.index_nodes@.len() == before.index_nodes@.len() - 1,
            forall|i: int|
                0 <= i < self.index_nodes@.len() ==> #[trigger] self.index_nodes@[i]
                    == store::moved(
                    before.index_nodes@.remove(k)[i] as int,
                    a,
                    before.nodes().len() - 1,
                ),
        ensures
            self.wf(),
            self.model() == without_entity(before.model(), before.ids()[k]),
    {
        let old_nodes = before.nodes();
        let nodes = self.nodes();
        let last = old_nodes.len() - 1;
        let m = before.model();
        let id = before.ids()[k];
        let n = old_nodes[a];
        text::position_is_first(before.ids(), id);
        assert(text::position(before.ids(), id) == Some(k));
        assert(before.ids().len() == before.index_ids@.len());
        assert(self.ids().len() == self.index_ids@.len());
        links_without(old_nodes, before.edges(), a);
        assert forall|i: int, j: int|
            0 <= i < nodes.len() && 0 <= j < nodes.len() && i != j implies nodes[i]
            != nodes[j] by {
            let x = if i == a { last } else { i };
            let y = if j == a { last } else { j };
            assert(nodes[i] == old_nodes[x] && nodes[j] == old_nodes[y]);
        }
        assert forall|i: int| 0 <= i < nodes.len() implies (#[trigger] nodes[i])
            < self.entities@.len() by {
            let x = if i == a { last } else { i };
            assert(nodes[i] == old_nodes[x]);
        }
        assert forall|i: int| 0 <= i < self.edges().len() implies (#[trigger] self.edges()[i]).2
            < self.relations@.len() by {
            let e = store::without(before.edges(), a)[i];
            assert(before.edges().contains(e));
            let j = choose|j: int| 0 <= j < before.edges().len() && before.edges()[j] == e;
            assert(before.edges()[j].2 < before.relations@.len());
        }
        assert(self.graph_fits());
        // Every entry of the index leads to the same entity as before.
        assert forall|i: int| 0 <= i < self.index_nodes@.len() implies (
        #[trigger] self.index_nodes@[i]) < nodes.len() && nodes[self.index_nodes@[i] as int]
            == old_nodes[before.index_nodes@.remove(k)[i] as int] && self.index_ids@[i]@
            == before.ids().remove(k)[i] by {
            let w = if i < k { i } else { i + 1 };
            let x = before.index_nodes@[w] as int;
            assert(before.index_nodes@.remove(k)[i] == before.index_nodes@[w]);
            assert(before.ids().remove(k)[i] == before.ids()[w]);
            assert(self.ids()[i] == self.index_ids@[i]@);
            assert(before.index_nodes@[w] < old_nodes.len());
            assert(before.index_nodes@[k] < old_nodes.len());
            assert(before.ids()[w] == before.index_ids@[w]@);
            assert(before.ids()[k] == before.index_ids@[k]@);
            if x == a {
                assert(before.ids()[w] == before.ids()[k]);
                assert(w == k);
            }
        }
        assert(self.index_fits()) by {
            assert forall|i: int, j: int|
                0 <= i < self.ids().len() && 0 <= j < self.ids().len() && i != j implies self.ids()[i]
                != self.ids()[j] by {
                let x = if i < k { i } else { i + 1 };
                let y = if j < k { j } else { j + 1 };
                assert(self.ids()[i] == before.ids()[x] && self.ids()[j] == before.ids()[y]);
            }
            assert forall|i: int| 0 <= i < self.index_nodes@.len() implies (
            #[trigger] self.index_nodes@[i]) < nodes.len()
                && self.entities@[nodes[self.index_nodes@[i] as int] as int].id@
                == self.index_ids@[i]@ by {
                let w = if i < k { i } else { i + 1 };
                assert(before.index_nodes@.remove(k)[i] == before.index_nodes@[w]);
                assert(before.index_nodes@[w] < old_nodes.len());
                assert(before.ids().remove(k)[i] == before.ids()[w]);
                assert(before.ids()[w] == before.index_ids@[w]@);
            }
        }
        assert(self.model().nodes =~= m.nodes.remove(n)) by {
            assert forall|x: u64| nodes.to_set().contains(x) == m.nodes.remove(n).contains(x) by {
                if nodes.contains(x) {
                    let i = choose|i: int| 0 <= i < nodes.len() && nodes[i] == x;
                    let w = if i == a { last } else { i };
                    assert(old_nodes[w] == x);
                    assert(w != a);
                    assert(old_nodes[a] == n);
                }
                if old_nodes.contains(x) && x != n {
                    let i = choose|i: int| 0 <= i < old_nodes.len() && old_nodes[i] == x;
                    let w = if i == last { a } else { i };
                    assert(nodes[w] == x);
                }
            }
        }
        assert(self.model().links == store::without(m.links, n));
        assert(m.index[id] == n);
        let wanted = m.index.remove(id);
        assert forall|x: Seq<char>| #[trigger] self.model().index.dom().contains(x)
            == wanted.dom().contains(x) by {
            self.found_after_removal(before, k, x);
            text::position_is_first(before.ids(), x);
        }
        assert forall|x: Seq<char>| #[trigger]
            self.model().index.dom().contains(x) implies self.model().index[x] == wanted[x] by {
            self.found_after_removal(before, k, x);
            let i = text::position(self.ids(), x)->0;
            text::position_is_first(self.ids(), x);
            let w = if i < k { i } else { i + 1 };
            assert(self.index_nodes@[i] < nodes.len());
            assert(before.index_nodes@.remove(k)[i] == before.index_nodes@[w]);
        }
        assert(self.model().index =~= wanted);
    }

    proof fn found_after_removal(&self, before: GraphEngine, k: int, x: Seq<char>)
        requires
            before.ids().no_duplicates(),
            0 <= k < before.ids().len(),
            self.ids() == before.ids().remove(k),
        ensures
            text::position(self.ids(), x) == match text::position(before.ids(), x) {
                Some(w) => if w == k {
                    None
                } else if w < k {
                    Some(w)
                } else {
                    Some(w - 1)
                },
                None => None,
            },
    {
        text::position_is_first(before.ids(), x);
        text::position_is_first(self.ids(), x);
        if text::position(self.ids(), x) is Some {
            let i = text::position(self.ids(), x)->0;
            let w = if i < k { i } else { i + 1 };
            assert(self.ids()[i] == before.ids()[w]);
        }
        if text::position(before.ids(), x) is Some {
            let w = text::position(before.ids(), x)->0;
            if w != k {
                let i = if w < k { w } else { w - 1 };
                assert(self.ids()[i] == before.ids()[w]);
            }
        }
    }

    /// Check if the graph contains cycles.
    pub fn is_cyclic(&self) -> (r: bool)
        requires
            self.wf(),
        ensures
            r == store::cyclic(self.model().links),
    {
        proof {
            same_cycles(self.nodes(), self.edges());
        }
        store::is_cyclic_directed(&self.graph)
    }

    /// Get all relations for an entity, outgoing ones first.
    pub fn get_relations(&self, entity_id: &str) -> (r: Vec<&GraphRelation>)
        requires
            self.wf(),
        ensures
            ({
                let m = self.model();
                if m.index.dom().contains(entity_id@) {
                    let numbers = relations_of(m.links, m.index[entity_id@]);
                    &&& r@.len() == numbers.len()
                    &&& forall|i: int|
                        0 <= i < r@.len() ==> *(#[trigger] r@[i]) == m.relations[numbers[i] as int]
                } else {
                    r@.len() == 0
                }
            }),
    {
        let mut r: Vec<&GraphRelation> = Vec::new();
        let a = match self.locate(entity_id) {
            Some(a) => a,
            None => {
                return r;
            },
        };
        let mut numbers = store::edges(&self.graph, a);
        let mut more = store::edges_directed(&self.graph, a);
        numbers.append(&mut more);
        let ghost wanted = relations_of(self.model().links, self.nodes()[a as int]);
        proof {
            self.relation_numbers(a as int);
        }
        assert(numbers@ =~= wanted);
        let mut i: usize = 0;
        while i < numbers.len()
            invariant
                i <= numbers@.len(),
                r@.len() == i,
                forall|k: int| 0 <= k < numbers@.len() ==> (#[trigger] numbers@[k])
                    < self.relations@.len(),
                forall|k: int| 0 <= k < i ==> *(#[trigger] r@[k])
                    == self.relations@[numbers@[k] as int],
            decreases numbers@.len() - i,
        {
            let count: usize = self.relations.len();
            let n = numbers[i];
            assert(n < count);
            r.push(&self.relations[n as usize]);
            i = i + 1;
        }
        r
    }

    /// The numbers of the relations at a node, read off the edges.
    proof fn relation_numbers(&self, a: int)
        requires
            self.wf(),
            0 <= a < self.nodes().len(),
        ensures
            ({
                let numbers = relations_of(self.model().links, self.nodes()[a]);
                &&& numbers == store::weights(store::outgoing(self.edges(), a)) + store::weights(
                    store::incoming(self.edges(), a),
                )
                &&& forall|i: int|
                    0 <= i < numbers.len() ==> (#[trigger] numbers[i]) < self.relations@.len()
            }),
    {
        let out = store::outgoing(self.edges(), a);
        let into = store::incoming(self.edges(), a);
        outgoing_links(self.nodes(), self.edges(), a);
        assert(store::weights(links_of(self.nodes(), out)) =~= store::weights(out));
        assert(store::weights(links_of(self.nodes(), into)) =~= store::weights(into));
        ends_are_edges(self.edges(), a);
        let numbers = relations_of(self.model().links, self.nodes()[a]);
        assert forall|i: int| 0 <= i < numbers.len() implies (#[trigger] numbers[i])
            < self.relations@.len() by {
            let e = if i < out.len() { out[i] } else { into[i - out.len()] };
            assert(self.edges().contains(e));
            let k = choose|k: int| 0 <= k < self.edges().len() && self.edges()[k] == e;
            assert(self.edges()[k].2 < self.relations@.len());
        }
    }

    /// The numbers of the neighbors of a node, in order.
    fn neighbor_numbers(&self, a: usize) -> (r: (Vec<usize>, Vec<u64>))
        requires
            self.wf(),
            a < self.nodes().len(),
        ensures
            r.0@.len() == r.1@.len(),
            r.1@ == neighbors_of(self.model().links, self.nodes()[a as int]),
            forall|i: int|
                0 <= i < r.0@.len() ==> (#[trigger] r.0@[i]) < self.nodes().len()
                    && self.nodes()[r.0@[i] as int] == r.1@[i],
    {
        let mut at = store::neighbors(&self.graph, a);
        let mut more = store::neighbors_directed(&self.graph, a);
        let ghost out = store::outgoing(self.edges(), a as int);
        let ghost into = store::incoming(self.edges(), a as int);
        let ghost first = at@;
        let ghost second = more@;
        at.append(&mut more);
        proof {
            outgoing_links(self.nodes(), self.edges(), a as int);
            assert(store::positions(first).len() == first.len());
            assert(store::positions(second).len() == second.len());
            assert forall|i: int| 0 <= i < at@.len() implies (#[trigger] at@[i])
                < self.nodes().len() by {
                if i < first.len() {
                    assert(store::positions(first)[i] == out[i].1);
                    assert(edge_fits(self.nodes(), out[i]));
                } else {
                    let k = i - first.len();
                    assert(store::positions(second)[k] == into[k].0);
                    assert(edge_fits(self.nodes(), into[k]));
                }
            }
        }
        let ghost wanted = neighbors_of(self.model().links, self.nodes()[a as int]);
        proof {
            assert(wanted.len() == at@.len());
            assert forall|i: int| 0 <= i < at@.len() implies #[trigger] wanted[i]
                == self.nodes()[at@[i] as int] by {
                if i < first.len() {
                    assert(store::positions(first)[i] == out[i].1);
                } else {
                    let k = i - first.len();
                    assert(store::positions(second)[k] == into[k].0);
                }
            }
        }
        let mut numbers: Vec<u64> = Vec::new();
        let mut i: usize = 0;
        while i < at.len()
            invariant
                i <= at@.len(),
                numbers@.len() == i,
                forall|k: int| 0 <= k < at@.len() ==> (#[trigger] at@[k]) < self.nodes().len(),
                forall|k: int| 0 <= k < i ==> #[trigger] numbers@[k] == self.nodes()[at@[k] as int],
            decreases at@.len() - i,
        {
            assert(at@[i as int] < self.nodes().len());
            match store::node_weight(&self.graph, at[i]) {
                Some(n) => {
                    numbers.push(n);
                },
                None => {
                    numbers.push(0);
                },
            }
            i = i + 1;
        }
        assert(numbers@ =~= wanted);
        (at, numbers)
    }

    /// Add the neighbors of one entry to the list of what was found.
    fn spread(&self, at: &mut Vec<usize>, found: &mut Vec<u64>, i: usize)
        requires
            self.wf(),
            i < old(at)@.len(),
            old(at)@.len() == old(found)@.len(),
            forall|k: int|
                0 <= k < old(at)@.len() ==> (#[trigger] old(at)@[k]) < self.nodes().len()
                    && self.nodes()[old(at)@[k] as int] == old(found)@[k],
        ensures
            final(at)@.len() == final(found)@.len(),
            forall|k: int|
                0 <= k < final(at)@.len() ==> (#[trigger] final(at)@[k]) < self.nodes().len()
                    && self.nodes()[final(at)@[k] as int] == final(found)@[k],
            final(found)@ == with_new(
                old(found)@,
                neighbors_of(self.model().links, old(found)@[i as int]),
            ),
    {
        assert(at@[i as int] < self.nodes().len());
        let ghost start = found@;
        let (next_at, next) = self.neighbor_numbers(at[i]);
        let mut j: usize = 0;
        assert(next@.take(0) =~= Seq::empty());
        while j < next.len()
            invariant
                j <= next@.len(),
                next@.len() == next_at@.len(),
                forall|k: int|
                    0 <= k < next_at@.len() ==> (#[trigger] next_at@[k]) < self.nodes().len()
                        && self.nodes()[next_at@[k] as int] == next@[k],
                at@.len() == found@.len(),
                forall|k: int|
                    0 <= k < at@.len() ==> (#[trigger] at@[k]) < self.nodes().len()
                        && self.nodes()[at@[k] as int] == found@[k],
                found@ == with_new(start, next@.take(j as int)),
            decreases next@.len() - j,
        {
            assert(next@.take(j + 1).drop_last() =~= next@.take(j as int));
            assert(next@.take(j + 1).last() == next@[j as int]);
            assert(next_at@[j as int] < self.nodes().len());
            if !has_number(found, next[j]) {
                found.push(next[j]);
                at.push(next_at[j]);
            }
            j = j + 1;
        }
        assert(next@.take(j as int) =~= next@);
    }

    /// Traverse from an entity, following relations in both directions up to
    /// `max_depth` hops, nearest entities first and each of them once. Cycles do no
    /// harm.
    pub fn traverse_from(&self, entity_id: &str, max_depth: usize) -> (r: Vec<Entity>)
        requires
            self.wf(),
        ensures
            ({
                let m = self.model();
                if m.index.dom().contains(entity_id@) {
                    let numbers = traversed(m.links, m.index[entity_id@], max_depth as nat);
                    &&& r@.len() == numbers.len()
                    &&& forall|i: int|
                        0 <= i < r@.len() ==> #[trigger] r@[i] == m.entities[numbers[i] as int]
                } else {
                    r@.len() == 0
                }
            }),
    {
        let mut r: Vec<Entity> = Vec::new();
        let a = match self.locate(entity_id) {
            Some(a) => a,
            None => {
                return r;
            },
        };
        let ghost links = self.model().links;
        let ghost start = self.nodes()[a as int];
        let mut found: Vec<u64> = Vec::new();
        match store::node_weight(&self.graph, a) {
            Some(n) => {
                found.push(n);
            },
            None => {
                found.push(0);
            },
        }
        let mut at: Vec<usize> = Vec::new();
        at.push(a);
        let mut from: usize = 0;
        let mut depth: usize = 0;
        assert(found@ =~= Seq::empty().push(start));
        while depth < max_depth && from < found.len()
            invariant
                self.wf(),
                links == self.model().links,
                depth <= max_depth,
                from <= found@.len(),
                found@.len() >= 1,
                at@.len() == found@.len(),
                forall|k: int|
                    0 <= k < at@.len() ==> (#[trigger] at@[k]) < self.nodes().len()
                        && self.nodes()[at@[k] as int] == found@[k],
                layers(links, start, depth as nat) == (found@, from as int),
            decreases max_depth - depth,
        {
            let ghost list = found@;
            let to: usize = found.len();
            let mut i: usize = from;
            while i < to
                invariant
                    self.wf(),
                    links == self.model().links,
                    from <= i <= to,
                    to == list.len(),
                    to <= found@.len(),
                    at@.len() == found@.len(),
                    forall|k: int|
                        0 <= k < at@.len() ==> (#[trigger] at@[k]) < self.nodes().len()
                            && self.nodes()[at@[k] as int] == found@[k],
                    found@ == widened(links, list, from as int, i as int),
                    found@.take(to as int) == list,
                decreases to - i,
            {
                assert(found@.take(to as int)[i as int] == found@[i as int]);
                let ghost before = found@;
                self.spread(&mut at, &mut found, i);
                proof {
                    with_new_extends(before, neighbors_of(links, before[i as int]));
                    assert(found@.take(to as int) =~= before.take(to as int)) by {
                        assert(found@.take(before.len() as int).take(to as int) =~= found@.take(
                            to as int,
                        ));
                    }
                }
                i = i + 1;
            }
            from = to;
            depth = depth + 1;
        }
        proof {
            if depth < max_depth {
                layers_settle(links, start, depth as nat, max_depth as nat);
            }
            assert(layers(links, start, max_depth as nat).0 == found@);
        }
        let ghost numbers = traversed(links, start, max_depth as nat);
        assert(numbers =~= found@.skip(1));
        let mut i: usize = 1;
        while i < found.len()
            invariant
                self.wf(),
                1 <= i <= found@.len(),
                r@.len() == i - 1,
                at@.len() == found@.len(),
                forall|k: int|
                    0 <= k < at@.len() ==> (#[trigger] at@[k]) < self.nodes().len()
                        && self.nodes()[at@[k] as int] == found@[k],
                forall|k: int| 0 <= k < i - 1 ==> #[trigger] r@[k]
                    == self.entities@[found@[k + 1] as int],
            decreases found@.len() - i,
        {
            assert(at@[i as int] < self.nodes().len());
            let n = found[i];
            let count: usize = self.entities.len();
            assert(n < count);
            r.push(copy_entity(&self.entities[n as usize]));
            i = i + 1;
        }
        r
    }

    /// Load the entities and relations of a project. A project that has been loaded is
    /// skipped; what is there already stays.
    pub fn load_from_repo(
        &mut self,
        project_id: &str,
        entities: Vec<Entity>,
        relations: Vec<GraphRelation>,
    )
        requires
            old(self).wf(),
            old(self).model().nodes.len() + entities@.len() <= u32::MAX,
            old(self).model().links.len() + relations@.len() <= u32::MAX,
        ensures
            final(self).wf(),
            final(self).model() == with_project(
                old(self).model(),
                project_id@,
                entities@,
                relations@,
            ),
    {
        let ghost m = self.model();
        if text::has_text(&self.loaded_projects, project_id) {
            return;
        }
        let ghost es = entities@;
        let ghost rs = relations@;
        let mut rest = entities;
        let ghost mut done: int = 0;
        assert(es.skip(0) =~= es);
        assert(es.take(0) =~= Seq::empty());
        while rest.len() > 0
            invariant
                0 <= done <= es.len(),
                rest@ == es.skip(done),
                self.wf(),
                m.nodes.len() + es.len() <= u32::MAX,
                self.model() == with_entities(m, es.take(done)),
                self.model().nodes.len() <= m.nodes.len() + done,
            decreases rest@.len(),
        {
            let e = rest.remove(0);
            proof {
                assert(e == es[done]);
                assert(es.take(done + 1).drop_last() =~= es.take(done));
                assert(es.take(done + 1).last() == e);
                assert(self.model().nodes.finite());
            }
            self.add_entity(e);
            proof {
                assert(rest@ =~= es.skip(done + 1));
                done = done + 1;
            }
        }
        assert(es.take(done) =~= es);
        let ghost filled = self.model();
        proof {
            entities_add_no_links(m, es);
        }
        let mut rest = relations;
        proof {
            done = 0;
        }
        assert(rs.skip(0) =~= rs);
        assert(rs.take(0) =~= Seq::empty());
        while rest.len() > 0
            invariant
                0 <= done <= rs.len(),
                rest@ == rs.skip(done),
                self.wf(),
                filled.links.len() + rs.len() <= u32::MAX,
                self.model() == with_relations(filled, rs.take(done)),
                self.model().links.len() <= filled.links.len() + done,
            decreases rest@.len(),
        {
            let r = rest.remove(0);
            proof {
                assert(r == rs[done]);
                assert(rs.take(done + 1).drop_last() =~= rs.take(done));
                assert(rs.take(done + 1).last() == r);
            }
            self.add_relation(r);
            proof {
                assert(rest@ =~= rs.skip(done + 1));
                done = done + 1;
            }
        }
        assert(rs.take(done) =~= rs);
        let ghost before = *self;
        self.loaded_projects.push(project_id.to_owned());
        proof {
            assert(self.wf());
            let old_list = text::texts(before.loaded_projects@);
            let list = text::texts(self.loaded_projects@);
            assert(list =~= old_list.push(project_id@));
            assert(list.to_set() =~= old_list.to_set().insert(project_id@)) by {
                assert forall|x: Seq<char>| list.to_set().contains(x)
                    == old_list.to_set().insert(project_id@).contains(x) by {
                    if old_list.contains(x) {
                        let i = choose|i: int| 0 <= i < old_list.len() && old_list[i] == x;
                        assert(list[i] == x);
                    }
                    assert(list[old_list.len() as int] == project_id@);
                }
            }
            relations_keep_loaded(filled, rs);
            entities_keep_loaded(m, es);
        }
    }
}

proof fn ends_are_edges(edges: Seq<(int, int, u64)>, a: int)
    ensures
        forall|i: int|
            0 <= i < store::outgoing(edges, a).len() ==> edges.contains(
                #[trigger] store::outgoing(edges, a)[i],
            ),
        forall|i: int|
            0 <= i < store::incoming(edges, a).len() ==> edges.contains(
                #[trigger] store::incoming(edges, a)[i],
            ),
    decreases edges.len(),
{
    if edges.len() > 0 {
        let rest = edges.drop_last();
        ends_are_edges(rest, a);
        assert forall|x: (int, int, u64)| #[trigger] rest.contains(x) implies edges.contains(x) by {
            let j = choose|j: int| 0 <= j < rest.len() && rest[j] == x;
            assert(edges[j] == x);
        }
        assert(edges.contains(edges.last())) by {
            assert(edges[edges.len() - 1] == edges.last());
        }
        let out = store::outgoing(edges, a);
        let into = store::incoming(edges, a);
        assert forall|i: int| 0 <= i < out.len() implies edges.contains(#[trigger] out[i]) by {
            let shift: int = if edges.last().0 == a { 1 } else { 0 };
            if i >= shift {
                assert(out[i] == store::outgoing(rest, a)[i - shift]);
            }
        }
        assert forall|i: int| 0 <= i < into.len() implies edges.contains(#[trigger] into[i]) by {
            let shift: int = if edges.last().1 == a { 1 } else { 0 };
            if i >= shift {
                assert(into[i] == store::incoming(rest, a)[i - shift]);
            }
        }
    }
}

proof fn entities_add_no_links(m: GraphModel, es: Seq<Entity>)
    ensures
        with_entities(m, es).links == m.links,
    decreases es.len(),
{
    if es.len() > 0 {
        entities_add_no_links(m, es.drop_last());
    }
}

proof fn entities_keep_loaded(m: GraphModel, es: Seq<Entity>)
    ensures
        with_entities(m, es).loaded == m.loaded,
    decreases es.len(),
{
    if es.len() > 0 {
        entities_keep_loaded(m, es.drop_last());
    }
}

proof fn relations_keep_loaded(m: GraphModel, rs: Seq<GraphRelation>)
    ensures
        with_relations(m, rs).loaded == m.loaded,
    decreases rs.len(),
{
    if rs.len() > 0 {
        relations_keep_loaded(m, rs.drop_last());
    }
}

// ---------------------------------------------------------------------------
// Laws
// ---------------------------------------------------------------------------

proof fn with_new_extends(list: Seq<u64>, xs: Seq<u64>)
    ensures
        list.len() <= with_new(list, xs).len(),
        with_new(list, xs).take(list.len() as int) == list,
        forall|x: u64| #[trigger] with_new(list, xs).contains(x) <==> list.contains(x)
            || xs.contains(x),
        list.no_duplicates() ==> with_new(list, xs).no_duplicates(),
    decreases xs.len(),
{
    if xs.len() > 0 {
        let rest = xs.drop_last();
        let x = xs.last();
        with_new_extends(list, rest);
        let before = with_new(list, rest);
        let after = with_new(list, xs);
        assert(after.take(list.len() as int) =~= before.take(list.len() as int));
        assert forall|y: u64| #[trigger] after.contains(y) <==> list.contains(y) || xs.contains(
            y,
        ) by {
            assert(before.contains(y) <==> list.contains(y) || rest.contains(y));
            if rest.contains(y) {
                let k = choose|k: int| 0 <= k < rest.len() && rest[k] == y;
                assert(xs[k] == y);
            }
            if xs.contains(y) && y != x {
                let k = choose|k: int| 0 <= k < xs.len() && xs[k] == y;
                assert(rest[k] == y);
            }
            assert(xs[xs.len() - 1] == x);
            if before.contains(y) {
                let k = choose|k: int| 0 <= k < before.len() && before[k] == y;
                assert(after[k] == y);
            }
            if after.contains(y) && !before.contains(y) {
                let k = choose|k: int| 0 <= k < after.len() && after[k] == y;
                if k < before.len() {
                    assert(before[k] == y);
                }
            }
            if y == x && !before.contains(x) {
                assert(after[before.len() as int] == x);
            }
        }
        if list.no_duplicates() && !before.contains(x) {
            assert forall|i: int, j: int|
                0 <= i < after.len() && 0 <= j < after.len() && i != j implies after[i]
                != after[j] by {
                if i == before.len() {
                    assert(before[j] == after[j]);
                } else if j == before.len() {
                    assert(before[i] == after[i]);
                }
            }
        }
    } else {
        assert(list.take(list.len() as int) =~= list);
    }
}

proof fn widened_extends(links: Seq<(u64, u64, u64)>, list: Seq<u64>, from: int, to: int)
    requires
        0 <= from,
        to <= list.len(),
    ensures
        list.len() <= widened(links, list, from, to).len(),
        widened(links, list, from, to).take(list.len() as int) == list,
        forall|x: u64| #[trigger] widened(links, list, from, to).contains(x) <==> list.contains(x)
            || exists|i: int| from <= i < to && #[trigger] neighbors_of(links, list[i]).contains(x),
        list.no_duplicates() ==> widened(links, list, from, to).no_duplicates(),
    decreases to - from,
{
    if to > from {
        let before = widened(links, list, from, to - 1);
        let xs = neighbors_of(links, list[to - 1]);
        widened_extends(links, list, from, to - 1);
        with_new_extends(before, xs);
        let after = widened(links, list, from, to);
        assert(after.take(list.len() as int) =~= after.take(before.len() as int).take(
            list.len() as int,
        ));
        assert forall|x: u64| #[trigger] after.contains(x) <==> list.contains(x) || exists|i: int|
            from <= i < to && #[trigger] neighbors_of(links, list[i]).contains(x) by {
            assert(after.contains(x) <==> before.contains(x) || xs.contains(x));
            assert(before.contains(x) <==> list.contains(x) || exists|i: int|
                from <= i < to - 1 && #[trigger] neighbors_of(links, list[i]).contains(x));
            if xs.contains(x) {
                assert(neighbors_of(links, list[to - 1]).contains(x));
            }
        }
    } else {
        assert(list.take(list.len() as int) =~= list);
    }
}

proof fn layers_fit(links: Seq<(u64, u64, u64)>, start: u64, hops: nat)
    ensures
        ({
            let (list, from) = layers(links, start, hops);
            &&& 0 <= from <= list.len()
            &&& list.len() >= 1
            &&& list[0] == start
            &&& list.no_duplicates()
        }),
    decreases hops,
{
    if hops > 0 {
        layers_fit(links, start, (hops - 1) as nat);
        let (list, from) = layers(links, start, (hops - 1) as nat);
        widened_extends(links, list, from, list.len() as int);
        let after = widened(links, list, from, list.len() as int);
        assert(after.take(list.len() as int)[0] == after[0]);
    }
}

/// Once a round of hops finds nothing new, no further one does.
proof fn layers_settle(links: Seq<(u64, u64, u64)>, start: u64, hops: nat, more: nat)
    requires
        hops <= more,
        layers(links, start, hops).1 == layers(links, start, hops).0.len(),
    ensures
        layers(links, start, more).0 == layers(links, start, hops).0,
        layers(links, start, more).1 == layers(links, start, more).0.len(),
    decreases more,
{
    if hops < more {
        layers_settle(links, start, hops, (more - 1) as nat);
    }
}

/// A traversal finds every entity once, and never the one that it starts from.
pub proof fn traversals_do_not_repeat(links: Seq<(u64, u64, u64)>, start: u64, hops: nat)
    ensures
        traversed(links, start, hops).no_duplicates(),
        !traversed(links, start, hops).contains(start),
{
    layers_fit(links, start, hops);
    let list = layers(links, start, hops).0;
    let found = traversed(links, start, hops);
    assert forall|i: int, j: int|
        0 <= i < found.len() && 0 <= j < found.len() && i != j implies found[i] != found[j] by {
        assert(found[i] == list[i + 1] && found[j] == list[j + 1]);
    }
    if found.contains(start) {
        let k = choose|k: int| 0 <= k < found.len() && found[k] == start;
        assert(list[k + 1] == list[0]);
    }
}

/// Going further finds the same entities first, in the same order.
pub proof fn deeper_traversals_extend(links: Seq<(u64, u64, u64)>, start: u64, hops: nat)
    ensures
        traversed(links, start, hops).len() <= traversed(links, start, hops + 1).len(),
        traversed(links, start, hops + 1).take(traversed(links, start, hops).len() as int)
            == traversed(links, start, hops),
{
    layers_fit(links, start, hops);
    let (list, from) = layers(links, start, hops);
    widened_extends(links, list, from, list.len() as int);
    let after = layers(links, start, hops + 1).0;
    assert(after == widened(links, list, from, list.len() as int));
    assert(traversed(links, start, hops + 1).take(traversed(links, start, hops).len() as int)
        =~= after.take(list.len() as int).skip(1));
}

/// A neighbor of one of a set of entities.
pub open spec fn beside(links: Seq<(u64, u64, u64)>, set: Set<u64>, n: u64) -> bool {
    exists|via: u64| #[trigger] set.contains(via) && neighbors_of(links, via).contains(n)
}

/// The entities that can be reached from a start within some hops, in either direction
/// of the relations.
pub open spec fn reach(links: Seq<(u64, u64, u64)>, start: u64, hops: nat) -> Set<u64>
    decreases hops,
{
    if hops == 0 {
        Set::empty().insert(start)
    } else {
        let nearer = reach(links, start, (hops - 1) as nat);
        Set::new(|n: u64| nearer.contains(n) || beside(links, nearer, n))
    }
}

/// An entity can be reached from a start within some hops.
pub open spec fn reachable(links: Seq<(u64, u64, u64)>, start: u64, n: u64, hops: nat) -> bool {
    reach(links, start, hops).contains(n)
}

proof fn layers_reach(links: Seq<(u64, u64, u64)>, start: u64, hops: nat, n: u64)
    ensures
        layers(links, start, hops).0.contains(n) <==> reachable(links, start, n, hops),
    decreases hops,
{
    layers_fit(links, start, hops);
    if hops == 0 {
        let list = layers(links, start, 0).0;
        assert(list[0] == start);
        if list.contains(n) {
            let k = choose|k: int| 0 <= k < list.len() && list[k] == n;
        }
    } else {
        let h = (hops - 1) as nat;
        let (list, from) = layers(links, start, h);
        layers_fit(links, start, h);
        widened_extends(links, list, from, list.len() as int);
        let after = layers(links, start, hops).0;
        layers_reach(links, start, h, n);
        let nearer = reach(links, start, h);
        if after.contains(n) && !list.contains(n) {
            let i = choose|i: int|
                from <= i < list.len() && #[trigger] neighbors_of(links, list[i]).contains(n);
            assert(list.contains(list[i]));
            layers_reach(links, start, h, list[i]);
            assert(nearer.contains(list[i]));
            assert(beside(links, nearer, n));
        }
        if beside(links, nearer, n) {
            let via = choose|via: u64| #[trigger]
                nearer.contains(via) && neighbors_of(links, via).contains(n);
            layers_reach(links, start, h, via);
            assert(list.contains(via));
            let i = choose|i: int| 0 <= i < list.len() && list[i] == via;
            if i < from {
                earlier_layers_are_done(links, start, h, i, n);
                assert(list.contains(n));
            } else {
                assert(neighbors_of(links, list[i]).contains(n));
            }
        }
    }
}

/// The neighbors of what was found before the last round have been found.
proof fn earlier_layers_are_done(
    links: Seq<(u64, u64, u64)>,
    start: u64,
    hops: nat,
    i: int,
    n: u64,
)
    requires
        0 <= i < layers(links, start, hops).1,
        neighbors_of(links, layers(links, start, hops).0[i]).contains(n),
    ensures
        layers(links, start, hops).0.contains(n),
    decreases hops,
{
    if hops > 0 {
        let h = (hops - 1) as nat;
        let (list, from) = layers(links, start, h);
        layers_fit(links, start, h);
        widened_extends(links, list, from, list.len() as int);
        let after = layers(links, start, hops).0;
        assert(after.take(list.len() as int)[i] == after[i]);
        if i < from {
            earlier_layers_are_done(links, start, h, i, n);
            assert(list.contains(n));
        } else {
            assert(neighbors_of(links, list[i]).contains(n));
        }
        assert(after.contains(n));
    }
}

/// A traversal finds exactly what can be reached within its hops, the start aside.
pub proof fn traversals_find_what_is_reachable(
    links: Seq<(u64, u64, u64)>,
    start: u64,
    hops: nat,
    n: u64,
)
    ensures
        traversed(links, start, hops).contains(n) <==> n != start && reachable(
            links,
            start,
            n,
            hops,
        ),
{
    layers_fit(links, start, hops);
    layers_reach(links, start, hops, n);
    traversals_do_not_repeat(links, start, hops);
    let list = layers(links, start, hops).0;
    let found = traversed(links, start, hops);
    if found.contains(n) {
        let k = choose|k: int| 0 <= k < found.len() && found[k] == n;
        assert(list[k + 1] == n);
    }
    if list.contains(n) && n != start {
        let k = choose|k: int| 0 <= k < list.len() && list[k] == n;
        assert(found[k - 1] == n);
    }
}

/// Loading a project a second time changes nothing.
pub proof fn loading_again_changes_nothing(
    m: GraphModel,
    project: Seq<char>,
    es: Seq<Entity>,
    rs: Seq<GraphRelation>,
    es2: Seq<Entity>,
    rs2: Seq<GraphRelation>,
)
    ensures
        with_project(with_project(m, project, es, rs), project, es2, rs2) == with_project(
            m,
            project,
            es,
            rs,
        ),
{
}

/// Loading a project clears nothing: every id that led to an entity still leads to one.
pub proof fn loading_keeps_entities(
    m: GraphModel,
    project: Seq<char>,
    es: Seq<Entity>,
    rs: Seq<GraphRelation>,
    id: Seq<char>,
)
    requires
        m.index.dom().contains(id),
    ensures
        with_project(m, project, es, rs).index.dom().contains(id),
{
    entities_keep_index(m, es, id);
    relations_keep_index(with_entities(m, es), rs);
}

proof fn entities_keep_index(m: GraphModel, es: Seq<Entity>, id: Seq<char>)
    requires
        m.index.dom().contains(id),
    ensures
        with_entities(m, es).index.dom().contains(id),
    decreases es.len(),
{
    if es.len() > 0 {
        entities_keep_index(m, es.drop_last(), id);
    }
}

proof fn relations_keep_index(m: GraphModel, rs: Seq<GraphRelation>)
    ensures
        with_relations(m, rs).index == m.index,
    decreases rs.len(),
{
    if rs.len() > 0 {
        relations_keep_index(m, rs.drop_last());
    }
}

/// Removing an entity leaves every other id leading where it led.
pub proof fn removal_leaves_others(m: GraphModel, id: Seq<char>, other: Seq<char>)
    requires
        other != id,
    ensures
        without_entity(m, id).index.dom().contains(other) == m.index.dom().contains(other),
        m.index.dom().contains(other) ==> without_entity(m, id).index[other] == m.index[other],
        !without_entity(m, id).index.dom().contains(id),
{
}

/// A relation leads from one entity to the other, in either direction.
pub open spec fn linked(links: Seq<(u64, u64, u64)>, a: u64, b: u64) -> bool {
    exists|k: int|
        0 <= k < links.len() && ((#[trigger] links[k]).0 == a && links[k].1 == b || links[k].0 == b
            && links[k].1 == a)
}

/// The neighbors of an entity are those that a relation joins to it, and its relations are
/// all that touch it.
pub proof fn neighbors_are_linked(links: Seq<(u64, u64, u64)>, n: u64)
    ensures
        forall|x: u64| #[trigger] neighbors_of(links, n).contains(x) <==> linked(links, n, x),
        forall|w: u64| #[trigger]
            relations_of(links, n).contains(w) <==> exists|k: int|
                0 <= k < links.len() && (#[trigger] links[k]).2 == w && (links[k].0 == n
                    || links[k].1 == n),
    decreases links.len(),
{
    let out = store::outgoing(links, n);
    let into = store::incoming(links, n);
    listed_edges(links, n);
    let near = neighbors_of(links, n);
    let ends = store::ends(out);
    let starts = store::starts(into);
    assert forall|x: u64| #[trigger] near.contains(x) <==> linked(links, n, x) by {
        if near.contains(x) {
            let i = choose|i: int| 0 <= i < near.len() && near[i] == x;
            if i < out.len() {
                assert(ends[i] == out[i].1);
                assert(out.contains(out[i]));
                let k = choose|k: int| 0 <= k < links.len() && links[k] == out[i];
                assert(links[k].0 == n && links[k].1 == x);
            } else {
                let j = i - out.len();
                assert(starts[j] == into[j].0);
                assert(into.contains(into[j]));
                let k = choose|k: int| 0 <= k < links.len() && links[k] == into[j];
                assert(links[k].1 == n && links[k].0 == x);
            }
        }
        if linked(links, n, x) {
            let k = choose|k: int|
                0 <= k < links.len() && ((#[trigger] links[k]).0 == n && links[k].1 == x
                    || links[k].0 == x && links[k].1 == n);
            assert(links.contains(links[k]));
            if links[k].0 == n && links[k].1 == x {
                assert(out.contains(links[k]));
                let i = choose|i: int| 0 <= i < out.len() && out[i] == links[k];
                assert(ends[i] == x);
                assert(near[i] == x);
            } else {
                assert(into.contains(links[k]));
                let j = choose|j: int| 0 <= j < into.len() && into[j] == links[k];
                assert(starts[j] == x);
                assert(near[out.len() + j] == x);
            }
        }
    }
    let numbers = relations_of(links, n);
    let first = store::weights(out);
    let second = store::weights(into);
    assert forall|w: u64| #[trigger] numbers.contains(w) <==> exists|k: int|
        0 <= k < links.len() && (#[trigger] links[k]).2 == w && (links[k].0 == n || links[k].1
            == n) by {
        if numbers.contains(w) {
            let i = choose|i: int| 0 <= i < numbers.len() && numbers[i] == w;
            if i < out.len() {
                assert(first[i] == out[i].2);
                assert(out.contains(out[i]));
                let k = choose|k: int| 0 <= k < links.len() && links[k] == out[i];
                assert(links[k].2 == w && links[k].0 == n);
            } else {
                let j = i - out.len();
                assert(second[j] == into[j].2);
                assert(into.contains(into[j]));
                let k = choose|k: int| 0 <= k < links.len() && links[k] == into[j];
                assert(links[k].2 == w && links[k].1 == n);
            }
        }
        if exists|k: int|
            0 <= k < links.len() && (#[trigger] links[k]).2 == w && (links[k].0 == n || links[k].1
                == n) {
            let k = choose|k: int|
                0 <= k < links.len() && (#[trigger] links[k]).2 == w && (links[k].0 == n
                    || links[k].1 == n);
            assert(links.contains(links[k]));
            if links[k].0 == n {
                assert(out.contains(links[k]));
                let i = choose|i: int| 0 <= i < out.len() && out[i] == links[k];
                assert(first[i] == w);
                assert(numbers[i] == w);
            } else {
                assert(into.contains(links[k]));
                let j = choose|j: int| 0 <= j < into.len() && into[j] == links[k];
                assert(second[j] == w);
                assert(numbers[out.len() + j] == w);
            }
        }
    }
}

proof fn listed_edges(links: Seq<(u64, u64, u64)>, n: u64)
    ensures
        forall|e: (u64, u64, u64)| #[trigger]
            store::outgoing(links, n).contains(e) <==> links.contains(e) && e.0 == n,
        forall|e: (u64, u64, u64)| #[trigger]
            store::incoming(links, n).contains(e) <==> links.contains(e) && e.1 == n,
    decreases links.len(),
{
    if links.len() > 0 {
        let rest = links.drop_last();
        let last = links.last();
        listed_edges(rest, n);
        assert(links =~= rest.push(last));
        let out = store::outgoing(links, n);
        let old_out = store::outgoing(rest, n);
        let into = store::incoming(links, n);
        let old_into = store::incoming(rest, n);
        assert forall|e: (u64, u64, u64)| #[trigger] out.contains(e) <==> links.contains(e) && e.0
            == n by {
            one_more_edge(rest, last, e);
            one_edge_first(old_out, last, e);
            assert(old_out.contains(e) <==> rest.contains(e) && e.0 == n);
        }
        assert forall|e: (u64, u64, u64)| #[trigger] into.contains(e) <==> links.contains(e) && e.1
            == n by {
            one_more_edge(rest, last, e);
            one_edge_first(old_into, last, e);
            assert(old_into.contains(e) <==> rest.contains(e) && e.1 == n);
        }
    }
}

proof fn one_more_edge(s: Seq<(u64, u64, u64)>, x: (u64, u64, u64), e: (u64, u64, u64))
    ensures
        s.push(x).contains(e) <==> s.contains(e) || e == x,
{
    if s.contains(e) {
        let i = choose|i: int| 0 <= i < s.len() && s[i] == e;
        assert(s.push(x)[i] == e);
    }
    if e == x {
        assert(s.push(x)[s.len() as int] == e);
    }
}

proof fn one_edge_first(s: Seq<(u64, u64, u64)>, x: (u64, u64, u64), e: (u64, u64, u64))
    ensures
        (Seq::empty().push(x) + s).contains(e) <==> s.contains(e) || e == x,
{
    let t = Seq::empty().push(x) + s;
    if s.contains(e) {
        let i = choose|i: int| 0 <= i < s.len() && s[i] == e;
        assert(t[i + 1] == e);
    }
    if e == x {
        assert(t[0] == e);
    }
    if t.contains(e) {
        let i = choose|i: int| 0 <= i < t.len() && t[i] == e;
        if i > 0 {
            assert(s[i - 1] == e);
        }
    }
}

/// Within no hop only the start is reached; with one hop more, what was reached before and
/// whatever a relation joins to it.
pub proof fn hops_follow_relations(links: Seq<(u64, u64, u64)>, start: u64, n: u64, hops: nat)
    ensures
        reachable(links, start, n, 0) <==> n == start,
        reachable(links, start, n, hops + 1) <==> reachable(links, start, n, hops) || exists|
            via: u64,
        |
            reachable(links, start, via, hops) && #[trigger] linked(links, via, n),
{
    let nearer = reach(links, start, hops);
    if beside(links, nearer, n) {
        let via = choose|via: u64|
            #[trigger] nearer.contains(via) && neighbors_of(links, via).contains(n);
        neighbors_are_linked(links, via);
        assert(linked(links, via, n));
    }
    if exists|via: u64| reachable(links, start, via, hops) && #[trigger] linked(links, via, n) {
        let via = choose|via: u64|
            reachable(links, start, via, hops) && #[trigger] linked(links, via, n);
        neighbors_are_linked(links, via);
        assert(nearer.contains(via) && neighbors_of(links, via).contains(n));
    }
}

/// An entity that was added is found under its own id, and the others as before.
pub proof fn added_entities_are_found(m: GraphModel, e: Entity, other: Seq<char>)
    requires
        m.entities.len() <= u64::MAX,
    ensures
        with_entity(m, e).index.dom().contains(e.id@),
        with_entity(m, e).entities[with_entity(m, e).index[e.id@] as int] == e,
        other != e.id@ ==> (with_entity(m, e).index.dom().contains(other)
            <==> m.index.dom().contains(other)),
        other != e.id@ && m.index.dom().contains(other) ==> with_entity(m, e).index[other]
            == m.index[other],
        with_entity(m, e).links == m.links,
        with_entity(m, e).relations == m.relations,
{
}

/// A relation between entities that can be found joins the two of them and is listed for
/// both; one that lacks an end changes nothing.
pub proof fn added_relations_are_listed(m: GraphModel, r: GraphRelation)
    requires
        m.relations.len() <= u64::MAX,
    ensures
        ({
            let both = m.index.dom().contains(r.from_entity@) && m.index.dom().contains(
                r.to_entity@,
            );
            let after = with_relation(m, r);
            let number = m.relations.len() as u64;
            &&& !both ==> after == m
            &&& both ==> {
                &&& after.relations[number as int] == r
                &&& linked(after.links, m.index[r.from_entity@], m.index[r.to_entity@])
                &&& relations_of(after.links, m.index[r.from_entity@]).contains(number)
                &&& relations_of(after.links, m.index[r.to_entity@]).contains(number)
                &&& after.index == m.index
                &&& after.nodes == m.nodes
            }
        }),
{
    if joins(m, r) {
        let after = with_relation(m, r);
        let a = m.index[r.from_entity@];
        let b = m.index[r.to_entity@];
        let k = m.links.len() as int;
        let number = m.relations.len() as u64;
        assert(after.links[k] == (a, b, number));
        neighbors_are_linked(after.links, a);
        neighbors_are_linked(after.links, b);
    }
}

/// Loading entities makes each of them findable under its own id, where the ids differ, and
/// loading relations adds those both of whose ends can be found, in their order.
pub proof fn loaded_entities_are_found(m: GraphModel, es: Seq<Entity>, rs: Seq<GraphRelation>)
    requires
        m.entities.len() + es.len() <= u64::MAX,
        forall|i: int, j: int|
            0 <= i < j < es.len() ==> (#[trigger] es[i]).id@ != (#[trigger] es[j]).id@,
    ensures
        with_entities(m, es).entities == m.entities + es,
        forall|i: int|
            0 <= i < es.len() ==> with_entities(m, es).index.dom().contains((#[trigger] es[i]).id@)
                && with_entities(m, es).entities[with_entities(m, es).index[es[i].id@] as int]
                == es[i],
        with_relations(m, rs).relations == m.relations + rs.filter(
            |r: GraphRelation|
                m.index.dom().contains(r.from_entity@) && m.index.dom().contains(r.to_entity@),
        ),
        with_relations(m, rs).index == m.index,
    decreases es.len(),
{
    relations_that_join(m, rs);
    if es.len() > 0 {
        let rest = es.drop_last();
        let e = es.last();
        let before = with_entities(m, rest);
        let after = with_entities(m, es);
        assert forall|i: int, j: int| 0 <= i < j < rest.len() implies (#[trigger] rest[i]).id@ != (
        #[trigger] rest[j]).id@ by {
            assert(es[i].id@ != es[j].id@);
        }
        loaded_entities_are_found(m, rest, rs);
        assert(after.entities =~= m.entities + es);
        assert forall|i: int| 0 <= i < es.len() implies after.index.dom().contains(
            (#[trigger] es[i]).id@,
        ) && after.entities[after.index[es[i].id@] as int] == es[i] by {
            if i < rest.len() {
                assert(rest[i] == es[i]);
                assert(es[i].id@ != es[es.len() - 1].id@);
                assert(after.index[es[i].id@] == before.index[rest[i].id@]);
                entities_index_in_range(m, rest, i);
            }
        }
    } else {
        assert(with_entities(m, es).entities =~= m.entities + es);
    }
}

proof fn entities_index_in_range(m: GraphModel, es: Seq<Entity>, i: int)
    requires
        0 <= i < es.len(),
        m.entities.len() + es.len() <= u64::MAX,
    ensures
        with_entities(m, es).entities.len() == m.entities.len() + es.len(),
        with_entities(m, es).index.dom().contains(es[i].id@),
        with_entities(m, es).index[es[i].id@] < with_entities(m, es).entities.len(),
    decreases es.len(),
{
    let rest = es.drop_last();
    entities_count(m, rest);
    if i < rest.len() {
        assert(rest[i] == es[i]);
        entities_index_in_range(m, rest, i);
    }
}

proof fn entities_count(m: GraphModel, es: Seq<Entity>)
    ensures
        with_entities(m, es).entities.len() == m.entities.len() + es.len(),
    decreases es.len(),
{
    if es.len() > 0 {
        entities_count(m, es.drop_last());
    }
}

proof fn relations_that_join(m: GraphModel, rs: Seq<GraphRelation>)
    ensures
        with_relations(m, rs).relations == m.relations + rs.filter(
            |r: GraphRelation|
                m.index.dom().contains(r.from_entity@) && m.index.dom().contains(r.to_entity@),
        ),
        with_relations(m, rs).index == m.index,
    decreases rs.len(),
{
    reveal(Seq::filter);
    let both = |r: GraphRelation|
        m.index.dom().contains(r.from_entity@) && m.index.dom().contains(r.to_entity@);
    if rs.len() > 0 {
        relations_that_join(m, rs.drop_last());
        assert(with_relations(m, rs).relations =~= m.relations + rs.filter(both));
    } else {
        assert(with_relations(m, rs).relations =~= m.relations + rs.filter(both));
    }
}

} // verus!
