use crate::errors::{UorError, UorResult};
use vstd::pervasive::VecAdditionalExecFns;
use vstd::prelude::*;
use vstd::string::StringExecFns;

verus! {

/// A single node of the graph: a unique string identifier and an opaque
/// string payload.
#[derive(Debug)]
pub struct ManifoldNode {
    pub id: String,
    pub data: String,
}

impl View for ManifoldNode {
    type V = (Seq<char>, Seq<char>);

    open spec fn view(&self) -> (Seq<char>, Seq<char>) {
        (self.id@, self.data@)
    }
}

impl Clone for ManifoldNode {
    fn clone(&self) -> (r: Self)
        ensures
            r == *self,
    {
        ManifoldNode { id: self.id.clone(), data: self.data.clone() }
    }
}

/// One adjacency entry: a source node id together with the ordered list of
/// destination ids reachable from it.
#[derive(Debug)]
struct EdgeList {
    from: String,
    targets: Vec<String>,
}

impl View for EdgeList {
    type V = (Seq<char>, Seq<Seq<char>>);

    closed spec fn view(&self) -> (Seq<char>, Seq<Seq<char>>) {
        (self.from@, self.targets.deep_view())
    }
}

impl Clone for EdgeList {
    fn clone(&self) -> (r: Self)
        ensures
            r@ == self@,
    {
        let r = EdgeList { from: self.from.clone(), targets: clone_string_vec(&self.targets) };
        proof {
            assert(r.targets.deep_view() =~= self.targets.deep_view());
        }
        r
    }
}

impl Clone for Manifold {
    /// Produces a graph with the same mathematical value as the one cloned.
    fn clone(&self) -> (r: Self)
        ensures
            r@ == self@,
            r.wf() <==> self.wf(),
    {
        let mut ns: Vec<ManifoldNode> = Vec::new();
        let mut i: usize = 0;
        while i < self.nodes.len()
            invariant
                i <= self.nodes@.len(),
                ns@ == self.nodes@.take(i as int),
            decreases self.nodes@.len() - i,
        {
            ns.push(self.nodes[i].clone());
            proof {
                assert(self.nodes@.take(i + 1 as int) =~= self.nodes@.take(i as int).push(
                    self.nodes@[i as int],
                ));
            }
            i = i + 1;
        }
        proof {
            assert(self.nodes@.take(self.nodes@.len() as int) =~= self.nodes@);
        }
        let mut es: Vec<EdgeList> = Vec::new();
        let mut j: usize = 0;
        while j < self.edges.len()
            invariant
                j <= self.edges@.len(),
                es@.len() == j,
                forall|k: int| 0 <= k < j ==> (#[trigger] es@[k])@ == self.edges@[k]@,
            decreases self.edges@.len() - j,
        {
            es.push(self.edges[j].clone());
            j = j + 1;
        }
        let r = Manifold { nodes: ns, edges: es };
        proof {
            assert(r.node_pairs() =~= self.node_pairs());
            assert(r.edge_pairs() =~= self.edge_pairs());
        }
        r
    }
}

/// The mapping described by an association list; a later entry for the same
/// key overrides an earlier one.
pub open spec fn assoc_map<K, V>(s: Seq<(K, V)>) -> Map<K, V>
    decreases s.len(),
{
    if s.len() == 0 {
        Map::empty()
    } else {
        assoc_map(s.drop_last()).insert(s.last().0, s.last().1)
    }
}

/// All keys of the association list are distinct.
pub open spec fn keys_unique<K, V>(s: Seq<(K, V)>) -> bool {
    forall|i: int, j: int| 0 <= i < j < s.len() ==> (#[trigger] s[i]).0 != (#[trigger] s[j]).0
}

proof fn lemma_assoc_map_dom<K, V>(s: Seq<(K, V)>)
    ensures
        assoc_map(s).dom().finite(),
        forall|k: K| #[trigger] assoc_map(s).contains_key(k) <==> (exists|i: int|
            0 <= i < s.len() && (#[trigger] s[i]).0 == k),
    decreases s.len(),
{
    if s.len() == 0 {
        assert(assoc_map(s) =~= Map::<K, V>::empty());
    } else {
        let t = s.drop_last();
        lemma_assoc_map_dom(t);
        assert forall|k: K| #[trigger] assoc_map(s).contains_key(k) implies (exists|i: int|
            0 <= i < s.len() && (#[trigger] s[i]).0 == k) by {
            if k == s.last().0 {
                assert(0 <= s.len() - 1 < s.len() && s[s.len() - 1].0 == k);
            } else {
                assert(assoc_map(t).contains_key(k));
                let i = choose|i: int| 0 <= i < t.len() && (#[trigger] t[i]).0 == k;
                assert(0 <= i < s.len() && s[i].0 == k);
            }
        }
        assert forall|k: K| (exists|i: int| 0 <= i < s.len() && (#[trigger] s[i]).0 == k) implies #[trigger] assoc_map(
            s,
        ).contains_key(k) by {
            let i = choose|i: int| 0 <= i < s.len() && (#[trigger] s[i]).0 == k;
            if i == s.len() - 1 {
                assert(assoc_map(s).contains_key(s.last().0));
            } else {
                assert(t[i].0 == k);
                assert(assoc_map(t).contains_key(k));
            }
        }
    }
}

proof fn lemma_assoc_map_len<K, V>(s: Seq<(K, V)>)
    requires
        keys_unique(s),
    ensures
        assoc_map(s).len() == s.len(),
    decreases s.len(),
{
    if s.len() > 0 {
        let t = s.drop_last();
        assert(keys_unique(t));
        lemma_assoc_map_len(t);
        lemma_assoc_map_dom(t);
        let k = s.last().0;
        assert(!assoc_map(t).contains_key(k)) by {
            if assoc_map(t).contains_key(k) {
                let i = choose|i: int| 0 <= i < t.len() && (#[trigger] t[i]).0 == k;
                assert(s[i].0 == s[s.len() - 1].0);
            }
        }
        assert(assoc_map(s).dom() =~= assoc_map(t).dom().insert(k));
        vstd::set::axiom_set_insert_len(assoc_map(t).dom(), k);
    }
}

proof fn lemma_assoc_map_index<K, V>(s: Seq<(K, V)>, i: int)
    requires
        keys_unique(s),
        0 <= i < s.len(),
    ensures
        assoc_map(s).contains_key(s[i].0),
        assoc_map(s)[s[i].0] == s[i].1,
    decreases s.len(),
{
    let t = s.drop_last();
    if i == s.len() - 1 {
        assert(assoc_map(s) == assoc_map(t).insert(s[i].0, s[i].1));
    } else {
        assert(keys_unique(t));
        assert(t[i] == s[i]);
        lemma_assoc_map_index(t, i);
        assert(s.last().0 != s[i].0);
    }
}

proof fn lemma_assoc_map_update<K, V>(s: Seq<(K, V)>, i: int, v: V)
    requires
        keys_unique(s),
        0 <= i < s.len(),
    ensures
        assoc_map(s.update(i, (s[i].0, v))) == assoc_map(s).insert(s[i].0, v),
        keys_unique(s.update(i, (s[i].0, v))),
    decreases s.len(),
{
    let s2 = s.update(i, (s[i].0, v));
    assert forall|p: int, q: int| 0 <= p < q < s2.len() implies (#[trigger] s2[p]).0 != (
    #[trigger] s2[q]).0 by {
        assert(s2[p].0 == s[p].0 && s2[q].0 == s[q].0);
    }
    if i == s.len() - 1 {
        assert(s2.drop_last() =~= s.drop_last());
        assert(s2.last() == (s[i].0, v));
        assert(assoc_map(s.drop_last()).insert(s[i].0, s[i].1).insert(s[i].0, v) =~= assoc_map(
            s.drop_last(),
        ).insert(s[i].0, v));
    } else {
        let t = s.drop_last();
        let t2 = s2.drop_last();
        assert(t2 =~= t.update(i, (s[i].0, v)));
        assert(keys_unique(t));
        assert(t[i] == s[i]);
        lemma_assoc_map_update(t, i, v);
        assert(s2.last() == s.last());
        assert(s.last().0 != s[i].0);
        assert(assoc_map(t).insert(s[i].0, v).insert(s.last().0, s.last().1) =~= assoc_map(
            t,
        ).insert(s.last().0, s.last().1).insert(s[i].0, v));
    }
}

proof fn lemma_assoc_map_push<K, V>(s: Seq<(K, V)>, p: (K, V))
    ensures
        assoc_map(s.push(p)) == assoc_map(s).insert(p.0, p.1),
{
    assert(s.push(p).drop_last() =~= s);
    assert(s.push(p).last() == p);
}

/// The mathematical value of a `Manifold`: a finite mapping from node id to
/// node payload, and a finite mapping from source node id to the ordered
/// sequence of destination ids.
pub ghost struct ManifoldView {
    pub nodes: Map<Seq<char>, Seq<char>>,
    pub edges: Map<Seq<char>, Seq<Seq<char>>>,
}

/// The directed graph flowing through the pipeline: a set of uniquely
/// identified nodes and a directed adjacency relation between them.
#[derive(Debug)]
pub struct Manifold {
    nodes: Vec<ManifoldNode>,
    edges: Vec<EdgeList>,
}

impl View for Manifold {
    type V = ManifoldView;

    closed spec fn view(&self) -> ManifoldView {
        ManifoldView {
            nodes: assoc_map(self.nodes@.map_values(|n: ManifoldNode| n@)),
            edges: assoc_map(self.edges@.map_values(|e: EdgeList| e@)),
        }
    }
}

impl Manifold {
    spec fn node_pairs(self) -> Seq<(Seq<char>, Seq<char>)> {
        self.nodes@.map_values(|n: ManifoldNode| n@)
    }

    spec fn edge_pairs(self) -> Seq<(Seq<char>, Seq<Seq<char>>)> {
        self.edges@.map_values(|e: EdgeList| e@)
    }

    /// Representation invariant: node ids are unique, and each source node
    /// id has at most one adjacency entry.
    pub closed spec fn wf(self) -> bool {
        keys_unique(self.node_pairs()) && keys_unique(self.edge_pairs())
    }

    /// Creates an empty graph: no nodes and no edges.
    pub fn new() -> (r: Self)
        ensures
            r.wf(),
            r@.nodes == Map::<Seq<char>, Seq<char>>::empty(),
            r@.edges == Map::<Seq<char>, Seq<Seq<char>>>::empty(),
    {
        let r = Manifold { nodes: Vec::new(), edges: Vec::new() };
        proof {
            assert(r.node_pairs() =~= Seq::<(Seq<char>, Seq<char>)>::empty());
            assert(r.edge_pairs() =~= Seq::<(Seq<char>, Seq<Seq<char>>)>::empty());
        }
        r
    }

    /// Reports whether a node with the given id is present.
    pub fn contains_node(&self, id: &str) -> (r: bool)
        ensures
            r == self@.nodes.contains_key(id@),
    {
        let key: String = id.to_owned();
        let found = find_node(&self.nodes, &key);
        proof {
            lemma_assoc_map_dom(self.node_pairs());
        }
        match found {
            Some(i) => {
                proof {
                    assert(self.node_pairs()[i as int].0 == id@);
                }
                true
            },
            None => {
                proof {
                    assert forall|i: int| 0 <= i < self.node_pairs().len() implies (
                    #[trigger] self.node_pairs()[i]).0 != id@ by {
                        assert(self.nodes@[i].id@ != key@);
                    }
                }
                false
            },
        }
    }

    /// The number of nodes currently in the graph.
    pub fn node_count(&self) -> (r: usize)
        requires
            self.wf(),
        ensures
            r == self@.nodes.len(),
    {
        proof {
            lemma_assoc_map_len(self.node_pairs());
        }
        self.nodes.len()
    }

    /// The number of source nodes that currently have at least one outgoing
    /// edge recorded.
    pub fn edge_count(&self) -> (r: usize)
        requires
            self.wf(),
        ensures
            r == self@.edges.len(),
    {
        proof {
            lemma_assoc_map_len(self.edge_pairs());
        }
        self.edges.len()
    }

    /// Returns the payload stored under the given node id, if any.
    pub fn node_data(&self, id: &str) -> (r: Option<String>)
        requires
            self.wf(),
        ensures
            self@.nodes.contains_key(id@) ==> (r matches Some(d) && d@ == self@.nodes[id@]),
            !self@.nodes.contains_key(id@) ==> r is None,
    {
        let key: String = id.to_owned();
        let found = find_node(&self.nodes, &key);
        proof {
            lemma_assoc_map_dom(self.node_pairs());
        }
        match found {
            Some(i) => {
                proof {
                    lemma_assoc_map_index(self.node_pairs(), i as int);
                }
                Some(self.nodes[i].data.clone())
            },
            None => {
                proof {
                    assert forall|j: int| 0 <= j < self.node_pairs().len() implies (
                    #[trigger] self.node_pairs()[j]).0 != id@ by {
                        assert(self.nodes@[j].id@ != key@);
                    }
                }
                None
            },
        }
    }

    /// Returns a copy of the ordered destination list recorded for the given
    /// source node id, if any edge has been added from it.
    pub fn targets_of(&self, from: &str) -> (r: Option<Vec<String>>)
        requires
            self.wf(),
        ensures
            self@.edges.contains_key(from@) ==> (r matches Some(v) && v.deep_view()
                == self@.edges[from@]),
            !self@.edges.contains_key(from@) ==> r is None,
    {
        let key: String = from.to_owned();
        let found = find_edge(&self.edges, &key);
        proof {
            lemma_assoc_map_dom(self.edge_pairs());
        }
        match found {
            Some(i) => {
                proof {
                    lemma_assoc_map_index(self.edge_pairs(), i as int);
                }
                let v = clone_string_vec(&self.edges[i].targets);
                proof {
                    assert(v.deep_view() =~= self.edges@[i as int].targets.deep_view());
                }
                Some(v)
            },
            None => {
                proof {
                    assert forall|j: int| 0 <= j < self.edge_pairs().len() implies (
                    #[trigger] self.edge_pairs()[j]).0 != from@ by {
                        assert(self.edges@[j].from@ != key@);
                    }
                }
                None
            },
        }
    }

    /// Inserts a node, keyed by its id; if a node with the same id is
    /// already present, the new node overwrites it (last write wins).
    pub fn add_node(&mut self, node: ManifoldNode)
        requires
            old(self).wf(),
        ensures
            final(self).wf(),
            final(self)@.nodes == old(self)@.nodes.insert(node.id@, node.data@),
            final(self)@.edges == old(self)@.edges,
    {
        let ghost nid = node.id@;
        let ghost ndata = node.data@;
        let found = find_node(&self.nodes, &node.id);
        let ghost old_pairs = self.node_pairs();
        match found {
            Some(i) => {
                self.nodes.set(i, node);
                proof {
                    assert(old_pairs[i as int].0 == nid);
                    assert(self.node_pairs() =~= old_pairs.update(
                        i as int,
                        (old_pairs[i as int].0, ndata),
                    ));
                    lemma_assoc_map_update(old_pairs, i as int, ndata);
                }
            },
            None => {
                self.nodes.push(node);
                proof {
                    assert(self.node_pairs() =~= old_pairs.push((nid, ndata)));
                    lemma_assoc_map_push(old_pairs, (nid, ndata));
                    let qs = self.node_pairs();
                    assert forall|p: int, q: int| 0 <= p < q < qs.len() implies (
                    #[trigger] qs[p]).0 != (#[trigger] qs[q]).0 by {
                        if q == qs.len() - 1 {
                            assert(old(self).nodes@[p].id@ != nid);
                        }
                    }
                }
            },
        }
    }

    /// Appends a directed edge `from -> to`. Fails with a reference error,
    /// changing nothing, when either endpoint is missing; otherwise appends
    /// `to` to the end of `from`'s adjacency list (duplicates permitted).
    pub fn add_edge(&mut self, from: &str, to: &str) -> (r: UorResult<()>)
        requires
            old(self).wf(),
        ensures
            final(self).wf(),
            r is Ok <==> (old(self)@.nodes.contains_key(from@) && old(self)@.nodes.contains_key(
                to@,
            )),
            r matches Err(e) ==> *final(self) == *old(self) && (e matches UorError::General(m)
                && m@ == edge_error_message(from@, to@)),
            r is Ok ==> final(self)@.nodes == old(self)@.nodes && final(self)@.edges == old(
                self,
            )@.edges.insert(from@, appended_targets(old(self)@, from@, to@)),
    {
        let has_from = self.contains_node(from);
        let has_to = self.contains_node(to);
        if !has_from || !has_to {
            let mut msg = String::from_str("Cannot add edge from ");
            msg.append(from);
            msg.append(" to ");
            msg.append(to);
            msg.append(": Node(s) not found");
            proof {
                assert(msg@ =~= edge_error_message(from@, to@));
            }
            return Err(UorError::General(msg));
        }
        let key: String = from.to_owned();
        let found = find_edge(&self.edges, &key);
        let ghost old_pairs = self.edge_pairs();
        proof {
            lemma_assoc_map_dom(old_pairs);
        }
        match found {
            Some(i) => {
                proof {
                    lemma_assoc_map_index(old_pairs, i as int);
                }
                let ghost old_dv = self.edges@[i as int].targets.deep_view();
                let mut ts = clone_string_vec(&self.edges[i].targets);
                ts.push(to.to_owned());
                proof {
                    assert(ts.deep_view() =~= old_dv.push(to@));
                }
                self.edges.set(i, EdgeList { from: key, targets: ts });
                proof {
                    assert(old_pairs[i as int].0 == from@);
                    assert(old_pairs[i as int].1 == old_dv);
                    assert(self.edge_pairs() =~= old_pairs.update(
                        i as int,
                        (old_pairs[i as int].0, old_dv.push(to@)),
                    ));
                    lemma_assoc_map_update(old_pairs, i as int, old_dv.push(to@));
                    assert(old(self)@.edges.contains_key(from@));
                    assert(old(self)@.edges[from@] == old_dv);
                }
            },
            None => {
                let mut ts: Vec<String> = Vec::new();
                ts.push(to.to_owned());
                proof {
                    assert(ts.deep_view() =~= seq![to@]);
                }
                self.edges.push(EdgeList { from: key, targets: ts });
                proof {
                    assert(self.edge_pairs() =~= old_pairs.push((from@, seq![to@])));
                    lemma_assoc_map_push(old_pairs, (from@, seq![to@]));
                    assert forall|j: int| 0 <= j < old_pairs.len() implies (
                    #[trigger] old_pairs[j]).0 != from@ by {
                        assert(old(self).edges@[j].from@ != key@);
                    }
                    assert(!old(self)@.edges.contains_key(from@));
                    let qs = self.edge_pairs();
                    assert forall|p: int, q: int| 0 <= p < q < qs.len() implies (
                    #[trigger] qs[p]).0 != (#[trigger] qs[q]).0 by {
                        if q == qs.len() - 1 {
                            assert(old_pairs[p].0 != from@);
                        }
                    }
                }
            },
        }
        Ok(())
    }
}

/// The adjacency sequence recorded for `from` after appending `to`: the
/// prior sequence extended by `to`, or the singleton sequence when `from`
/// had no adjacency entry yet.
pub open spec fn appended_targets(m: ManifoldView, from: Seq<char>, to: Seq<char>) -> Seq<
    Seq<char>,
> {
    if m.edges.contains_key(from) {
        m.edges[from].push(to)
    } else {
        seq![to]
    }
}

/// The message carried by the reference error that `add_edge` returns when
/// an endpoint is missing.
pub open spec fn edge_error_message(from: Seq<char>, to: Seq<char>) -> Seq<char> {
    "Cannot add edge from "@ + from + " to "@ + to + ": Node(s) not found"@
}

fn clone_string_vec(v: &Vec<String>) -> (r: Vec<String>)
    ensures
        r@ == v@,
{
    let mut r: Vec<String> = Vec::new();
    let mut i: usize = 0;
    while i < v.len()
        invariant
            i <= v@.len(),
            r@ == v@.take(i as int),
        decreases v@.len() - i,
    {
        r.push(v[i].clone());
        proof {
            assert(v@.take(i + 1 as int) =~= v@.take(i as int).push(v@[i as int]));
        }
        i = i + 1;
    }
    proof {
        assert(v@.take(v@.len() as int) =~= v@);
    }
    r
}

fn find_node(nodes: &Vec<ManifoldNode>, key: &String) -> (r: Option<usize>)
    ensures
        match r {
            Some(i) => i < nodes@.len() && nodes@[i as int].id@ == key@,
            None => forall|j: int| 0 <= j < nodes@.len() ==> (#[trigger] nodes@[j]).id@ != key@,
        },
{
    let mut i: usize = 0;
    while i < nodes.len()
        invariant
            i <= nodes@.len(),
            forall|j: int| 0 <= j < i ==> (#[trigger] nodes@[j]).id@ != key@,
        decreases nodes@.len() - i,
    {
        if nodes[i].id == *key {
            return Some(i);
        }
        i = i + 1;
    }
    None
}

fn find_edge(edges: &Vec<EdgeList>, key: &String) -> (r: Option<usize>)
    ensures
        match r {
            Some(i) => i < edges@.len() && edges@[i as int].from@ == key@,
            None => forall|j: int| 0 <= j < edges@.len() ==> (#[trigger] edges@[j]).from@ != key@,
        },
{
    let mut i: usize = 0;
    while i < edges.len()
        invariant
            i <= edges@.len(),
            forall|j: int| 0 <= j < i ==> (#[trigger] edges@[j]).from@ != key@,
        decreases edges@.len() - i,
    {
        if edges[i].from == *key {
            return Some(i);
        }
        i = i + 1;
    }
    None
}

/// Both mappings of a graph's view are finite, whatever sequence of
/// operations produced the graph.
pub proof fn lemma_manifold_maps_finite(m: Manifold)
    ensures
        m@.nodes.dom().finite(),
        m@.edges.dom().finite(),
{
    lemma_assoc_map_dom(m.node_pairs());
    lemma_assoc_map_dom(m.edge_pairs());
}

/// Law: node insertion is idempotent on ids. Inserting a node under an id
/// that is already present overwrites the prior value and leaves the node
/// count unchanged; a fresh id grows the count by exactly one.
pub proof fn lemma_node_insert_overwrites(
    m: Map<Seq<char>, Seq<char>>,
    id: Seq<char>,
    data: Seq<char>,
)
    requires
        m.dom().finite(),
    ensures
        m.insert(id, data)[id] == data,
        m.contains_key(id) ==> m.insert(id, data).len() == m.len(),
        !m.contains_key(id) ==> m.insert(id, data).len() == m.len() + 1,
{
    assert(m.insert(id, data).dom() =~= m.dom().insert(id));
    vstd::set::axiom_set_insert_len(m.dom(), id);
}

/// Law: for any sequence of (id, payload) insertions into an empty node
/// mapping, the domain of the resulting mapping is exactly the set of
/// inserted ids, so the final node count equals the number of distinct ids,
/// however often an id repeats.
pub proof fn lemma_node_count_is_distinct_id_count(ps: Seq<(Seq<char>, Seq<char>)>)
    ensures
        assoc_map(ps).dom() == ps.map_values(|p: (Seq<char>, Seq<char>)| p.0).to_set(),
        assoc_map(ps).len() == ps.map_values(|p: (Seq<char>, Seq<char>)| p.0).to_set().len(),
{
    let ids = ps.map_values(|p: (Seq<char>, Seq<char>)| p.0);
    lemma_assoc_map_dom(ps);
    assert forall|k: Seq<char>| #[trigger] assoc_map(ps).contains_key(k) implies ids.to_set().contains(
        k,
    ) by {
        let i = choose|i: int| 0 <= i < ps.len() && (#[trigger] ps[i]).0 == k;
        assert(ids[i] == k);
    }
    assert forall|k: Seq<char>| #[trigger] ids.to_set().contains(k) implies assoc_map(
        ps,
    ).contains_key(k) by {
        let i = choose|i: int| 0 <= i < ids.len() && ids[i] == k;
        assert(ps[i].0 == k);
    }
    assert(assoc_map(ps).dom() =~= ids.to_set());
}

} // verus!
