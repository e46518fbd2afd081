//! The dependency graph between declared schemas and its topological order.
use vstd::prelude::*;
use vstd::set_lib::lemma_len_subset;
use topological_sort::TopologicalSort;

use crate::current::{ConfigError, CurrentSchema, names_unique_current};

verus! {

#[verifier::external_type_specification]
#[verifier::external_body]
#[verifier::reject_recursive_types(T)]
pub struct ExTopologicalSort<T>(TopologicalSort<T>);

/// The nodes of a dependency graph, each with the set of its successors (the nodes that depend
/// on it) that the graph still holds.
pub uninterp spec fn topo_edges(g: TopologicalSort<String>) -> Map<Seq<char>, Set<Seq<char>>>;

/// Whether a node of the graph has no predecessor left in it.
pub open spec fn is_ready(m: Map<Seq<char>, Set<Seq<char>>>, n: Seq<char>) -> bool {
    m.dom().contains(n) && forall|p: Seq<char>| #[trigger] m.dom().contains(p) ==> !m[p].contains(n)
}

/// Relies on TopologicalSort::new: a graph without nodes.
#[verifier::external_body]
fn graph_new() -> (g: TopologicalSort<String>)
    ensures
        topo_edges(g).dom() == Set::<Seq<char>>::empty(),
{
    TopologicalSort::new()
}

/// Relies on TopologicalSort::insert: adds the node without successors, unless it is present.
#[verifier::external_body]
fn graph_insert(g: &mut TopologicalSort<String>, node: &String)
    ensures
        topo_edges(*final(g)) == if topo_edges(*old(g)).dom().contains(node@) {
            topo_edges(*old(g))
        } else {
            topo_edges(*old(g)).insert(node@, Set::empty())
        },
{
    let _ = g.insert(node.clone());
}

/// The graph after `succ` is made to depend on `prec`: both become nodes, `succ` a successor of
/// `prec`.
pub open spec fn with_dependency(
    m: Map<Seq<char>, Set<Seq<char>>>,
    prec: Seq<char>,
    succ: Seq<char>,
) -> Map<Seq<char>, Set<Seq<char>>> {
    let m1 = if m.dom().contains(prec) {
        m.insert(prec, m[prec].insert(succ))
    } else {
        m.insert(prec, Set::empty().insert(succ))
    };
    if m1.dom().contains(succ) {
        m1
    } else {
        m1.insert(succ, Set::empty())
    }
}

/// Relies on TopologicalSort::add_dependency: `succ` is recorded as a successor of `prec`, and
/// each of the two is added as a node where it is missing.
#[verifier::external_body]
fn graph_add_dependency(g: &mut TopologicalSort<String>, prec: &String, succ: &String)
    ensures
        topo_edges(*final(g)) == with_dependency(topo_edges(*old(g)), prec@, succ@),
{
    g.add_dependency(prec.clone(), succ.clone())
}

/// Relies on TopologicalSort::pop_all: returns each node without a predecessor once, in no
/// particular order, and removes them from the graph.
#[verifier::external_body]
fn graph_pop_all(g: &mut TopologicalSort<String>) -> (r: Vec<String>)
    ensures
        forall|a: int, b: int| 0 <= a < b < r@.len() ==> #[trigger] r@[a]@ != #[trigger] r@[b]@,
        forall|a: int| 0 <= a < r@.len() ==> is_ready(topo_edges(*old(g)), #[trigger] r@[a]@),
        forall|n: Seq<char>|
            is_ready(topo_edges(*old(g)), n) ==> exists|a: int| 0 <= a < r@.len() && #[trigger] r@[a]@ == n,
        topo_edges(*final(g)) == topo_edges(*old(g)).remove_keys(
            Set::new(|n: Seq<char>| is_ready(topo_edges(*old(g)), n)),
        ),
{
    g.pop_all()
}

/// Relies on TopologicalSort::is_empty: whether no node is left.
#[verifier::external_body]
fn graph_is_empty(g: &TopologicalSort<String>) -> (r: bool)
    ensures
        r == (topo_edges(*g).dom() == Set::<Seq<char>>::empty()),
{
    g.is_empty()
}

/// Whether some declared schema carries the name.
pub open spec fn is_declared(cs: Seq<CurrentSchema>, n: Seq<char>) -> bool {
    exists|j: int| 0 <= j < cs.len() && #[trigger] cs[j].name@ == n
}

/// Whether the schema named `a` relates by name to the schema named `b`.
pub open spec fn depends_on(cs: Seq<CurrentSchema>, a: Seq<char>, b: Seq<char>) -> bool {
    exists|i: int, k: int|
        0 <= i < cs.len() && 0 <= k < cs[i].fields@.len() && cs[i].name@ == a
            && #[trigger] cs[i].fields@[k].1.target_name() == Some(b)
}

/// Whether some relation names a schema that is not declared.
pub open spec fn has_undeclared_target(cs: Seq<CurrentSchema>) -> bool {
    exists|i: int, k: int|
        0 <= i < cs.len() && 0 <= k < cs[i].fields@.len() && (#[trigger] cs[i].fields@[k].1.target_name()) is Some
            && !is_declared(cs, cs[i].fields@[k].1.target_name()->Some_0)
}

/// A nonempty set of declared names each of which depends on a member of the set: the names
/// along a cycle of relations form one.
pub open spec fn is_closed_set(cs: Seq<CurrentSchema>, s: Set<Seq<char>>) -> bool {
    &&& exists|n: Seq<char>| s.contains(n)
    &&& forall|n: Seq<char>| #[trigger] s.contains(n) ==> is_declared(cs, n)
    &&& forall|n: Seq<char>|
        #[trigger] s.contains(n) ==> exists|m: Seq<char>| s.contains(m) && depends_on(cs, n, m)
}

/// Whether the relations by name form a cycle.
pub open spec fn has_cycle(cs: Seq<CurrentSchema>) -> bool {
    exists|s: Set<Seq<char>>| is_closed_set(cs, s)
}

/// Whether `order` lists every declared schema once, each after all schemas it depends on.
pub open spec fn is_topological(cs: Seq<CurrentSchema>, order: Seq<usize>) -> bool {
    &&& order.len() == cs.len()
    &&& order.no_duplicates()
    &&& forall|x: int| 0 <= x < order.len() ==> #[trigger] order[x] < cs.len()
    &&& forall|x: int, y: int|
        0 <= x < order.len() && 0 <= y < order.len() && depends_on(
            cs,
            cs[#[trigger] order[x] as int].name@,
            cs[#[trigger] order[y] as int].name@,
        ) ==> y < x
}


/// Whether the schema named `a` relates by name to `p`, counting the fields of the schemas before
/// `i` and the first `k` fields of schema `i`.
pub open spec fn edge_before(cs: Seq<CurrentSchema>, i: int, k: int, p: Seq<char>, a: Seq<char>) -> bool {
    exists|j: int, m: int|
        0 <= j < cs.len() && 0 <= m < cs[j].fields@.len() && (j < i || (j == i && m < k))
            && cs[j].name@ == a && #[trigger] cs[j].fields@[m].1.target_name() == Some(p)
}

proof fn lemma_edge_step(cs: Seq<CurrentSchema>, i: int, k: int)
    requires
        0 <= i < cs.len(),
        0 <= k < cs[i].fields@.len(),
    ensures
        forall|p: Seq<char>, a: Seq<char>|
            #[trigger] edge_before(cs, i, k + 1, p, a) <==> (edge_before(cs, i, k, p, a) || (
            cs[i].fields@[k].1.target_name() == Some(p) && a == cs[i].name@)),
{
    assert forall|p: Seq<char>, a: Seq<char>|
        #[trigger] edge_before(cs, i, k + 1, p, a) <==> (edge_before(cs, i, k, p, a) || (
        cs[i].fields@[k].1.target_name() == Some(p) && a == cs[i].name@)) by {
        if edge_before(cs, i, k + 1, p, a) {
            let (j, m) = choose|j: int, m: int|
                0 <= j < cs.len() && 0 <= m < cs[j].fields@.len() && (j < i || (j == i && m < k + 1))
                    && cs[j].name@ == a && #[trigger] cs[j].fields@[m].1.target_name() == Some(p);
            if !(j == i && m == k) {
                assert(cs[j].fields@[m].1.target_name() == Some(p));
            }
        }
        if cs[i].fields@[k].1.target_name() == Some(p) && a == cs[i].name@ {
            assert(cs[i].fields@[k].1.target_name() == Some(p));
        }
        if edge_before(cs, i, k, p, a) {
            let (j, m) = choose|j: int, m: int|
                0 <= j < cs.len() && 0 <= m < cs[j].fields@.len() && (j < i || (j == i && m < k))
                    && cs[j].name@ == a && #[trigger] cs[j].fields@[m].1.target_name() == Some(p);
            assert(cs[j].fields@[m].1.target_name() == Some(p));
        }
    }
}

proof fn lemma_edge_next_schema(cs: Seq<CurrentSchema>, i: int)
    requires
        0 <= i < cs.len(),
    ensures
        forall|p: Seq<char>, a: Seq<char>|
            #[trigger] edge_before(cs, i + 1, 0, p, a) <==> edge_before(cs, i, cs[i].fields@.len() as int, p, a),
{
    assert forall|p: Seq<char>, a: Seq<char>|
        #[trigger] edge_before(cs, i + 1, 0, p, a) <==> edge_before(cs, i, cs[i].fields@.len() as int, p, a) by {
        if edge_before(cs, i + 1, 0, p, a) {
            let (j, m) = choose|j: int, m: int|
                0 <= j < cs.len() && 0 <= m < cs[j].fields@.len() && (j < i + 1 || (j == i + 1 && m < 0))
                    && cs[j].name@ == a && #[trigger] cs[j].fields@[m].1.target_name() == Some(p);
            assert(cs[j].fields@[m].1.target_name() == Some(p));
        }
        if edge_before(cs, i, cs[i].fields@.len() as int, p, a) {
            let (j, m) = choose|j: int, m: int|
                0 <= j < cs.len() && 0 <= m < cs[j].fields@.len() && (j < i || (j == i && m < cs[i].fields@.len()))
                    && cs[j].name@ == a && #[trigger] cs[j].fields@[m].1.target_name() == Some(p);
            assert(cs[j].fields@[m].1.target_name() == Some(p));
        }
    }
}

proof fn lemma_edge_all(cs: Seq<CurrentSchema>)
    ensures
        forall|p: Seq<char>, a: Seq<char>|
            #[trigger] edge_before(cs, cs.len() as int, 0, p, a) <==> depends_on(cs, a, p),
{
    assert forall|p: Seq<char>, a: Seq<char>|
        #[trigger] edge_before(cs, cs.len() as int, 0, p, a) <==> depends_on(cs, a, p) by {
        if edge_before(cs, cs.len() as int, 0, p, a) {
            let (j, m) = choose|j: int, m: int|
                0 <= j < cs.len() && 0 <= m < cs[j].fields@.len() && (j < cs.len() || (j == cs.len() && m < 0))
                    && cs[j].name@ == a && #[trigger] cs[j].fields@[m].1.target_name() == Some(p);
            assert(cs[j].fields@[m].1.target_name() == Some(p));
        }
        if depends_on(cs, a, p) {
            let (j, m) = choose|j: int, m: int|
                0 <= j < cs.len() && 0 <= m < cs[j].fields@.len() && cs[j].name@ == a
                    && #[trigger] cs[j].fields@[m].1.target_name() == Some(p);
            assert(cs[j].fields@[m].1.target_name() == Some(p));
        }
    }
}

/// Builds the graph with a node for each declared schema and an edge from every schema that a
/// relation names to the schema that holds the relation.
fn build_graph(cs: &Vec<CurrentSchema>) -> (g: TopologicalSort<String>)
    requires
        !has_undeclared_target(cs@),
    ensures
        forall|n: Seq<char>| #[trigger] topo_edges(g).dom().contains(n) <==> is_declared(cs@, n),
        forall|p: Seq<char>, a: Seq<char>|
            topo_edges(g).dom().contains(p) ==> (#[trigger] topo_edges(g)[p].contains(a)
                <==> depends_on(cs@, a, p)),
{
    let mut g = graph_new();
    let mut i: usize = 0;
    while i < cs.len()
        invariant
            0 <= i <= cs@.len(),
            !has_undeclared_target(cs@),
            forall|n: Seq<char>| #[trigger] topo_edges(g).dom().contains(n) ==> is_declared(cs@, n),
            forall|j: int| 0 <= j < i ==> topo_edges(g).dom().contains(#[trigger] cs@[j].name@),
            forall|p: Seq<char>, a: Seq<char>|
                topo_edges(g).dom().contains(p) ==> (#[trigger] topo_edges(g)[p].contains(a)
                    <==> edge_before(cs@, i as int, 0, p, a)),
            forall|p: Seq<char>, a: Seq<char>|
                #[trigger] edge_before(cs@, i as int, 0, p, a) ==> topo_edges(g).dom().contains(p),
        decreases cs@.len() - i,
    {
        let name = &cs[i].name;
        assert(is_declared(cs@, name@));
        graph_insert(&mut g, name);
        let fields = cs[i].fields.iter();
        let mut k: usize = 0;
        while k < fields.len()
            invariant
                0 <= i < cs@.len(),
                0 <= k <= fields@.len(),
                fields@ == cs@[i as int].fields@,
                *name == cs@[i as int].name,
                !has_undeclared_target(cs@),
                forall|n: Seq<char>| #[trigger] topo_edges(g).dom().contains(n) ==> is_declared(cs@, n),
                forall|j: int| 0 <= j <= i ==> topo_edges(g).dom().contains(#[trigger] cs@[j].name@),
                forall|p: Seq<char>, a: Seq<char>|
                    topo_edges(g).dom().contains(p) ==> (#[trigger] topo_edges(g)[p].contains(a)
                        <==> edge_before(cs@, i as int, k as int, p, a)),
                forall|p: Seq<char>, a: Seq<char>|
                    #[trigger] edge_before(cs@, i as int, k as int, p, a) ==> topo_edges(g).dom().contains(p),
            decreases fields@.len() - k,
        {
            proof {
                lemma_edge_step(cs@, i as int, k as int);
            }
            match &fields[k].1 {
                crate::schema_file::SchemaField::Relation { schema, .. } => match &schema.id {
                    crate::schema_file::RelationId::Name(target) => {
                        assert(cs@[i as int].fields@[k as int].1.target_name() == Some(target@));
                        assert(is_declared(cs@, target@));
                        graph_add_dependency(&mut g, target, name);
                    },
                    crate::schema_file::RelationId::Id(_) => {},
                },
                crate::schema_file::SchemaField::Field { .. } => {},
            }
            k = k + 1;
        }
        proof {
            lemma_edge_next_schema(cs@, i as int);
        }
        i = i + 1;
    }
    proof {
        lemma_edge_all(cs@);
        assert forall|n: Seq<char>| #[trigger] topo_edges(g).dom().contains(n) <==> is_declared(cs@, n) by {
            if is_declared(cs@, n) {
                let j = choose|j: int| 0 <= j < cs@.len() && #[trigger] cs@[j].name@ == n;
                assert(topo_edges(g).dom().contains(cs@[j].name@));
            }
        }
    }
    g
}


/// Position of the declared schema with the given name, if there is one.
fn find_declared(cs: &Vec<CurrentSchema>, name: &String) -> (r: Option<usize>)
    ensures
        match r {
            Some(j) => j < cs@.len() && cs@[j as int].name@ == name@,
            None => !is_declared(cs@, name@),
        },
{
    let mut j: usize = 0;
    while j < cs.len()
        invariant
            0 <= j <= cs@.len(),
            forall|x: int| 0 <= x < j ==> #[trigger] cs@[x].name@ != name@,
        decreases cs@.len() - j,
    {
        if cs[j].name == *name {
            return Some(j);
        }
        j = j + 1;
    }
    None
}

/// Finds a relation that names an undeclared schema: the schema's position and the field's.
fn find_undeclared(cs: &Vec<CurrentSchema>) -> (r: Option<(usize, usize)>)
    ensures
        r is None <==> !has_undeclared_target(cs@),
        r matches Some((i, k)) ==> i < cs@.len() && k < cs@[i as int].fields@.len() && (
        cs@[i as int].fields@[k as int].1.target_name() matches Some(t) && !is_declared(cs@, t)),
{
    let mut i: usize = 0;
    while i < cs.len()
        invariant
            0 <= i <= cs@.len(),
            forall|j: int, m: int|
                0 <= j < i && 0 <= m < cs@[j].fields@.len() && (#[trigger] cs@[j].fields@[m].1.target_name()) is Some
                    ==> is_declared(cs@, cs@[j].fields@[m].1.target_name()->Some_0),
        decreases cs@.len() - i,
    {
        let fields = cs[i].fields.iter();
        let mut k: usize = 0;
        while k < fields.len()
            invariant
                0 <= i < cs@.len(),
                0 <= k <= fields@.len(),
                fields@ == cs@[i as int].fields@,
                forall|j: int, m: int|
                    0 <= j < i && 0 <= m < cs@[j].fields@.len() && (#[trigger] cs@[j].fields@[m].1.target_name()) is Some
                        ==> is_declared(cs@, cs@[j].fields@[m].1.target_name()->Some_0),
                forall|m: int|
                    0 <= m < k && (#[trigger] cs@[i as int].fields@[m].1.target_name()) is Some
                        ==> is_declared(cs@, cs@[i as int].fields@[m].1.target_name()->Some_0),
            decreases fields@.len() - k,
        {
            if let crate::schema_file::SchemaField::Relation { schema, .. } = &fields[k].1 {
                if let crate::schema_file::RelationId::Name(target) = &schema.id {
                    if find_declared(cs, target).is_none() {
                        return Some((i, k));
                    }
                }
            }
            k = k + 1;
        }
        i = i + 1;
    }
    None
}

/// A duplicate-free sequence whose elements all occur in `t` is no longer than `t`.
proof fn lemma_distinct_bound<A>(s: Seq<A>, t: Seq<A>)
    requires
        s.no_duplicates(),
        forall|x: int| 0 <= x < s.len() ==> t.contains(#[trigger] s[x]),
    ensures
        s.len() <= t.len(),
{
    s.unique_seq_to_set();
    t.lemma_cardinality_of_set();
    vstd::seq_lib::seq_to_set_is_finite(t);
    assert forall|a: A| s.to_set().contains(a) implies t.to_set().contains(a) by {
        let x = choose|x: int| 0 <= x < s.len() && s[x] == a;
        assert(t.contains(s[x]));
    }
    lemma_len_subset(s.to_set(), t.to_set());
}

/// The positions `0..n`.
pub open spec fn positions(n: nat) -> Seq<usize> {
    Seq::new(n, |x: int| x as usize)
}

/// A topological order leaves no closed set: following dependencies inside one would lead
/// to ever earlier positions.
pub proof fn lemma_order_excludes_cycle(cs: Seq<CurrentSchema>, order: Seq<usize>)
    requires
        cs.len() <= usize::MAX,
        is_topological(cs, order),
        names_unique_current(cs),
    ensures
        !has_cycle(cs),
{
    if has_cycle(cs) {
        let s = choose|s: Set<Seq<char>>| is_closed_set(cs, s);
        let n = choose|n: Seq<char>| s.contains(n);
        lemma_descend(cs, order, s, n);
    }
}

/// Position of a declared name in a topological order.
spec fn position_of(cs: Seq<CurrentSchema>, order: Seq<usize>, n: Seq<char>) -> int {
    choose|x: int| 0 <= x < order.len() && cs[order[x] as int].name@ == n
}

proof fn lemma_position(cs: Seq<CurrentSchema>, order: Seq<usize>, n: Seq<char>)
    requires
        cs.len() <= usize::MAX,
        is_topological(cs, order),
        is_declared(cs, n),
    ensures
        0 <= position_of(cs, order, n) < order.len(),
        cs[order[position_of(cs, order, n)] as int].name@ == n,
{
    let j = choose|j: int| 0 <= j < cs.len() && #[trigger] cs[j].name@ == n;
    lemma_covers(cs, order, j);
    let x = choose|x: int| 0 <= x < order.len() && order[x] == j as usize;
    assert(cs[order[x] as int].name@ == n);
}

/// Every position of a schema occurs in a topological order.
pub proof fn lemma_covers(cs: Seq<CurrentSchema>, order: Seq<usize>, x: int)
    requires
        cs.len() <= usize::MAX,
        is_topological(cs, order),
        0 <= x < cs.len(),
    ensures
        order.contains(x as usize),
{
    if !order.contains(x as usize) {
        let smaller = positions(cs.len()).remove(x);
        assert forall|y: int| 0 <= y < order.len() implies smaller.contains(#[trigger] order[y]) by {
            let v = order[y] as int;
            assert(v != x);
            if v < x {
                assert(smaller[v] == order[y]);
            } else {
                assert(smaller[v - 1] == order[y]);
            }
        }
        lemma_distinct_bound(order, smaller);
    }
}

proof fn lemma_descend(cs: Seq<CurrentSchema>, order: Seq<usize>, s: Set<Seq<char>>, n: Seq<char>)
    requires
        cs.len() <= usize::MAX,
        is_topological(cs, order),
        is_closed_set(cs, s),
    ensures
        !s.contains(n),
    decreases position_of(cs, order, n),
{
    if !s.contains(n) {
        return;
    }
    lemma_position(cs, order, n);
    let m = choose|m: Seq<char>| s.contains(m) && depends_on(cs, n, m);
    lemma_position(cs, order, m);
    let x = position_of(cs, order, n);
    let y = position_of(cs, order, m);
    assert(depends_on(cs, cs[order[x] as int].name@, cs[order[y] as int].name@));
    assert(y < x);
    lemma_descend(cs, order, s, m);
}


/// Whether a name occurs in a list of names.
fn holds_name(names: &Vec<String>, name: &String) -> (r: bool)
    ensures
        r == exists|a: int| 0 <= a < names@.len() && #[trigger] names@[a]@ == name@,
{
    let mut a: usize = 0;
    while a < names.len()
        invariant
            0 <= a <= names@.len(),
            forall|b: int| 0 <= b < a ==> #[trigger] names@[b]@ != name@,
        decreases names@.len() - a,
    {
        if names[a] == *name {
            return true;
        }
        a = a + 1;
    }
    false
}

/// The loop state of the sort: `order` and `emitted` agree, the graph holds exactly the schemas
/// not emitted yet with all their edges, and every emitted schema follows what it depends on.
pub open spec fn sort_state(
    cs: Seq<CurrentSchema>,
    m: Map<Seq<char>, Set<Seq<char>>>,
    order: Seq<usize>,
    emitted: Seq<bool>,
) -> bool {
    &&& emitted.len() == cs.len()
    &&& order.no_duplicates()
    &&& forall|x: int| 0 <= x < order.len() ==> #[trigger] order[x] < cs.len()
    &&& forall|j: int| 0 <= j < cs.len() ==> (#[trigger] emitted[j] <==> order.contains(j as usize))
    &&& forall|n: Seq<char>|
        #[trigger] m.dom().contains(n) <==> exists|j: int|
            0 <= j < cs.len() && #[trigger] cs[j].name@ == n && !emitted[j]
    &&& forall|p: Seq<char>, a: Seq<char>|
        m.dom().contains(p) ==> (#[trigger] m[p].contains(a) <==> depends_on(cs, a, p))
    &&& forall|x: int, j: int|
        0 <= x < order.len() && 0 <= j < cs.len() && depends_on(cs, cs[#[trigger] order[x] as int].name@, #[trigger] cs[j].name@)
            ==> exists|y: int| 0 <= y < x && order[y] == j
}

proof fn lemma_positions_distinct(n: nat)
    requires
        n <= usize::MAX,
    ensures
        positions(n).no_duplicates(),
        forall|x: int| 0 <= x < n ==> #[trigger] positions(n)[x] == x as usize,
{
    assert forall|a: int, b: int| 0 <= a < positions(n).len() && 0 <= b < positions(n).len() && a != b
        implies positions(n)[a] != positions(n)[b] by {}
}

proof fn lemma_covers_bound(cs: Seq<CurrentSchema>, order: Seq<usize>)
    requires
        cs.len() <= usize::MAX,
        order.no_duplicates(),
        forall|x: int| 0 <= x < order.len() ==> #[trigger] order[x] < cs.len(),
    ensures
        order.len() <= cs.len(),
{
    let t = positions(cs.len());
    assert forall|x: int| 0 <= x < order.len() implies t.contains(#[trigger] order[x]) by {
        assert(t[order[x] as int] == order[x]);
    }
    lemma_distinct_bound(order, t);
}

proof fn lemma_remaining_closed(
    cs: Seq<CurrentSchema>,
    before: Map<Seq<char>, Set<Seq<char>>>,
    order: Seq<usize>,
    emitted: Seq<bool>,
)
    requires
        sort_state(cs, before, order, emitted),
        forall|n: Seq<char>| !is_ready(before, n),
        before.dom() != Set::<Seq<char>>::empty(),
    ensures
        has_cycle(cs),
{
    let s = before.dom();
    assert(exists|n: Seq<char>| s.contains(n)) by {
        if forall|n: Seq<char>| !s.contains(n) {
            assert(s =~= Set::<Seq<char>>::empty());
        }
    }
    assert forall|n: Seq<char>| #[trigger] s.contains(n) implies is_declared(cs, n) by {
        let j = choose|j: int| 0 <= j < cs.len() && #[trigger] cs[j].name@ == n && !emitted[j];
    }
    assert forall|n: Seq<char>| #[trigger] s.contains(n) implies exists|m: Seq<char>|
        s.contains(m) && depends_on(cs, n, m) by {
        assert(!is_ready(before, n));
        let p = choose|p: Seq<char>| #[trigger] before.dom().contains(p) && before[p].contains(n);
        assert(depends_on(cs, n, p));
    }
    assert(is_closed_set(cs, s));
}

proof fn lemma_all_emitted(
    cs: Seq<CurrentSchema>,
    before: Map<Seq<char>, Set<Seq<char>>>,
    order: Seq<usize>,
    emitted: Seq<bool>,
)
    requires
        cs.len() <= usize::MAX,
        sort_state(cs, before, order, emitted),
        before.dom() == Set::<Seq<char>>::empty(),
    ensures
        is_topological(cs, order),
{
    lemma_covers_bound(cs, order);
    let t = positions(cs.len());
    lemma_positions_distinct(cs.len());
    assert forall|x: int| 0 <= x < t.len() implies order.contains(#[trigger] t[x]) by {
        if !emitted[x] {
            assert(before.dom().contains(cs[x].name@));
        }
    }
    lemma_distinct_bound(t, order);
    assert forall|x: int, y: int|
        0 <= x < order.len() && 0 <= y < order.len() && depends_on(
            cs,
            cs[#[trigger] order[x] as int].name@,
            cs[#[trigger] order[y] as int].name@,
        ) implies y < x by {
        let j = order[y] as int;
        assert(depends_on(cs, cs[order[x] as int].name@, cs[j].name@));
        let z = choose|z: int| 0 <= z < x && order[z] == j;
    }
}

proof fn lemma_round(
    cs: Seq<CurrentSchema>,
    before: Map<Seq<char>, Set<Seq<char>>>,
    after: Map<Seq<char>, Set<Seq<char>>>,
    start: Seq<usize>,
    order: Seq<usize>,
    emitted_start: Seq<bool>,
    emitted: Seq<bool>,
)
    requires
        cs.len() <= usize::MAX,
        names_unique_current(cs),
        sort_state(cs, before, start, emitted_start),
        after == before.remove_keys(Set::new(|n: Seq<char>| is_ready(before, n))),
        emitted.len() == cs.len(),
        start.len() <= order.len(),
        order.subrange(0, start.len() as int) == start,
        order.no_duplicates(),
        forall|x: int| 0 <= x < order.len() ==> #[trigger] order[x] < cs.len(),
        forall|x: int| 0 <= x < cs.len() ==> (#[trigger] emitted[x] <==> order.contains(x as usize)),
        forall|x: int|
            0 <= x < cs.len() ==> (#[trigger] emitted[x] <==> (emitted_start[x] || is_ready(before, cs[x].name@))),
        forall|x: int| start.len() <= x < order.len() ==> is_ready(before, cs[#[trigger] order[x] as int].name@),
    ensures
        sort_state(cs, after, order, emitted),
        order.len() <= cs.len(),
{
    lemma_covers_bound(cs, order);
    assert forall|nm: Seq<char>| #[trigger] after.dom().contains(nm) <==> exists|j: int|
        0 <= j < cs.len() && #[trigger] cs[j].name@ == nm && !emitted[j] by {
        if after.dom().contains(nm) {
            assert(before.dom().contains(nm) && !is_ready(before, nm));
            let j = choose|j: int| 0 <= j < cs.len() && #[trigger] cs[j].name@ == nm && !emitted_start[j];
            assert(!emitted[j]);
        }
        if exists|j: int| 0 <= j < cs.len() && #[trigger] cs[j].name@ == nm && !emitted[j] {
            let j = choose|j: int| 0 <= j < cs.len() && #[trigger] cs[j].name@ == nm && !emitted[j];
            assert(!emitted_start[j]);
            assert(before.dom().contains(nm));
            assert(!is_ready(before, nm));
        }
    }
    assert forall|x: int, j: int|
        0 <= x < order.len() && 0 <= j < cs.len() && depends_on(cs, cs[#[trigger] order[x] as int].name@, #[trigger] cs[j].name@)
            implies exists|y: int| 0 <= y < x && order[y] == j by {
        if x < start.len() {
            assert(order[x] == start[x]);
            let y = choose|y: int| 0 <= y < x && start[y] == j;
            assert(order[y] == start[y]);
        } else {
            let nj = cs[order[x] as int].name@;
            assert(is_ready(before, nj));
            if before.dom().contains(cs[j].name@) {
                assert(before[cs[j].name@].contains(nj));
            }
            assert(!before.dom().contains(cs[j].name@));
            assert(emitted_start[j]);
            assert(start.contains(j as usize));
            let y = choose|y: int| 0 <= y < start.len() && start[y] == j as usize;
            assert(order[y] == start[y]);
        }
    }
}

/// Appends, in declaration order, each schema whose name `next` holds and that is not placed
/// yet; `next` holds exactly the names that are ready in `before`.
fn append_ready(
    cs: &Vec<CurrentSchema>,
    next: &Vec<String>,
    order: &mut Vec<usize>,
    emitted: &mut Vec<bool>,
    Ghost(before): Ghost<Map<Seq<char>, Set<Seq<char>>>>,
)
    requires
        names_unique_current(cs@),
        sort_state(cs@, before, old(order)@, old(emitted)@),
        forall|a: int| 0 <= a < next@.len() ==> is_ready(before, #[trigger] next@[a]@),
        forall|nm: Seq<char>|
            is_ready(before, nm) ==> exists|a: int| 0 <= a < next@.len() && #[trigger] next@[a]@ == nm,
        next@.len() > 0,
    ensures
        old(order)@.len() < final(order)@.len(),
        final(emitted)@.len() == cs@.len(),
        final(order)@.subrange(0, old(order)@.len() as int) == old(order)@,
        final(order)@.no_duplicates(),
        forall|x: int| 0 <= x < final(order)@.len() ==> #[trigger] final(order)@[x] < cs@.len(),
        forall|x: int| 0 <= x < cs@.len() ==> (#[trigger] final(emitted)@[x] <==> final(order)@.contains(x as usize)),
        forall|x: int|
            0 <= x < cs@.len() ==> (#[trigger] final(emitted)@[x] <==> (old(emitted)@[x] || is_ready(before, cs@[x].name@))),
        forall|x: int|
            old(order)@.len() <= x < final(order)@.len() ==> is_ready(before, cs@[#[trigger] final(order)@[x] as int].name@),
{
    let n = cs.len();
    let ghost start = order@;
    let ghost emitted_start = emitted@;
    let ghost first = next@[0]@;
    assert(is_ready(before, first));
    assert(before.dom().contains(first));
    let ghost w = choose|w: int| 0 <= w < cs@.len() && #[trigger] cs@[w].name@ == first && !emitted_start[w];
    let mut j: usize = 0;
    while j < n
        invariant
            n == cs@.len(),
            0 <= j <= n,
            0 <= w < n,
            cs@[w].name@ == first,
            !emitted_start[w],
            next@[0]@ == first,
            next@.len() > 0,
            names_unique_current(cs@),
            sort_state(cs@, before, start, emitted_start),
            forall|a: int| 0 <= a < next@.len() ==> is_ready(before, #[trigger] next@[a]@),
            forall|nm: Seq<char>|
                is_ready(before, nm) ==> exists|a: int| 0 <= a < next@.len() && #[trigger] next@[a]@ == nm,
            emitted@.len() == n,
            start.len() <= order@.len(),
            j > w ==> start.len() < order@.len(),
            order@.subrange(0, start.len() as int) == start,
            order@.no_duplicates(),
            forall|x: int| 0 <= x < order@.len() ==> #[trigger] order@[x] < cs@.len(),
            forall|x: int| 0 <= x < n ==> (#[trigger] emitted@[x] <==> order@.contains(x as usize)),
            forall|x: int|
                0 <= x < n ==> (#[trigger] emitted@[x] <==> (emitted_start[x] || (x < j && is_ready(before, cs@[x].name@)))),
            forall|x: int| start.len() <= x < order@.len() ==> is_ready(before, cs@[#[trigger] order@[x] as int].name@),
        decreases n - j,
    {
        let ghost order_before = order@;
        let ghost emitted_before = emitted@;
        let take = !emitted[j] && holds_name(next, &cs[j].name);
        proof {
            if emitted_start[j as int] {
                assert(!before.dom().contains(cs@[j as int].name@)) by {
                    if before.dom().contains(cs@[j as int].name@) {
                        let z = choose|z: int| 0 <= z < cs@.len() && #[trigger] cs@[z].name@ == cs@[j as int].name@ && !emitted_start[z];
                        assert(z == j);
                    }
                }
            }
            if is_ready(before, cs@[j as int].name@) {
                let a = choose|a: int| 0 <= a < next@.len() && #[trigger] next@[a]@ == cs@[j as int].name@;
            }
            if j as int == w {
                assert(next@[0]@ == cs@[j as int].name@);
            }
        }
        if take {
            order.push(j);
            emitted.set(j, true);
            proof {
                assert(!order_before.contains(j));
                assert(order@.subrange(0, start.len() as int) =~= start);
                assert forall|a: int, b: int| 0 <= a < order@.len() && 0 <= b < order@.len() && a != b
                    implies order@[a] != order@[b] by {
                    if a < order_before.len() && b < order_before.len() {
                        assert(order@[a] == order_before[a]);
                        assert(order@[b] == order_before[b]);
                    } else if a < order_before.len() {
                        assert(order_before.contains(order@[a]));
                    } else if b < order_before.len() {
                        assert(order_before.contains(order@[b]));
                    }
                }
                assert forall|x: int| 0 <= x < n implies (#[trigger] emitted@[x] <==> order@.contains(x as usize)) by {
                    if x != j {
                        if order@.contains(x as usize) {
                            let y = choose|y: int| 0 <= y < order@.len() && order@[y] == x as usize;
                            assert(y < order_before.len());
                            assert(order_before[y] == x as usize);
                        }
                        if emitted_before[x] {
                            let y = choose|y: int| 0 <= y < order_before.len() && order_before[y] == x as usize;
                            assert(order@[y] == x as usize);
                        }
                    } else {
                        assert(order@[order@.len() - 1] == j);
                    }
                }
            }
        }
        j = j + 1;
    }
}

/// Orders the declared schemas so that each comes after every schema it relates to by name.
///
/// Each round takes all schemas whose dependencies are placed already; within a round they
/// keep the order of the declaration, so the result does not vary from run to run.
pub fn sort_schemas(cs: &Vec<CurrentSchema>) -> (r: Result<Vec<usize>, ConfigError>)
    requires
        names_unique_current(cs@),
    ensures
        r matches Err(ConfigError::UndeclaredDependency { .. }) <==> has_undeclared_target(cs@),
        r matches Err(ConfigError::UndeclaredDependency { schema, target }) ==> exists|i: int, k: int|
            0 <= i < cs@.len() && 0 <= k < cs@[i].fields@.len() && cs@[i].name@ == schema@
                && #[trigger] cs@[i].fields@[k].1.target_name() == Some(target@) && !is_declared(cs@, target@),
        r matches Err(ConfigError::CyclicDependency) <==> !has_undeclared_target(cs@) && has_cycle(cs@),
        r matches Err(e) ==> (e is UndeclaredDependency || e is CyclicDependency),
        r matches Ok(order) ==> is_topological(cs@, order@),
{
    if let Some((i, k)) = find_undeclared(cs) {
        let fields = cs[i].fields.iter();
        if let crate::schema_file::SchemaField::Relation { schema, .. } = &fields[k].1 {
            if let crate::schema_file::RelationId::Name(target) = &schema.id {
                return Err(
                    ConfigError::UndeclaredDependency { schema: cs[i].name.clone(), target: target.clone() },
                );
            }
        }
        assert(false);
        return Err(ConfigError::CyclicDependency);
    }
    let mut g = build_graph(cs);
    let n = cs.len();
    let mut order: Vec<usize> = Vec::new();
    let mut emitted: Vec<bool> = Vec::new();
    let mut j: usize = 0;
    while j < n
        invariant
            n == cs@.len(),
            0 <= j <= n,
            emitted@.len() == j,
            forall|x: int| 0 <= x < j ==> !(#[trigger] emitted@[x]),
        decreases n - j,
    {
        emitted.push(false);
        j = j + 1;
    }
    assert(sort_state(cs@, topo_edges(g), order@, emitted@));
    loop
        invariant
            n == cs@.len(),
            names_unique_current(cs@),
            !has_undeclared_target(cs@),
            sort_state(cs@, topo_edges(g), order@, emitted@),
            order@.len() <= n,
        decreases n - order@.len(),
    {
        let ghost before = topo_edges(g);
        let ghost start = order@;
        let next = graph_pop_all(&mut g);
        if next.len() == 0 {
            assert(topo_edges(g) =~= before);
            if !graph_is_empty(&g) {
                proof {
                    lemma_remaining_closed(cs@, before, order@, emitted@);
                }
                return Err(ConfigError::CyclicDependency);
            }
            proof {
                lemma_all_emitted(cs@, before, order@, emitted@);
                lemma_order_excludes_cycle(cs@, order@);
            }
            return Ok(order);
        }
        let ghost emitted_start = emitted@;
        append_ready(cs, &next, &mut order, &mut emitted, Ghost(before));
        proof {
            lemma_round(cs@, before, topo_edges(g), start, order@, emitted_start, emitted@);
        }
    }
}

} // verus!
