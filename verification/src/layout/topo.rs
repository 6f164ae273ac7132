//! Depth-first topological order of a small graph.
//!
//! A graph is the list of every node's dependencies. The order visits the
//! nodes as they are numbered, and the dependencies of a node before the
//! node itself.

use vstd::prelude::*;

verus! {

/// Every dependency is a node.
pub open spec fn well_formed(g: Seq<Seq<usize>>) -> bool {
    forall|v: int, k: int|
        0 <= v < g.len() && 0 <= k < g[v].len() ==> #[trigger] g[v][k] < g.len()
}

/// What was ordered before, then what a visit of `v` adds: the nodes that
/// `v` depends on and then `v`, unless it is ordered already or lies on
/// the way here.
pub open spec fn visit(
    g: Seq<Seq<usize>>,
    fuel: nat,
    path: Set<usize>,
    v: usize,
    out: Seq<usize>,
) -> Seq<usize>
    decreases fuel, 1nat, 0nat,
{
    if fuel == 0 || out.contains(v) || path.contains(v) {
        out
    } else {
        let deps = g[v as int];
        visit_first(g, (fuel - 1) as nat, path.insert(v), deps, deps.len(), out).push(v)
    }
}

/// The visits of the first `k` of some nodes.
pub open spec fn visit_first(
    g: Seq<Seq<usize>>,
    fuel: nat,
    path: Set<usize>,
    nodes: Seq<usize>,
    k: nat,
    out: Seq<usize>,
) -> Seq<usize>
    decreases fuel, 2nat, k,
{
    if k == 0 {
        out
    } else {
        visit(
            g,
            fuel,
            path,
            nodes[k - 1],
            visit_first(g, fuel, path, nodes, (k - 1) as nat, out),
        )
    }
}

/// The nodes as they are numbered.
pub open spec fn all_nodes(n: nat) -> Seq<usize> {
    Seq::new(n, |i: int| i as usize)
}

/// The order of a graph. A path cannot be longer than there are nodes, so
/// the fuel is never used up.
pub open spec fn dependency_order(g: Seq<Seq<usize>>) -> Seq<usize> {
    visit_first(g, g.len() + 1, Set::empty(), all_nodes(g.len()), g.len(), Seq::empty())
}

/// `a` depends on `b` through the edges that `walk` passes.
pub open spec fn is_walk(g: Seq<Seq<usize>>, walk: Seq<usize>) -> bool {
    &&& walk.len() > 0
    &&& forall|i: int|
        0 <= i < walk.len() ==> (#[trigger] walk[i]) < g.len()
    &&& forall|i: int|
        0 <= i < walk.len() - 1 ==> g[walk[i] as int].contains(#[trigger] walk[i + 1])
}

/// `a` depends on `b`, directly or through others, or is `b`.
pub open spec fn depends(g: Seq<Seq<usize>>, a: usize, b: usize) -> bool {
    exists|walk: Seq<usize>| #[trigger] is_walk(g, walk) && walk[0] == a && walk.last() == b
}

proof fn depends_on_itself(g: Seq<Seq<usize>>, a: usize)
    requires
        a < g.len(),
    ensures
        depends(g, a, a),
{
    let walk = seq![a];
    assert(is_walk(g, walk));
    assert(walk[0] == a && walk.last() == a);
}

proof fn one_step_further(g: Seq<Seq<usize>>, a: usize, b: usize, d: usize)
    requires
        depends(g, a, b),
        d < g.len(),
        g[b as int].contains(d),
    ensures
        depends(g, a, d),
{
    let walk = choose|walk: Seq<usize>| #[trigger]
        is_walk(g, walk) && walk[0] == a && walk.last() == b;
    let longer = walk.push(d);
    assert forall|i: int| 0 <= i < longer.len() implies (#[trigger] longer[i]) < g.len() by {
        if i < walk.len() {
            assert(longer[i] == walk[i]);
        }
    }
    assert forall|i: int| 0 <= i < longer.len() - 1 implies g[longer[i] as int].contains(
        #[trigger] longer[i + 1],
    ) by {
        if i < walk.len() - 1 {
            assert(longer[i + 1] == walk[i + 1]);
        }
    }
    assert(is_walk(g, longer));
    assert(longer[0] == a && longer.last() == d);
}

/// Every dependency of an ordered node stands before it, unless it
/// depends on that node in turn.
pub open spec fn ordered(g: Seq<Seq<usize>>, out: Seq<usize>) -> bool {
    forall|p: int, d: usize|
        0 <= p < out.len() && #[trigger] g[out[p] as int].contains(d) && !depends(g, d, out[p])
            ==> out.subrange(0, p).contains(d)
}

/// What an order in the making is like while `path` is being visited.
pub open spec fn sound(g: Seq<Seq<usize>>, path: Set<usize>, out: Seq<usize>) -> bool {
    &&& out.no_duplicates()
    &&& forall|i: int| 0 <= i < out.len() ==> (#[trigger] out[i]) < g.len() && !path.contains(out[i])
    &&& ordered(g, out)
}

/// The path is made of nodes that depend on `v`, and the fuel is enough
/// for the rest.
pub open spec fn on_the_way(g: Seq<Seq<usize>>, fuel: nat, path: Set<usize>, v: usize) -> bool {
    &&& path.finite()
    &&& fuel + path.len() > g.len()
    &&& forall|u: usize| #[trigger] path.contains(u) ==> u < g.len() && depends(g, u, v)
}

proof fn paths_are_short(g: Seq<Seq<usize>>, path: Set<usize>)
    requires
        path.finite(),
        forall|u: usize| #[trigger] path.contains(u) ==> u < g.len(),
    ensures
        path.len() <= g.len(),
{
    let nodes = path.map(|u: usize| u as int);
    let all = vstd::set_lib::set_int_range(0, g.len() as int);
    vstd::set_lib::lemma_int_range(0, g.len() as int);
    assert(nodes.subset_of(all));
    vstd::set_lib::lemma_map_size(path, nodes, |u: usize| u as int);
    vstd::set_lib::lemma_len_subset(nodes, all);
}

proof fn contained_in_longer(a: Seq<usize>, b: Seq<usize>, v: usize)
    requires
        a.is_prefix_of(b),
        a.contains(v),
    ensures
        b.contains(v),
{
    let k = choose|k: int| 0 <= k < a.len() && a[k] == v;
    assert(b[k] == a[k]);
}

/// A visit keeps an order sound and orders `v` unless it is on the path.
proof fn visit_is_sound(g: Seq<Seq<usize>>, fuel: nat, path: Set<usize>, v: usize, out: Seq<usize>)
    requires
        well_formed(g),
        v < g.len(),
        on_the_way(g, fuel, path, v),
        sound(g, path, out),
    ensures
        sound(g, path, visit(g, fuel, path, v, out)),
        out.is_prefix_of(visit(g, fuel, path, v, out)),
        visit(g, fuel, path, v, out).contains(v) || path.contains(v),
    decreases fuel, 1nat, 0nat,
{
    paths_are_short(g, path);
    if !out.contains(v) && !path.contains(v) {
        let deps = g[v as int];
        let inner = path.insert(v);
        depends_on_itself(g, v);
        assert forall|i: int| 0 <= i < out.len() implies (#[trigger] out[i]) < g.len()
            && !inner.contains(out[i]) by {
            assert(out.contains(out[i]));
        }
        assert(sound(g, inner, out));
        visits_are_sound(g, (fuel - 1) as nat, inner, v, deps, deps.len(), out);
        let t = visit_first(g, (fuel - 1) as nat, inner, deps, deps.len(), out);
        let r = t.push(v);
        assert(!t.contains(v)) by {
            if t.contains(v) {
                let k = choose|k: int| 0 <= k < t.len() && t[k] == v;
                assert(!inner.contains(t[k]));
            }
        }
        assert forall|p: int, d: usize|
            0 <= p < r.len() && #[trigger] g[r[p] as int].contains(d) && !depends(
                g,
                d,
                r[p],
            ) implies r.subrange(0, p).contains(d) by {
            if p < t.len() {
                assert(r[p] == t[p]);
                assert(t.subrange(0, p) =~= r.subrange(0, p));
            } else {
                assert(r[p] == v);
                let k = choose|k: int| 0 <= k < deps.len() && deps[k] == d;
                assert(t.contains(deps[k]) || inner.contains(deps[k]));
                if inner.contains(d) {
                    assert(depends(g, d, v));
                }
                assert(r.subrange(0, p) =~= t);
            }
        }
        assert(out.is_prefix_of(r)) by {
            assert(out =~= r.subrange(0, out.len() as int));
        }
        assert(r[r.len() - 1] == v);
        assert(r.no_duplicates()) by {
            assert forall|i: int, j: int| 0 <= i < r.len() && 0 <= j < r.len() && i != j implies r[i]
                != r[j] by {
                if i < t.len() && j < t.len() {
                } else if i < t.len() {
                    assert(t.contains(t[i]));
                } else {
                    assert(t.contains(t[j]));
                }
            }
        }
        assert forall|i: int| 0 <= i < r.len() implies (#[trigger] r[i]) < g.len() && !path.contains(
            r[i],
        ) by {
            if i < t.len() {
                assert(r[i] == t[i]);
                assert(!inner.contains(t[i]));
            }
        }
    }
}

/// The visits of the first `k` dependencies of `v` keep an order sound,
/// and order them unless they are on the path.
proof fn visits_are_sound(
    g: Seq<Seq<usize>>,
    fuel: nat,
    path: Set<usize>,
    v: usize,
    nodes: Seq<usize>,
    k: nat,
    out: Seq<usize>,
)
    requires
        well_formed(g),
        v < g.len(),
        path.contains(v),
        nodes == g[v as int],
        k <= nodes.len(),
        on_the_way(g, fuel, path, v),
        sound(g, path, out),
    ensures
        sound(g, path, visit_first(g, fuel, path, nodes, k, out)),
        out.is_prefix_of(visit_first(g, fuel, path, nodes, k, out)),
        forall|i: int|
            0 <= i < k ==> visit_first(g, fuel, path, nodes, k, out).contains(
                #[trigger] nodes[i],
            ) || path.contains(nodes[i]),
    decreases fuel, 2nat, k,
{
    if k > 0 {
        visits_are_sound(g, fuel, path, v, nodes, (k - 1) as nat, out);
        let t = visit_first(g, fuel, path, nodes, (k - 1) as nat, out);
        let d = nodes[k - 1];
        assert(g[v as int][k - 1] < g.len());
        assert forall|u: usize| #[trigger] path.contains(u) implies u < g.len() && depends(
            g,
            u,
            d,
        ) by {
            assert(g[v as int].contains(d));
            one_step_further(g, u, v, d);
        }
        visit_is_sound(g, fuel, path, d, t);
        let r = visit(g, fuel, path, d, t);
        assert forall|i: int| 0 <= i < k implies r.contains(#[trigger] nodes[i]) || path.contains(
            nodes[i],
        ) by {
            if i < k - 1 && t.contains(nodes[i]) {
                contained_in_longer(t, r, nodes[i]);
            }
        }
    }
}

/// The visits of the first `k` roots order them.
proof fn roots_are_sound(g: Seq<Seq<usize>>, k: nat)
    requires
        well_formed(g),
        k <= g.len(),
        g.len() <= usize::MAX,
    ensures
        ({
            let r = visit_first(
                g,
                g.len() + 1,
                Set::empty(),
                all_nodes(g.len()),
                k,
                Seq::empty(),
            );
            &&& sound(g, Set::empty(), r)
            &&& forall|i: usize| i < k ==> #[trigger] r.contains(i)
        }),
    decreases k,
{
    if k > 0 {
        roots_are_sound(g, (k - 1) as nat);
        let t = visit_first(
            g,
            g.len() + 1,
            Set::empty(),
            all_nodes(g.len()),
            (k - 1) as nat,
            Seq::empty(),
        );
        let v = all_nodes(g.len())[k - 1];
        visit_is_sound(g, g.len() + 1, Set::empty(), v, t);
        let r = visit(g, g.len() + 1, Set::empty(), v, t);
        assert forall|i: usize| i < k implies #[trigger] r.contains(i) by {
            if i < k - 1 {
                assert(t.contains(i));
                contained_in_longer(t, r, i);
            }
        }
    }
}

/// The order of a graph holds every node once, and every node stands
/// behind those it depends on, unless they depend on it in turn.
pub proof fn dependencies_come_first(g: Seq<Seq<usize>>)
    requires
        well_formed(g),
        g.len() <= usize::MAX,
    ensures
        dependency_order(g).no_duplicates(),
        forall|v: usize| #[trigger] dependency_order(g).contains(v) <==> v < g.len(),
        ordered(g, dependency_order(g)),
{
    roots_are_sound(g, g.len());
    let r = dependency_order(g);
    assert forall|v: usize| #[trigger] r.contains(v) <==> v < g.len() by {
        if r.contains(v) {
            let k = choose|k: int| 0 <= k < r.len() && r[k] == v;
            assert(r[k] < g.len());
        }
    }
}

/// The dependency lists of a graph, mathematically.
pub open spec fn graph(deps: Seq<Vec<usize>>) -> Seq<Seq<usize>> {
    Seq::new(deps.len(), |i: int| deps[i]@)
}

fn among(out: &Vec<usize>, v: usize) -> (r: bool)
    ensures
        r == out@.contains(v),
{
    let mut i: usize = 0;
    while i < out.len()
        invariant
            i <= out.len(),
            forall|j: int| 0 <= j < i ==> out@[j] != v,
        decreases out.len() - i,
    {
        if out[i] == v {
            assert(out@.contains(v));
            return true;
        }
        i = i + 1;
    }
    false
}

/// Visits a node. `path` holds the nodes on the way here.
fn visit_node(deps: &Vec<Vec<usize>>, fuel: usize, path: &mut Vec<usize>, v: usize, out: &mut Vec<usize>)
    requires
        well_formed(graph(deps@)),
        v < deps@.len(),
    ensures
        final(path)@ == old(path)@,
        final(out)@ == visit(
            graph(deps@),
            fuel as nat,
            old(path)@.to_set(),
            v,
            old(out)@,
        ),
    decreases fuel, 1nat,
{
    proof {
        assert(old(path)@.to_set().contains(v) == old(path)@.contains(v));
    }
    if fuel == 0 || among(out, v) || among(path, v) {
        return;
    }
    path.push(v);
    assert(path@.to_set() =~= old(path)@.to_set().insert(v)) by {
        assert forall|u: usize| #[trigger] path@.to_set().contains(u) <==> old(path)@.to_set().insert(
            v,
        ).contains(u) by {
            if path@.contains(u) {
                let k = choose|k: int| 0 <= k < path@.len() && path@[k] == u;
                if k < old(path)@.len() {
                    assert(old(path)@[k] == u);
                }
            }
            if old(path)@.contains(u) {
                let k = choose|k: int| 0 <= k < old(path)@.len() && old(path)@[k] == u;
                assert(path@[k] == u);
            }
            if u == v {
                assert(path@[path@.len() - 1] == u);
            }
        }
    }
    let ghost inner = path@;
    let nodes = &deps[v];
    let mut k: usize = 0;
    while k < nodes.len()
        invariant
            k <= nodes.len(),
            fuel > 0,
            well_formed(graph(deps@)),
            v < deps@.len(),
            nodes@ == graph(deps@)[v as int],
            path@ == inner,
            out@ == visit_first(
                graph(deps@),
                (fuel - 1) as nat,
                inner.to_set(),
                nodes@,
                k as nat,
                old(out)@,
            ),
        decreases nodes.len() - k,
    {
        let d: usize = nodes[k];
        assert(graph(deps@)[v as int][k as int] < deps@.len());
        visit_node(deps, fuel - 1, path, d, out);
        k = k + 1;
    }
    let _last = path.pop();
    assert(path@ =~= old(path)@);
    out.push(v);
}

/// Orders a graph: every node once, behind those it depends on.
pub fn order(deps: &Vec<Vec<usize>>) -> (r: Vec<usize>)
    requires
        well_formed(graph(deps@)),
        deps@.len() < usize::MAX,
    ensures
        r@ == dependency_order(graph(deps@)),
        r@.no_duplicates(),
        forall|v: usize| #[trigger] r@.contains(v) <==> v < deps@.len(),
        ordered(graph(deps@), r@),
{
    let n: usize = deps.len();
    let mut path: Vec<usize> = Vec::new();
    let mut out: Vec<usize> = Vec::new();
    assert(path@.to_set() =~= Set::empty());
    assert(out@ =~= Seq::empty());
    let mut v: usize = 0;
    while v < n
        invariant
            v <= n,
            n == deps@.len(),
            n < usize::MAX,
            well_formed(graph(deps@)),
            path@.to_set() == Set::<usize>::empty(),
            out@ == visit_first(
                graph(deps@),
                (n + 1) as nat,
                Set::empty(),
                all_nodes(n as nat),
                v as nat,
                Seq::empty(),
            ),
        decreases n - v,
    {
        visit_node(deps, n + 1, &mut path, v, &mut out);
        v = v + 1;
    }
    proof {
        dependencies_come_first(graph(deps@));
    }
    out
}

} // verus!
