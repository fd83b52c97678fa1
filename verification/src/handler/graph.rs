//! Dependencies between handlers, and the checks that keep them acyclic.

use crate::expr::ast::strings_view;
use vstd::prelude::*;

verus! {

// ---------------------------------------------------------------------------
// Graphs, paths and cycles
// ---------------------------------------------------------------------------

/// A dependency graph: each handler name maps to the names it depends on.
pub type Graph = Map<Seq<char>, Seq<Seq<char>>>;

/// `a` depends directly on `b`.
pub open spec fn edge(g: Graph, a: Seq<char>, b: Seq<char>) -> bool {
    g.dom().contains(a) && g[a].contains(b)
}

/// Step `i` of `p` follows an edge.
pub open spec fn path_step(g: Graph, p: Seq<Seq<char>>, i: int) -> bool {
    edge(g, p[i], p[i + 1])
}

/// `p` is a non-empty walk along edges.
pub open spec fn is_path(g: Graph, p: Seq<Seq<char>>) -> bool {
    p.len() >= 1 && forall|i: int| 0 <= i < p.len() - 1 ==> #[trigger] path_step(g, p, i)
}

/// `b` can be reached from `a` by following zero or more edges.
pub open spec fn reachable(g: Graph, a: Seq<char>, b: Seq<char>) -> bool {
    exists|p: Seq<Seq<char>>| is_path(g, p) && p[0] == a && p.last() == b
}

/// `c` is a cycle: a walk of at least one edge that ends where it starts.
pub open spec fn is_cycle(g: Graph, c: Seq<Seq<char>>) -> bool {
    is_path(g, c) && c.len() >= 2 && c[0] == c.last()
}

/// A cycle that passes each handler once before coming back to the first.
pub open spec fn is_simple_cycle(g: Graph, c: Seq<Seq<char>>) -> bool {
    is_cycle(g, c) && c.drop_last().no_duplicates()
}

pub open spec fn has_cycle(g: Graph) -> bool {
    exists|c: Seq<Seq<char>>| is_cycle(g, c)
}

/// The graph after recording that `from` depends on `to`.
pub open spec fn with_edge(g: Graph, from: Seq<char>, to: Seq<char>) -> Graph {
    g.insert(
        from,
        (if g.dom().contains(from) {
            g[from]
        } else {
            Seq::empty()
        }).push(to),
    )
}

// ---------------------------------------------------------------------------
// Lemmas on paths
// ---------------------------------------------------------------------------

pub proof fn lemma_single_path(g: Graph, a: Seq<char>)
    ensures
        reachable(g, a, a),
{
    let p = seq![a];
    assert(is_path(g, p) && p[0] == a && p.last() == a);
}

/// An edge followed by a path is a path.
pub proof fn lemma_prepend(g: Graph, a: Seq<char>, b: Seq<char>, c: Seq<char>)
    requires
        edge(g, a, b),
        reachable(g, b, c),
    ensures
        reachable(g, a, c),
{
    let p = choose|p: Seq<Seq<char>>| is_path(g, p) && p[0] == b && p.last() == c;
    let q = seq![a] + p;
    assert forall|i: int| 0 <= i < q.len() - 1 implies #[trigger] path_step(g, q, i) by {
        if i > 0 {
            assert(path_step(g, p, i - 1));
            assert(q[i] == p[i - 1]);
            assert(q[i + 1] == p[i]);
        }
    }
    assert(is_path(g, q));
    assert(q.last() == p.last());
}

/// Paths compose.
pub proof fn lemma_concat(g: Graph, a: Seq<char>, b: Seq<char>, c: Seq<char>)
    requires
        reachable(g, a, b),
        reachable(g, b, c),
    ensures
        reachable(g, a, c),
{
    let p = choose|p: Seq<Seq<char>>| is_path(g, p) && p[0] == a && p.last() == b;
    let r = choose|r: Seq<Seq<char>>| is_path(g, r) && r[0] == b && r.last() == c;
    let q = p + r.drop_first();
    assert forall|i: int| 0 <= i < q.len() - 1 implies #[trigger] path_step(g, q, i) by {
        if i < p.len() - 1 {
            assert(path_step(g, p, i));
        } else {
            let k = i - (p.len() - 1);
            assert(path_step(g, r, k));
            if k == 0 {
                assert(q[i] == p.last());
            } else {
                assert(q[i] == r[k]);
            }
            assert(q[i + 1] == r[k + 1]);
        }
    }
    assert(is_path(g, q));
    if r.len() == 1 {
        assert(q =~= p);
    } else {
        assert(q.last() == r.last());
    }
}

/// Every node of a path that starts in a set closed under edges lies in the set.
proof fn lemma_path_stays(g: Graph, s: Seq<Seq<char>>, p: Seq<Seq<char>>, i: int)
    requires
        is_path(g, p),
        s.contains(p[0]),
        forall|x: Seq<char>, w: Seq<char>| s.contains(x) && edge(g, x, w) ==> s.contains(w),
        0 <= i < p.len(),
    ensures
        s.contains(p[i]),
    decreases i,
{
    if i > 0 {
        lemma_path_stays(g, s, p, i - 1);
        assert(path_step(g, p, i - 1));
    }
}

/// Nothing outside a set closed under edges is reachable from inside it.
pub proof fn lemma_closed_unreachable(g: Graph, s: Seq<Seq<char>>, a: Seq<char>, b: Seq<char>)
    requires
        s.contains(a),
        !s.contains(b),
        forall|x: Seq<char>, w: Seq<char>| s.contains(x) && edge(g, x, w) ==> s.contains(w),
    ensures
        !reachable(g, a, b),
{
    assert forall|p: Seq<Seq<char>>| is_path(g, p) && p[0] == a implies p.last() != b by {
        lemma_path_stays(g, s, p, p.len() - 1);
    }
}


// ---------------------------------------------------------------------------
// Laws of adding dependencies
// ---------------------------------------------------------------------------

/// The edges after recording `from -> to` are the old edges and the new one.
pub proof fn lemma_with_edge_edges(g: Graph, from: Seq<char>, to: Seq<char>, a: Seq<char>, b: Seq<char>)
    ensures
        edge(with_edge(g, from, to), a, b) <==> (edge(g, a, b) || (a == from && b == to)),
{
    let old_list = if g.dom().contains(from) { g[from] } else { Seq::<Seq<char>>::empty() };
    let new_list = old_list.push(to);
    if a == from {
        if new_list.contains(b) && b != to {
            let i = choose|i: int| 0 <= i < new_list.len() && new_list[i] == b;
            assert(old_list[i] == b);
        }
        if edge(g, a, b) {
            let i = choose|i: int| 0 <= i < old_list.len() && old_list[i] == b;
            assert(new_list[i] == b);
        }
        if b == to {
            assert(new_list[old_list.len() as int] == b);
        }
    }
}

/// A walk in the graph with the extra edge `from -> to` either stays in the
/// old graph, or reaches `from` in it and continues from `to`.
proof fn lemma_split_walk(g: Graph, from: Seq<char>, to: Seq<char>, p: Seq<Seq<char>>)
    requires
        is_path(with_edge(g, from, to), p),
    ensures
        reachable(g, p[0], p.last()) || (reachable(g, p[0], from) && reachable(g, to, p.last())),
    decreases p.len(),
{
    let g2 = with_edge(g, from, to);
    if p.len() == 1 {
        lemma_single_path(g, p[0]);
    } else {
        let q = p.drop_first();
        assert forall|i: int| 0 <= i < q.len() - 1 implies #[trigger] path_step(g2, q, i) by {
            assert(path_step(g2, p, i + 1));
        }
        lemma_split_walk(g, from, to, q);
        assert(q[0] == p[1]);
        assert(q.last() == p.last());
        assert(path_step(g2, p, 0));
        lemma_with_edge_edges(g, from, to, p[0], p[1]);
        if edge(g, p[0], p[1]) {
            if reachable(g, q[0], q.last()) {
                lemma_prepend(g, p[0], p[1], p.last());
            } else {
                lemma_prepend(g, p[0], p[1], from);
            }
        } else {
            lemma_single_path(g, from);
            if reachable(g, q[0], q.last()) {
                assert(p[1] == to);
            }
        }
    }
}

/// Adding a dependency that `would_create_cycle` rejects keeps an acyclic graph
/// acyclic: when `from` cannot be reached from `to`, no cycle appears.
pub proof fn lemma_add_keeps_acyclic(g: Graph, from: Seq<char>, to: Seq<char>)
    requires
        !has_cycle(g),
        !reachable(g, to, from),
    ensures
        !has_cycle(with_edge(g, from, to)),
{
    let g2 = with_edge(g, from, to);
    assert forall|c: Seq<Seq<char>>| !is_cycle(g2, c) by {
        if is_cycle(g2, c) {
            if forall|i: int| 0 <= i < c.len() - 1 ==> #[trigger] path_step(g, c, i) {
                assert(is_cycle(g, c));
            } else {
                let k = choose|i: int| 0 <= i < c.len() - 1 && !#[trigger] path_step(g, c, i);
                assert(path_step(g2, c, k));
                lemma_with_edge_edges(g, from, to, c[k], c[k + 1]);
                assert(c[k] == from && c[k + 1] == to);
                let pre = c.subrange(0, k + 1);
                let suf = c.subrange(k + 1, c.len() as int);
                assert forall|i: int| 0 <= i < pre.len() - 1 implies #[trigger] path_step(g2, pre, i) by {
                    assert(path_step(g2, c, i));
                }
                assert forall|i: int| 0 <= i < suf.len() - 1 implies #[trigger] path_step(g2, suf, i) by {
                    assert(path_step(g2, c, k + 1 + i));
                }
                lemma_split_walk(g, from, to, pre);
                lemma_split_walk(g, from, to, suf);
                assert(pre[0] == c[0] && pre.last() == from);
                assert(suf[0] == to && suf.last() == c[0]);
                if reachable(g, to, c[0]) {
                    lemma_concat(g, to, c[0], from);
                }
            }
        }
    }
}

/// After recording `from -> to`, `to` is reachable from `from`, so adding the
/// reverse dependency would be reported as a cycle.
pub proof fn lemma_added_edge_reachable(g: Graph, from: Seq<char>, to: Seq<char>)
    ensures
        reachable(with_edge(g, from, to), from, to),
{
    let g2 = with_edge(g, from, to);
    lemma_with_edge_edges(g, from, to, from, to);
    lemma_single_path(g2, to);
    lemma_prepend(g2, from, to, to);
}

// ---------------------------------------------------------------------------
// Counting unvisited handlers (the measure of the searches)
// ---------------------------------------------------------------------------

pub open spec fn unvisited_count(keys: Seq<Seq<char>>, vis: Seq<Seq<char>>) -> nat
    decreases keys.len(),
{
    if keys.len() == 0 {
        0
    } else {
        unvisited_count(keys.drop_last(), vis) + if vis.contains(keys.last()) {
            0nat
        } else {
            1nat
        }
    }
}

proof fn lemma_count_mono(keys: Seq<Seq<char>>, v1: Seq<Seq<char>>, v2: Seq<Seq<char>>)
    requires
        forall|x: Seq<char>| v1.contains(x) ==> v2.contains(x),
    ensures
        unvisited_count(keys, v2) <= unvisited_count(keys, v1),
    decreases keys.len(),
{
    if keys.len() > 0 {
        lemma_count_mono(keys.drop_last(), v1, v2);
    }
}

proof fn lemma_count_strict(keys: Seq<Seq<char>>, v1: Seq<Seq<char>>, v2: Seq<Seq<char>>, k: Seq<char>)
    requires
        forall|x: Seq<char>| v1.contains(x) ==> v2.contains(x),
        keys.contains(k),
        !v1.contains(k),
        v2.contains(k),
    ensures
        unvisited_count(keys, v2) < unvisited_count(keys, v1),
    decreases keys.len(),
{
    lemma_count_mono(keys.drop_last(), v1, v2);
    if keys.last() != k {
        let i = choose|i: int| 0 <= i < keys.len() && keys[i] == k;
        assert(keys.drop_last()[i] == k);
        lemma_count_strict(keys.drop_last(), v1, v2, k);
    }
}


// ---------------------------------------------------------------------------
// Depth-first search state for cycle detection
// ---------------------------------------------------------------------------

/// Some handler finished before position `i` of `o` is `w`.
pub open spec fn finished_before(o: Seq<Seq<char>>, i: int, w: Seq<char>) -> bool {
    exists|j: int| 0 <= j < i && o[j] == w
}

/// The state of the search: `v` the handlers visited, `p` the current path
/// (the recursion stack), `o` the finished handlers in finishing order.
/// Each finished handler depends only on handlers finished before it.
pub open spec fn dfs_inv(g: Graph, v: Seq<Seq<char>>, p: Seq<Seq<char>>, o: Seq<Seq<char>>) -> bool {
    &&& o.no_duplicates()
    &&& forall|x: Seq<char>| #[trigger] v.contains(x) <==> (p.contains(x) || o.contains(x))
    &&& forall|x: Seq<char>| !(#[trigger] p.contains(x) && o.contains(x))
    &&& forall|i: int, w: Seq<char>|
        0 <= i < o.len() && #[trigger] edge(g, o[i], w) ==> finished_before(o, i, w)
    &&& forall|i: int| 0 <= i < p.len() - 1 ==> #[trigger] path_step(g, p, i)
    &&& p.no_duplicates()
}

proof fn lemma_order_descends(g: Graph, o: Seq<Seq<char>>, c: Seq<Seq<char>>, m: int)
    requires
        o.no_duplicates(),
        forall|i: int, w: Seq<char>|
            0 <= i < o.len() && #[trigger] edge(g, o[i], w) ==> finished_before(o, i, w),
        is_path(g, c),
        o.contains(c[0]),
        0 <= m < c.len(),
    ensures
        o.contains(c[m]),
        o.index_of(c[m]) <= o.index_of(c[0]) - m,
    decreases m,
{
    if m > 0 {
        lemma_order_descends(g, o, c, m - 1);
        let a = o.index_of(c[m - 1]);
        assert(o[a] == c[m - 1]);
        assert(path_step(g, c, m - 1));
        assert(edge(g, o[a], c[m]));
        let j = choose|j: int| 0 <= j < a && o[j] == c[m];
        assert(o.contains(c[m]));
        let b = o.index_of(c[m]);
        assert(o[b] == c[m]);
        assert(b == j);
    }
}

/// A finished search that covered every handler with dependencies leaves no cycle.
proof fn lemma_finished_acyclic(g: Graph, o: Seq<Seq<char>>)
    requires
        o.no_duplicates(),
        forall|i: int, w: Seq<char>|
            0 <= i < o.len() && #[trigger] edge(g, o[i], w) ==> finished_before(o, i, w),
        forall|k: Seq<char>| g.dom().contains(k) ==> o.contains(k),
    ensures
        !has_cycle(g),
{
    assert forall|c: Seq<Seq<char>>| !is_cycle(g, c) by {
        if is_cycle(g, c) {
            assert(path_step(g, c, 0));
            assert(o.contains(c[0]));
            lemma_order_descends(g, o, c, c.len() - 1);
        }
    }
}

// ---------------------------------------------------------------------------
// The call graph
// ---------------------------------------------------------------------------

/// Dependencies between handlers, for finding circular calls at build time.
#[derive(Debug)]
pub struct HandlerCallGraph {
    dependencies: Vec<(String, Vec<String>)>,
}

pub open spec fn graph_has_key(e: Seq<(String, Vec<String>)>, k: Seq<char>) -> bool {
    exists|i: int| 0 <= i < e.len() && (#[trigger] e[i]).0@ == k
}

pub open spec fn graph_key_index(e: Seq<(String, Vec<String>)>, k: Seq<char>) -> int {
    choose|i: int| 0 <= i < e.len() && (#[trigger] e[i]).0@ == k
}

pub open spec fn graph_distinct(e: Seq<(String, Vec<String>)>) -> bool {
    forall|i: int, j: int|
        0 <= i < e.len() && 0 <= j < e.len() && i != j ==> (#[trigger] e[i]).0@ != (
        #[trigger] e[j]).0@
}

pub open spec fn graph_of(e: Seq<(String, Vec<String>)>) -> Graph {
    Map::new(
        |k: Seq<char>| graph_has_key(e, k),
        |k: Seq<char>| strings_view(e[graph_key_index(e, k)].1@),
    )
}

impl View for HandlerCallGraph {
    type V = Graph;

    closed spec fn view(&self) -> Graph {
        graph_of(self.dependencies@)
    }
}

/// Whether `v` holds a string equal to `s`.
pub(crate) fn contains_str(v: &Vec<String>, s: &str) -> (res: bool)
    ensures
        res == strings_view(v@).contains(s@),
{
    let mut i: usize = 0;
    while i < v.len()
        invariant
            i <= v.len(),
            forall|j: int| 0 <= j < i ==> (#[trigger] v@[j])@ != s@,
        decreases v.len() - i,
    {
        if crate::text::str_eq(v[i].as_str(), s) {
            assert(strings_view(v@)[i as int] == s@);
            return true;
        }
        i = i + 1;
    }
    assert forall|j: int| 0 <= j < strings_view(v@).len() implies strings_view(v@)[j] != s@ by {
        assert(v@[j]@ != s@);
    }
    false
}

/// Some entry before position `n` has key `k`.
pub open spec fn listed_before(e: Seq<(String, Vec<String>)>, n: int, k: Seq<char>) -> bool {
    exists|j: int| 0 <= j < n && (#[trigger] e[j]).0@ == k
}

proof fn lemma_listed_step(e: Seq<(String, Vec<String>)>, n: int)
    requires
        0 <= n < e.len(),
    ensures
        forall|k: Seq<char>| #[trigger] listed_before(e, n + 1, k) <==> (listed_before(e, n, k) || e[n].0@ == k),
{
    assert forall|k: Seq<char>| #[trigger] listed_before(e, n + 1, k) <==> (listed_before(e, n, k) || e[n].0@ == k) by {
        if listed_before(e, n + 1, k) {
            let j = choose|j: int| 0 <= j < n + 1 && (#[trigger] e[j]).0@ == k;
            if j < n {
                assert(listed_before(e, n, k));
            }
        }
        if e[n].0@ == k {
            assert(listed_before(e, n + 1, k));
        }
        if listed_before(e, n, k) {
            let j = choose|j: int| 0 <= j < n && (#[trigger] e[j]).0@ == k;
            assert(listed_before(e, n + 1, k));
        }
    }
}

/// Position of `s` in `v`, which holds it.
fn position_of(v: &Vec<String>, s: &str) -> (res: usize)
    requires
        strings_view(v@).contains(s@),
    ensures
        res < v@.len(),
        v@[res as int]@ == s@,
{
    let mut i: usize = 0;
    while i < v.len()
        invariant
            i <= v.len(),
            strings_view(v@).contains(s@),
            forall|j: int| 0 <= j < i ==> (#[trigger] v@[j])@ != s@,
        decreases v.len() - i,
    {
        if crate::text::str_eq(v[i].as_str(), s) {
            return i;
        }
        i = i + 1;
    }
    proof {
        let j = choose|j: int| 0 <= j < strings_view(v@).len() && strings_view(v@)[j] == s@;
        assert(v@[j]@ == s@);
    }
    0
}

/// Index of the entry for `key`.
fn find_in(deps: &Vec<(String, Vec<String>)>, key: &str) -> (res: Option<usize>)
    ensures
        match res {
            Some(i) => i < deps@.len() && deps@[i as int].0@ == key@,
            None => !graph_has_key(deps@, key@),
        },
{
    let mut i: usize = 0;
    while i < deps.len()
        invariant
            i <= deps@.len(),
            forall|j: int| 0 <= j < i ==> (#[trigger] deps@[j]).0@ != key@,
        decreases deps.len() - i,
    {
        if crate::text::str_eq(deps[i].0.as_str(), key) {
            return Some(i);
        }
        i = i + 1;
    }
    None
}

impl HandlerCallGraph {
    #[verifier::type_invariant]
    closed spec fn inv(self) -> bool {
        graph_distinct(self.dependencies@)
    }

    /// The handlers that have recorded dependencies, in the order first recorded.
    pub closed spec fn keys(&self) -> Seq<Seq<char>> {
        self.dependencies@.map_values(|e: (String, Vec<String>)| e.0@)
    }

    proof fn lemma_keys(&self)
        requires
            graph_distinct(self.dependencies@),
        ensures
            forall|k: Seq<char>| #[trigger] self@.dom().contains(k) <==> self.keys().contains(k),
            forall|i: int|
                0 <= i < self.dependencies@.len() ==> #[trigger] self@.dom().contains(
                    self.dependencies@[i].0@,
                ) && self@[self.dependencies@[i].0@] == strings_view(self.dependencies@[i].1@),
    {
        assert forall|k: Seq<char>| #[trigger] self@.dom().contains(k) <==> self.keys().contains(k) by {
            if self@.dom().contains(k) {
                let i = choose|i: int| 0 <= i < self.dependencies@.len() && (#[trigger] self.dependencies@[i]).0@ == k;
                assert(self.keys()[i] == k);
            }
            if self.keys().contains(k) {
                let i = choose|i: int| 0 <= i < self.keys().len() && self.keys()[i] == k;
                assert(self.dependencies@[i].0@ == k);
            }
        }
        assert forall|i: int|
            0 <= i < self.dependencies@.len() implies #[trigger] self@.dom().contains(
                self.dependencies@[i].0@,
            ) && self@[self.dependencies@[i].0@] == strings_view(self.dependencies@[i].1@) by {
            let k = self.dependencies@[i].0@;
            let j = graph_key_index(self.dependencies@, k);
            assert(self.dependencies@[j].0@ == k);
        }
    }

    /// An empty graph.
    pub fn new() -> (res: HandlerCallGraph)
        ensures
            res@ == Map::<Seq<char>, Seq<Seq<char>>>::empty(),
    {
        let res = HandlerCallGraph { dependencies: Vec::new() };
        assert(res@ =~= Map::<Seq<char>, Seq<Seq<char>>>::empty());
        res
    }

    fn find(&self, key: &str) -> (res: Option<usize>)
        ensures
            match res {
                Some(i) => i < self.dependencies@.len() && self.dependencies@[i as int].0@ == key@,
                None => !graph_has_key(self.dependencies@, key@),
            },
    {
        let mut i: usize = 0;
        while i < self.dependencies.len()
            invariant
                i <= self.dependencies@.len(),
                forall|j: int| 0 <= j < i ==> (#[trigger] self.dependencies@[j]).0@ != key@,
            decreases self.dependencies.len() - i,
        {
            if crate::text::str_eq(self.dependencies[i].0.as_str(), key) {
                return Some(i);
            }
            i = i + 1;
        }
        None
    }

    /// The dependencies recorded for `key`.
    fn deps_of(&self, key: &str) -> (res: Option<&Vec<String>>)
        ensures
            match res {
                Some(d) => self@.dom().contains(key@) && self@[key@] == strings_view(d@),
                None => !self@.dom().contains(key@),
            },
    {
        proof {
            use_type_invariant(self);
            self.lemma_keys();
        }
        match self.find(key) {
            Some(i) => Some(&self.dependencies[i].1),
            None => None,
        }
    }

    /// Records that `from` depends on `to`.
    pub fn add_dependency(&mut self, from: &str, to: &str)
        ensures
            final(self)@ == with_edge(old(self)@, from@, to@),
    {
        proof {
            use_type_invariant(&*self);
            self.lemma_keys();
        }
        let ghost fv = from@;
        let ghost tv = to@;
        let ghost old_e = self.dependencies@;
        let ghost old_g = self@;
        let mut deps: Vec<(String, Vec<String>)> = Vec::new();
        std::mem::swap(&mut deps, &mut self.dependencies);
        match find_in(&deps, from) {
            Some(i) => {
                let mut entry = deps.remove(i);
                entry.1.push(crate::text::to_owned_string(to));
                deps.insert(i, entry);
                proof {
                    let e = deps@;
                    assert forall|j: int| 0 <= j < e.len() && j != i implies e[j] == old_e[j] by {}
                    assert(e[i as int].0@ == fv);
                    assert(strings_view(e[i as int].1@) =~= strings_view(old_e[i as int].1@).push(tv));
                    assert(graph_distinct(e)) by {
                        assert forall|a: int, b: int|
                            0 <= a < e.len() && 0 <= b < e.len() && a != b implies (
                            #[trigger] e[a]).0@ != (#[trigger] e[b]).0@ by {
                            assert(old_e[a].0@ != old_e[b].0@);
                        }
                    }
                    assert(graph_of(e) =~= with_edge(old_g, fv, tv)) by {
                        assert forall|k: Seq<char>| #[trigger] graph_of(e).dom().contains(k) == with_edge(old_g, fv, tv).dom().contains(k) by {
                            if graph_has_key(old_e, k) {
                                let j = choose|j: int| 0 <= j < old_e.len() && (#[trigger] old_e[j]).0@ == k;
                                assert(e[j].0@ == k);
                            }
                            if graph_has_key(e, k) {
                                let j = choose|j: int| 0 <= j < e.len() && (#[trigger] e[j]).0@ == k;
                                assert(old_e[j].0@ == k);
                            }
                        }
                        assert forall|k: Seq<char>| #[trigger] graph_of(e).dom().contains(k) implies graph_of(e)[k] == with_edge(old_g, fv, tv)[k] by {
                            let j = graph_key_index(e, k);
                            assert(e[j].0@ == k);
                            let j2 = graph_key_index(old_e, k);
                            assert(old_e[j].0@ == k);
                            assert(old_e[j2].0@ == k);
                            assert(j2 == j);
                            if k == fv {
                                assert(j == i);
                            }
                        }
                    }
                }
            },
            None => {
                let mut list: Vec<String> = Vec::new();
                list.push(crate::text::to_owned_string(to));
                deps.push((crate::text::to_owned_string(from), list));
                proof {
                    let e = deps@;
                    let n = old_e.len() as int;
                    assert(strings_view(e[n].1@) =~= Seq::<Seq<char>>::empty().push(tv));
                    assert(graph_distinct(e)) by {
                        assert forall|a: int, b: int|
                            0 <= a < e.len() && 0 <= b < e.len() && a != b implies (
                            #[trigger] e[a]).0@ != (#[trigger] e[b]).0@ by {
                            if a < n && b < n {
                                assert(old_e[a].0@ != old_e[b].0@);
                            } else if a < n {
                                assert(e[a] == old_e[a]);
                            } else {
                                assert(e[b] == old_e[b]);
                            }
                        }
                    }
                    assert(graph_of(e) =~= with_edge(old_g, fv, tv)) by {
                        assert forall|k: Seq<char>| #[trigger] graph_of(e).dom().contains(k) == with_edge(old_g, fv, tv).dom().contains(k) by {
                            if graph_has_key(old_e, k) {
                                let j = choose|j: int| 0 <= j < old_e.len() && (#[trigger] old_e[j]).0@ == k;
                                assert(e[j] == old_e[j]);
                            }
                            if k == fv {
                                assert(e[n].0@ == k);
                            }
                            if graph_has_key(e, k) {
                                let j = choose|j: int| 0 <= j < e.len() && (#[trigger] e[j]).0@ == k;
                                if j < n {
                                    assert(e[j] == old_e[j]);
                                }
                            }
                        }
                        assert forall|k: Seq<char>| #[trigger] graph_of(e).dom().contains(k) implies graph_of(e)[k] == with_edge(old_g, fv, tv)[k] by {
                            let j = graph_key_index(e, k);
                            if k == fv {
                                assert(e[n].0@ == k);
                            } else {
                                assert(j < n);
                                assert(e[j] == old_e[j]);
                                let j2 = graph_key_index(old_e, k);
                                assert(old_e[j2].0@ == k);
                            }
                        }
                    }
                }
            },
        }
        self.dependencies = deps;
    }

    /// The handlers that depend directly on `handler`, each once.
    pub fn dependents_of(&self, handler: &str) -> (res: Vec<String>)
        ensures
            forall|k: Seq<char>| strings_view(res@).contains(k) <==> edge(self@, k, handler@),
            strings_view(res@).no_duplicates(),
    {
        proof {
            use_type_invariant(self);
            self.lemma_keys();
        }
        let ghost e = self.dependencies@;
        let mut out: Vec<String> = Vec::new();
        let mut i: usize = 0;
        while i < self.dependencies.len()
            invariant
                i <= self.dependencies@.len(),
                e == self.dependencies@,
                graph_distinct(e),
                forall|j: int|
                    0 <= j < e.len() ==> #[trigger] self@.dom().contains(e[j].0@) && self@[e[j].0@]
                        == strings_view(e[j].1@),
                forall|k: Seq<char>| #[trigger] strings_view(out@).contains(k) <==> (listed_before(e, i as int, k)
                    && edge(self@, k, handler@)),
                strings_view(out@).no_duplicates(),
            decreases self.dependencies.len() - i,
        {
            let ghost before = strings_view(out@);
            let ghost k = e[i as int].0@;
            proof {
                lemma_listed_step(e, i as int);
            }
            if contains_str(&self.dependencies[i].1, handler) {
                out.push(self.dependencies[i].0.clone());
                proof {
                    let now = strings_view(out@);
                    assert(now =~= before.push(k));
                    assert(edge(self@, k, handler@));
                    assert(!listed_before(e, i as int, k)) by {
                        if listed_before(e, i as int, k) {
                            let j = choose|j: int| 0 <= j < i && (#[trigger] e[j]).0@ == k;
                            assert(e[j].0@ != e[i as int].0@);
                        }
                    }
                    assert(!before.contains(k));
                    assert forall|x: Seq<char>| #[trigger] now.contains(x) <==> (listed_before(e, i + 1, x) && edge(self@, x, handler@)) by {
                        if now.contains(x) {
                            let m = choose|m: int| 0 <= m < now.len() && now[m] == x;
                            if m < before.len() {
                                assert(before[m] == x);
                                assert(before.contains(x));
                            }
                        }
                        if listed_before(e, i + 1, x) && edge(self@, x, handler@) {
                            if x == k {
                                assert(now[before.len() as int] == x);
                            } else {
                                assert(before.contains(x));
                                let m = choose|m: int| 0 <= m < before.len() && before[m] == x;
                                assert(now[m] == x);
                            }
                        }
                    }
                    assert forall|a: int, b: int| 0 <= a < now.len() && 0 <= b < now.len() && a != b implies now[a] != now[b] by {
                        if a < before.len() && b < before.len() {
                            assert(before[a] != before[b]);
                        } else if a < before.len() {
                            assert(before.contains(before[a]));
                        } else if b < before.len() {
                            assert(before.contains(before[b]));
                        }
                    }
                }
            } else {
                proof {
                    assert(!edge(self@, k, handler@));
                    assert forall|x: Seq<char>| #[trigger] before.contains(x) <==> (listed_before(e, i + 1, x) && edge(self@, x, handler@)) by {
                        if before.contains(x) {
                            assert(listed_before(e, i as int, x));
                        }
                    }
                }
            }
            i = i + 1;
        }
        proof {
            assert forall|k: Seq<char>| edge(self@, k, handler@) implies strings_view(out@).contains(k) by {
                let j = choose|j: int| 0 <= j < e.len() && (#[trigger] e[j]).0@ == k;
                assert(listed_before(e, e.len() as int, k));
            }
        }
        out
    }

    /// Finds a cycle of dependencies, if there is one; a cycle lists handlers
    /// along dependency edges and ends with the handler it starts with.
    pub fn detect_cycles(&self) -> (res: Option<Vec<String>>)
        ensures
            match res {
                Some(c) => is_simple_cycle(self@, strings_view(c@)),
                None => !has_cycle(self@),
            },
    {
        proof {
            use_type_invariant(self);
            self.lemma_keys();
        }
        let mut visited: Vec<String> = Vec::new();
        let mut path: Vec<String> = Vec::new();
        let ghost mut o: Seq<Seq<char>> = Seq::empty();
        proof {
            assert(strings_view(path@) =~= Seq::<Seq<char>>::empty());
            assert(strings_view(visited@) =~= Seq::<Seq<char>>::empty());
        }
        let mut i: usize = 0;
        while i < self.dependencies.len()
            invariant
                i <= self.dependencies@.len(),
                forall|j: int|
                    0 <= j < self.dependencies@.len() ==> #[trigger] self@.dom().contains(
                        self.dependencies@[j].0@,
                    ) && self@[self.dependencies@[j].0@] == strings_view(self.dependencies@[j].1@),
                forall|k: Seq<char>| #[trigger] self@.dom().contains(k) <==> self.keys().contains(k),
                strings_view(path@) == Seq::<Seq<char>>::empty(),
                dfs_inv(self@, strings_view(visited@), strings_view(path@), o),
                forall|j: int| 0 <= j < i ==> strings_view(visited@).contains(#[trigger] self.dependencies@[j].0@),
            decreases self.dependencies.len() - i,
        {
            if !contains_str(&visited, self.dependencies[i].0.as_str()) {
                let (r, og) = self.dfs_detect_cycle(self.dependencies[i].0.as_str(), &mut visited, &mut path, Ghost(o));
                if r.is_some() {
                    return r;
                }
                proof {
                    o = og@;
                }
            }
            i = i + 1;
        }
        proof {
            assert forall|k: Seq<char>| self@.dom().contains(k) implies o.contains(k) by {
                assert(self.keys().contains(k));
                let j = choose|j: int| 0 <= j < self.keys().len() && self.keys()[j] == k;
                assert(self.dependencies@[j].0@ == k);
                assert(strings_view(visited@).contains(k));
                assert(!strings_view(path@).contains(k));
            }
            lemma_finished_acyclic(self@, o);
        }
        None
    }

    fn dfs_detect_cycle(
        &self,
        handler: &str,
        visited: &mut Vec<String>,
        path: &mut Vec<String>,
        order: Ghost<Seq<Seq<char>>>,
    ) -> (res: (Option<Vec<String>>, Ghost<Seq<Seq<char>>>))
        requires
            dfs_inv(self@, strings_view(old(visited)@), strings_view(old(path)@), order@),
            !strings_view(old(visited)@).contains(handler@),
            strings_view(old(path)@).len() > 0 ==> edge(self@, strings_view(old(path)@).last(), handler@),
        ensures
            match res.0 {
                Some(c) => is_simple_cycle(self@, strings_view(c@)),
                None => {
                    &&& strings_view(final(path)@) == strings_view(old(path)@)
                    &&& dfs_inv(self@, strings_view(final(visited)@), strings_view(final(path)@), res.1@)
                    &&& res.1@.contains(handler@)
                    &&& forall|x: Seq<char>| strings_view(old(visited)@).contains(x) ==> strings_view(final(visited)@).contains(x)
                    &&& forall|x: Seq<char>| order@.contains(x) ==> res.1@.contains(x)
                },
            },
        decreases unvisited_count(self.keys(), strings_view(old(visited)@)),
    {
        proof {
            use_type_invariant(self);
            self.lemma_keys();
        }
        let ghost g = self@;
        let ghost v0 = strings_view(visited@);
        let ghost p0 = strings_view(path@);
        let ghost mut o = order@;
        visited.push(crate::text::to_owned_string(handler));
        path.push(crate::text::to_owned_string(handler));
        proof {
            let v = strings_view(visited@);
            let p = strings_view(path@);
            assert(v =~= v0.push(handler@));
            assert(p =~= p0.push(handler@));
            assert(v[v0.len() as int] == handler@);
            assert(p[p0.len() as int] == handler@);
            assert(v[v0.len() as int] == handler@);
            assert(p[p0.len() as int] == handler@);
            assert forall|x: Seq<char>| v.contains(x) implies (p.contains(x) || o.contains(x)) by {
                let m = choose|m: int| 0 <= m < v.len() && v[m] == x;
                if m < v0.len() {
                    assert(v0[m] == x);
                    assert(v0.contains(x));
                    if p0.contains(x) {
                        let q = choose|q: int| 0 <= q < p0.len() && p0[q] == x;
                        assert(p[q] == x);
                    }
                } else {
                    assert(x == handler@);
                }
            }
            assert forall|x: Seq<char>| p.contains(x) implies v.contains(x) by {
                let m = choose|m: int| 0 <= m < p.len() && p[m] == x;
                if m < p0.len() {
                    assert(p0[m] == x);
                    assert(p0.contains(x));
                    assert(v0.contains(x));
                    let q = choose|q: int| 0 <= q < v0.len() && v0[q] == x;
                    assert(v[q] == x);
                } else {
                    assert(x == handler@);
                }
            }
            assert forall|x: Seq<char>| o.contains(x) implies v.contains(x) by {
                assert(v0.contains(x));
                let q = choose|q: int| 0 <= q < v0.len() && v0[q] == x;
                assert(v[q] == x);
            }
            assert forall|x: Seq<char>| !(#[trigger] p.contains(x) && o.contains(x)) by {
                if p.contains(x) && o.contains(x) {
                    let m = choose|m: int| 0 <= m < p.len() && p[m] == x;
                    if m < p0.len() {
                        assert(p0[m] == x);
                        assert(p0.contains(x));
                    } else {
                        assert(x == handler@);
                        assert(v0.contains(x));
                    }
                }
            }
            assert forall|i: int| 0 <= i < p.len() - 1 implies #[trigger] path_step(g, p, i) by {
                if i < p0.len() - 1 {
                    assert(path_step(g, p0, i));
                }
            }
            assert forall|x: Seq<char>| v0.contains(x) implies v.contains(x) by {
                let m = choose|m: int| 0 <= m < v0.len() && v0[m] == x;
                assert(v[m] == x);
            }
            assert(!p0.contains(handler@));
            assert forall|a: int, b: int| 0 <= a < p.len() && 0 <= b < p.len() && a != b implies p[a] != p[b] by {
                if a < p0.len() && b < p0.len() {
                    assert(p0[a] != p0[b]);
                } else if a < p0.len() {
                    assert(p0[a] == p[a]);
                    assert(p0.contains(p0[a]));
                } else if b < p0.len() {
                    assert(p0[b] == p[b]);
                    assert(p0.contains(p0[b]));
                }
            }
            assert(dfs_inv(g, v, p, o));
        }
        match self.deps_of(handler) {
            Some(deps) => {
                proof {
                    assert(self.keys().contains(handler@));
                    lemma_count_strict(self.keys(), v0, strings_view(visited@), handler@);
                }
                let mut i: usize = 0;
                while i < deps.len()
                    invariant
                        i <= deps.len(),
                        g == self@,
                        g.dom().contains(handler@),
                        g[handler@] == strings_view(deps@),
                        v0 == strings_view(old(visited)@),
                        strings_view(path@) == p0.push(handler@),
                        dfs_inv(g, strings_view(visited@), strings_view(path@), o),
                        forall|x: Seq<char>| v0.contains(x) ==> strings_view(visited@).contains(x),
                        forall|x: Seq<char>| order@.contains(x) ==> o.contains(x),
                        forall|j: int| 0 <= j < i ==> o.contains(#[trigger] strings_view(deps@)[j]),
                        unvisited_count(self.keys(), strings_view(visited@)) < unvisited_count(self.keys(), v0),
                    decreases deps.len() - i,
                {
                    let ghost pcur = strings_view(path@);
                    assert(pcur.last() == handler@);
                    assert(strings_view(deps@)[i as int] == deps@[i as int]@);
                    assert(edge(g, handler@, deps@[i as int]@));
                    if !contains_str(visited, deps[i].as_str()) {
                        let ghost vb = strings_view(visited@);
                        let (r, og) = self.dfs_detect_cycle(deps[i].as_str(), visited, path, Ghost(o));
                        if r.is_some() {
                            return (r, og);
                        }
                        proof {
                            lemma_count_mono(self.keys(), vb, strings_view(visited@));
                            o = og@;
                        }
                    } else if contains_str(path, deps[i].as_str()) {
                        let k = position_of(path, deps[i].as_str());
                        let mut cycle: Vec<String> = Vec::new();
                        let mut m: usize = k;
                        while m < path.len()
                            invariant
                                k <= m <= path.len(),
                                strings_view(cycle@) == strings_view(path@).subrange(k as int, m as int),
                            decreases path.len() - m,
                        {
                            let ghost before = strings_view(cycle@);
                            cycle.push(path[m].clone());
                            assert(strings_view(cycle@) =~= before.push(path@[m as int]@));
                            assert(strings_view(path@).subrange(k as int, m + 1) =~= strings_view(path@).subrange(k as int, m as int).push(path@[m as int]@));
                            m = m + 1;
                        }
                        let ghost before = strings_view(cycle@);
                        cycle.push(deps[i].clone());
                        proof {
                            let c = strings_view(cycle@);
                            let p = strings_view(path@);
                            assert(c =~= p.subrange(k as int, p.len() as int).push(deps@[i as int]@));
                            assert forall|t: int| 0 <= t < c.len() - 1 implies #[trigger] path_step(g, c, t) by {
                                if t < c.len() - 2 {
                                    assert(path_step(g, p, k + t));
                                    assert(c[t] == p[k + t]);
                                    assert(c[t + 1] == p[k + t + 1]);
                                } else {
                                    assert(c[t] == p.last());
                                }
                            }
                            assert(is_cycle(g, c));
                            assert(c.drop_last() =~= p.subrange(k as int, p.len() as int));
                            assert forall|a: int, b: int| 0 <= a < c.len() - 1 && 0 <= b < c.len() - 1 && a != b implies c.drop_last()[a] != c.drop_last()[b] by {
                                assert(p[k + a] != p[k + b]);
                            }
                            assert(is_simple_cycle(g, c));
                        }
                        return (Some(cycle), Ghost(o));
                    } else {
                        proof {
                            assert(strings_view(visited@).contains(deps@[i as int]@));
                        }
                    }
                    i = i + 1;
                }
            },
            None => {},
        }
        let ghost pb = strings_view(path@);
        let ghost pe = path@;
        path.pop();
        proof {
            let p = strings_view(path@);
            assert(path@ =~= pe.drop_last());
            assert(pb =~= p0.push(handler@));
            assert(p =~= pb.drop_last());
            assert(p =~= p0);
            let v = strings_view(visited@);
            let o2 = o.push(handler@);
            assert(pb.contains(handler@)) by {
                assert(pb[pb.len() - 1] == handler@);
            }
            assert(!o.contains(handler@));
            assert(!p0.contains(handler@));
            assert forall|x: Seq<char>| #[trigger] v.contains(x) <==> (p.contains(x) || o2.contains(x)) by {
                if o2.contains(x) && x != handler@ {
                    let m = choose|m: int| 0 <= m < o2.len() && o2[m] == x;
                    assert(o[m] == x);
                }
                if o.contains(x) {
                    let m = choose|m: int| 0 <= m < o.len() && o[m] == x;
                    assert(o2[m] == x);
                }
                if x == handler@ {
                    assert(o2[o.len() as int] == x);
                }
                if pb.contains(x) && x != handler@ {
                    let m = choose|m: int| 0 <= m < pb.len() && pb[m] == x;
                    assert(p0[m] == x);
                }
                if p0.contains(x) {
                    let m = choose|m: int| 0 <= m < p0.len() && p0[m] == x;
                    assert(pb[m] == x);
                }
            }
            assert forall|x: Seq<char>| !(#[trigger] p.contains(x) && o2.contains(x)) by {
                if p.contains(x) && o2.contains(x) {
                    let m = choose|m: int| 0 <= m < p0.len() && p0[m] == x;
                    assert(pb[m] == x);
                    assert(pb.contains(x));
                    if x != handler@ {
                        let q = choose|q: int| 0 <= q < o2.len() && o2[q] == x;
                        assert(o[q] == x);
                        assert(o.contains(x));
                    }
                }
            }
            assert forall|i: int, w: Seq<char>| 0 <= i < o2.len() && #[trigger] edge(g, o2[i], w) implies finished_before(o2, i, w) by {
                if i < o.len() {
                    assert(o2[i] == o[i]);
                    assert(finished_before(o, i, w));
                    let j = choose|j: int| 0 <= j < i && o[j] == w;
                    assert(o2[j] == w);
                } else {
                    let d = g[handler@];
                    let j = choose|j: int| 0 <= j < d.len() && d[j] == w;
                    assert(o.contains(d[j]));
                    let q = choose|q: int| 0 <= q < o.len() && o[q] == w;
                    assert(o2[q] == w);
                }
            }
            assert forall|i: int| 0 <= i < p.len() - 1 implies #[trigger] path_step(g, p, i) by {
                assert(path_step(g, pb, i));
            }
            assert forall|x: Seq<char>| order@.contains(x) implies o2.contains(x) by {
                let m = choose|m: int| 0 <= m < o.len() && o[m] == x;
                assert(o2[m] == x);
            }
            assert(o2[o.len() as int] == handler@);
            o = o2;
        }
        (None, Ghost(o))
    }

    /// Whether recording that `from` depends on `to` would close a cycle,
    /// that is, whether `from` can already be reached from `to`.
    pub fn would_create_cycle(&self, from: &str, to: &str) -> (res: bool)
        ensures
            res == reachable(self@, to@, from@),
    {
        let mut visited: Vec<String> = Vec::new();
        let res = self.can_reach(to, from, &mut visited);
        if !res {
            proof {
                lemma_closed_unreachable(self@, strings_view(visited@), to@, from@);
            }
        }
        res
    }

    /// Depth-first search from `from` for `to`, skipping handlers already in `visited`.
    fn can_reach(&self, from: &str, to: &str, visited: &mut Vec<String>) -> (res: bool)
        requires
            !strings_view(old(visited)@).contains(to@),
        ensures
            res ==> reachable(self@, from@, to@),
            !res ==> {
                let v0 = strings_view(old(visited)@);
                let v1 = strings_view(final(visited)@);
                &&& v1.contains(from@)
                &&& !v1.contains(to@)
                &&& forall|x: Seq<char>| v0.contains(x) ==> v1.contains(x)
                &&& forall|x: Seq<char>, w: Seq<char>|
                    v1.contains(x) && !v0.contains(x) && edge(self@, x, w) ==> v1.contains(w)
            },
        decreases unvisited_count(self.keys(), strings_view(old(visited)@)),
    {
        proof {
            use_type_invariant(self);
            self.lemma_keys();
        }
        if crate::text::str_eq(from, to) {
            proof {
                lemma_single_path(self@, from@);
            }
            return true;
        }
        if contains_str(visited, from) {
            return false;
        }
        let ghost v0 = strings_view(visited@);
        visited.push(crate::text::to_owned_string(from));
        proof {
            assert(strings_view(visited@) =~= v0.push(from@));
            assert(strings_view(visited@)[v0.len() as int] == from@);
            assert forall|x: Seq<char>| v0.contains(x) implies strings_view(visited@).contains(x) by {
                let i = choose|i: int| 0 <= i < v0.len() && v0[i] == x;
                assert(strings_view(visited@)[i] == x);
            }
            assert(!strings_view(visited@).contains(to@)) by {
                if strings_view(visited@).contains(to@) {
                    let i = choose|i: int| 0 <= i < strings_view(visited@).len() && strings_view(visited@)[i] == to@;
                    if i < v0.len() {
                        assert(v0[i] == to@);
                    }
                }
            }
        }
        match self.deps_of(from) {
            Some(deps) => {
                proof {
                    assert(self.keys().contains(from@));
                    lemma_count_strict(self.keys(), v0, strings_view(visited@), from@);
                }
                let mut i: usize = 0;
                while i < deps.len()
                    invariant
                        i <= deps.len(),
                        self@.dom().contains(from@),
                        self@[from@] == strings_view(deps@),
                        !v0.contains(from@),
                        v0 == strings_view(old(visited)@),
                        strings_view(visited@).contains(from@),
                        !strings_view(visited@).contains(to@),
                        forall|x: Seq<char>| v0.contains(x) ==> strings_view(visited@).contains(x),
                        forall|x: Seq<char>, w: Seq<char>|
                            strings_view(visited@).contains(x) && !v0.contains(x) && x != from@
                                && edge(self@, x, w) ==> strings_view(visited@).contains(w),
                        forall|j: int| 0 <= j < i ==> strings_view(visited@).contains(#[trigger] strings_view(deps@)[j]),
                        unvisited_count(self.keys(), strings_view(visited@)) < unvisited_count(self.keys(), v0),
                    decreases deps.len() - i,
                {
                    let ghost vb = strings_view(visited@);
                    if self.can_reach(deps[i].as_str(), to, visited) {
                        proof {
                            assert(strings_view(deps@)[i as int] == deps@[i as int]@);
                            assert(edge(self@, from@, deps@[i as int]@));
                            lemma_prepend(self@, from@, deps@[i as int]@, to@);
                        }
                        return true;
                    }
                    proof {
                        lemma_count_mono(self.keys(), vb, strings_view(visited@));
                        assert(strings_view(deps@)[i as int] == deps@[i as int]@);
                    }
                    i = i + 1;
                }
                proof {
                    assert forall|w: Seq<char>| edge(self@, from@, w) implies strings_view(visited@).contains(w) by {
                        let j = choose|j: int| 0 <= j < strings_view(deps@).len() && strings_view(deps@)[j] == w;
                        assert(strings_view(visited@).contains(strings_view(deps@)[j]));
                    }
                }
                false
            },
            None => false,
        }
    }
}

impl Default for HandlerCallGraph {
    fn default() -> (res: HandlerCallGraph)
        ensures
            res@ == Map::<Seq<char>, Seq<Seq<char>>>::empty(),
    {
        HandlerCallGraph::new()
    }
}

} // verus!
