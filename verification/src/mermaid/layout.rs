//! Layer assignment and crossing-reducing order for the layered layout of
//! flowcharts, class, state and ER diagrams.
//!
//! Nodes are numbered by their position in the node list; an edge is
//! `(from, to, min_len)`. Nodes are placed in topological order (the first
//! ready node each time; on a cycle, the first node not placed yet), and a
//! node's rank is the largest rank of a source placed before it plus the
//! edge's length: the longest-path layering of an acyclic graph. Each layer
//! is then reordered six times by the barycenter of its neighbours in the
//! layer above (downward sweep) and in the layer below (upward sweep).
use vstd::prelude::*;
use crate::text::{eq_chars, str_to_chars};

verus! {

/// The rank distance an edge asks for: its minimum length, at least one.
pub open spec fn step_len(l: usize) -> int {
    if l == 0 {
        1
    } else {
        l as int
    }
}

/// Targets and lengths of the edges leaving `u`, in edge order. Edges with an
/// endpoint that is not a node are left out.
pub open spec fn out_edges(edges: Seq<(usize, usize, usize)>, n: nat, u: int) -> Seq<(usize, usize)>
    decreases edges.len(),
{
    if edges.len() == 0 {
        Seq::empty()
    } else {
        let rest = out_edges(edges.drop_last(), n, u);
        let e = edges.last();
        if e.0 == u && e.0 < n && e.1 < n {
            rest.push((e.1, e.2))
        } else {
            rest
        }
    }
}

/// Sources of the edges entering `v`, in edge order.
pub open spec fn in_edges(edges: Seq<(usize, usize, usize)>, n: nat, v: int) -> Seq<usize>
    decreases edges.len(),
{
    if edges.len() == 0 {
        Seq::empty()
    } else {
        let rest = in_edges(edges.drop_last(), n, v);
        let e = edges.last();
        if e.1 == v && e.0 < n && e.1 < n {
            rest.push(e.0)
        } else {
            rest
        }
    }
}

pub open spec fn in_adj(edges: Seq<(usize, usize, usize)>, n: nat) -> Seq<Seq<usize>> {
    Seq::new(n, |v: int| in_edges(edges, n, v))
}

/// A copy of `v` with `x` added at the end.
fn appended(v: &Vec<(usize, usize)>, x: (usize, usize)) -> (r: Vec<(usize, usize)>)
    ensures
        r@ == v@.push(x),
{
    let mut r: Vec<(usize, usize)> = Vec::new();
    let mut k: usize = 0;
    while k < v.len()
        invariant
            k <= v@.len(),
            r@ == v@.subrange(0, k as int),
        decreases v@.len() - k,
    {
        r.push(v[k]);
        k += 1;
    }
    assert(v@.subrange(0, v@.len() as int) == v@);
    r.push(x);
    r
}

/// The adjacency lists of the graph: for each node, its outgoing edges
/// (target, length) and its incoming edges (source), in edge order.
pub fn adjacency(n: usize, edges: &[(usize, usize, usize)]) -> (r: (
    Vec<Vec<(usize, usize)>>,
    Vec<Vec<usize>>,
))
    ensures
        r.0@.len() == n,
        r.1@.len() == n,
        forall|u: int| 0 <= u < n ==> (#[trigger] r.0@[u])@ == out_edges(edges@, n as nat, u),
        forall|v: int| 0 <= v < n ==> (#[trigger] r.1@[v])@ == in_edges(edges@, n as nat, v),
{
    let mut outs: Vec<Vec<(usize, usize)>> = Vec::new();
    let mut ins: Vec<Vec<usize>> = Vec::new();
    let mut k: usize = 0;
    while k < n
        invariant
            k <= n,
            outs@.len() == k,
            ins@.len() == k,
            forall|u: int| 0 <= u < k ==> (#[trigger] outs@[u])@ == Seq::<(usize, usize)>::empty(),
            forall|v: int| 0 <= v < k ==> (#[trigger] ins@[v])@ == Seq::<usize>::empty(),
        decreases n - k,
    {
        outs.push(Vec::new());
        ins.push(Vec::new());
        k += 1;
    }
    let m = edges.len();
    let mut i: usize = 0;
    while i < m
        invariant
            m == edges@.len(),
            i <= m,
            outs@.len() == n,
            ins@.len() == n,
            forall|u: int|
                0 <= u < n ==> (#[trigger] outs@[u])@ == out_edges(
                    edges@.subrange(0, i as int),
                    n as nat,
                    u,
                ),
            forall|v: int|
                0 <= v < n ==> (#[trigger] ins@[v])@ == in_edges(
                    edges@.subrange(0, i as int),
                    n as nat,
                    v,
                ),
        decreases m - i,
    {
        let (a, b, l) = edges[i];
        let ghost pre = edges@.subrange(0, i as int);
        let ghost cur = edges@.subrange(0, i + 1);
        assert(cur.drop_last() == pre);
        assert(cur.last() == (a, b, l));
        if a < n && b < n {
            let ov = appended(&outs[a], (b, l));
            outs.set(a, ov);
            let mut iv = ins[b].clone();
            iv.push(a);
            ins.set(b, iv);
        }
        i += 1;
    }
    assert(edges@.subrange(0, m as int) == edges@);
    (outs, ins)
}

// ----- ranks -----

proof fn lemma_in_edges_in_range(edges: Seq<(usize, usize, usize)>, n: nat, v: int)
    ensures
        forall|k: int| 0 <= k < in_edges(edges, n, v).len() ==> #[trigger] in_edges(edges, n, v)[k] < n,
    decreases edges.len(),
{
    if edges.len() > 0 {
        lemma_in_edges_in_range(edges.drop_last(), n, v);
        let o = in_edges(edges, n, v);
        let p = in_edges(edges.drop_last(), n, v);
        assert forall|k: int| 0 <= k < o.len() implies #[trigger] o[k] < n by {
            if k < p.len() {
                assert(o[k] == p[k]);
            }
        }
    }
}

/// `v` may be placed next: it is not placed yet, and every node with an edge
/// into it is.
pub open spec fn ready(edges: Seq<(usize, usize, usize)>, n: nat, ord: Seq<usize>, v: int) -> bool {
    &&& !ord.contains(v as usize)
    &&& forall|k: int| 0 <= k < in_edges(edges, n, v).len() ==> ord.contains(#[trigger] in_edges(edges, n, v)[k])
}

/// The first node from `k` on that is ready.
pub open spec fn first_ready(edges: Seq<(usize, usize, usize)>, n: nat, ord: Seq<usize>, k: int) -> Option<int>
    decreases n - k,
{
    if k < 0 || k >= n {
        None
    } else if ready(edges, n, ord, k) {
        Some(k)
    } else {
        first_ready(edges, n, ord, k + 1)
    }
}

/// The first node from `k` on that is not placed yet.
pub open spec fn first_free(n: nat, ord: Seq<usize>, k: int) -> Option<int>
    decreases n - k,
{
    if k < 0 || k >= n {
        None
    } else if !ord.contains(k as usize) {
        Some(k)
    } else {
        first_free(n, ord, k + 1)
    }
}

/// The node placed next: the first ready one; on a cycle, where none is
/// ready, the first one not placed.
pub open spec fn next_node(edges: Seq<(usize, usize, usize)>, n: nat, ord: Seq<usize>) -> Option<int> {
    match first_ready(edges, n, ord, 0) {
        Some(v) => Some(v),
        None => first_free(n, ord, 0),
    }
}

/// The nodes in the order they are placed after `t` choices: a topological
/// order of an acyclic graph, lowest index first among the ready nodes.
pub open spec fn place_order(edges: Seq<(usize, usize, usize)>, n: nat, t: nat) -> Seq<usize>
    decreases t,
{
    if t == 0 {
        Seq::empty()
    } else {
        let o = place_order(edges, n, (t - 1) as nat);
        match next_node(edges, n, o) {
            Some(v) => o.push(v as usize),
            None => o,
        }
    }
}

pub open spec fn node_order(edges: Seq<(usize, usize, usize)>, n: nat) -> Seq<usize> {
    place_order(edges, n, n)
}

/// The largest of 0 and `ranks[u] + len` over the first `j` edges `(u, v,
/// len)` from a node `u` placed before `v`.
pub open spec fn best_rank(
    edges: Seq<(usize, usize, usize)>,
    n: nat,
    done: Seq<usize>,
    ranks: Seq<int>,
    v: usize,
    j: int,
) -> int
    decreases j,
{
    if j <= 0 {
        0
    } else {
        let b = best_rank(edges, n, done, ranks, v, j - 1);
        let e = edges[j - 1];
        if e.1 == v && e.0 < n && done.contains(e.0) && ranks[e.0 as int] + step_len(e.2) > b {
            ranks[e.0 as int] + step_len(e.2)
        } else {
            b
        }
    }
}

/// The ranks after the first `i` nodes of `ord` got theirs; the others are 0.
pub open spec fn rank_fold(edges: Seq<(usize, usize, usize)>, n: nat, ord: Seq<usize>, i: nat) -> Seq<int>
    decreases i,
{
    if i == 0 {
        Seq::new(n, |k: int| 0int)
    } else {
        let r = rank_fold(edges, n, ord, (i - 1) as nat);
        let v = ord[i - 1];
        r.update(v as int, best_rank(edges, n, ord.take(i - 1), r, v, edges.len() as int))
    }
}

/// The rank of every node: nodes are taken in `node_order`, and a node's
/// rank is the largest, over its incoming edges from nodes placed before
/// it, of the source's rank plus the edge's length (at least 1), or 0.
/// On an acyclic graph this is the longest-path layering.
pub open spec fn layer_ranks(edges: Seq<(usize, usize, usize)>, n: nat) -> Seq<Option<int>> {
    let ord = node_order(edges, n);
    let r = rank_fold(edges, n, ord, ord.len());
    Seq::new(n, |k: int| Some(r[k]))
}

/// Every rank is below `usize::MAX`, so that the ranks and their number fit
/// in machine integers.
pub open spec fn ranks_fit(ranks: Seq<Option<int>>) -> bool {
    forall|v: int| 0 <= v < ranks.len() ==> (#[trigger] ranks[v] matches Some(x) && x < usize::MAX)
}

proof fn lemma_first_ready(edges: Seq<(usize, usize, usize)>, n: nat, ord: Seq<usize>, k: int)
    ensures
        first_ready(edges, n, ord, k) matches Some(v) ==> k <= v < n && ready(edges, n, ord, v),
    decreases n - k,
{
    if 0 <= k < n && !ready(edges, n, ord, k) {
        lemma_first_ready(edges, n, ord, k + 1);
    }
}

proof fn lemma_first_free(n: nat, ord: Seq<usize>, k: int)
    ensures
        first_free(n, ord, k) matches Some(v) ==> k <= v < n && !ord.contains(v as usize),
    decreases n - k,
{
    if 0 <= k < n && ord.contains(k as usize) {
        lemma_first_free(n, ord, k + 1);
    }
}

/// The placed nodes are distinct nodes.
proof fn lemma_place_order(edges: Seq<(usize, usize, usize)>, n: nat, t: nat)
    requires
        n <= usize::MAX,
    ensures
        place_order(edges, n, t).len() <= t,
        forall|i: int| 0 <= i < place_order(edges, n, t).len() ==> #[trigger] place_order(edges, n, t)[i] < n,
        forall|i: int, j: int|
            0 <= i < j < place_order(edges, n, t).len() ==> #[trigger] place_order(edges, n, t)[i]
                != #[trigger] place_order(edges, n, t)[j],
    decreases t,
{
    if t > 0 {
        lemma_place_order(edges, n, (t - 1) as nat);
        let o = place_order(edges, n, (t - 1) as nat);
        lemma_first_ready(edges, n, o, 0);
        lemma_first_free(n, o, 0);
        match next_node(edges, n, o) {
            Some(v) => {
                let p = o.push(v as usize);
                assert forall|i: int, j: int| 0 <= i < j < p.len() implies #[trigger] p[i] != #[trigger] p[j] by {
                    if j == p.len() - 1 {
                        assert(p[i] == o[i]);
                        assert(o.contains(o[i]));
                    } else {
                        assert(p[i] == o[i] && p[j] == o[j]);
                    }
                }
                assert forall|i: int| 0 <= i < p.len() implies #[trigger] p[i] < n by {
                    if i < o.len() {
                        assert(p[i] == o[i]);
                    }
                }
            },
            None => {},
        }
    }
}

proof fn lemma_best_rank_nonneg(
    edges: Seq<(usize, usize, usize)>,
    n: nat,
    done: Seq<usize>,
    ranks: Seq<int>,
    v: usize,
    j: int,
)
    ensures
        best_rank(edges, n, done, ranks, v, j) >= 0,
    decreases j,
{
    if j > 0 {
        lemma_best_rank_nonneg(edges, n, done, ranks, v, j - 1);
    }
}

/// The ranks of the fold have one entry per node, none negative.
proof fn lemma_rank_fold(edges: Seq<(usize, usize, usize)>, n: nat, ord: Seq<usize>, i: nat)
    requires
        i <= ord.len(),
        forall|k: int| 0 <= k < ord.len() ==> #[trigger] ord[k] < n,
    ensures
        rank_fold(edges, n, ord, i).len() == n,
        forall|k: int| 0 <= k < n ==> #[trigger] rank_fold(edges, n, ord, i)[k] >= 0,
    decreases i,
{
    if i > 0 {
        lemma_rank_fold(edges, n, ord, (i - 1) as nat);
        let r = rank_fold(edges, n, ord, (i - 1) as nat);
        lemma_best_rank_nonneg(edges, n, ord.take(i - 1), r, ord[i - 1], edges.len() as int);
    }
}

/// A node placed at position `i` keeps the rank it got there.
proof fn lemma_rank_stays(edges: Seq<(usize, usize, usize)>, n: nat, ord: Seq<usize>, i: nat, j: nat)
    requires
        i < j <= ord.len(),
        forall|k: int| 0 <= k < ord.len() ==> #[trigger] ord[k] < n,
        forall|a: int, b: int| 0 <= a < b < ord.len() ==> #[trigger] ord[a] != #[trigger] ord[b],
    ensures
        rank_fold(edges, n, ord, j)[ord[i as int] as int] == rank_fold(edges, n, ord, (i + 1) as nat)[ord[i as int] as int],
    decreases j,
{
    if j > i + 1 {
        lemma_rank_stays(edges, n, ord, i, (j - 1) as nat);
        lemma_rank_fold(edges, n, ord, (j - 1) as nat);
        assert(ord[j - 1] != ord[i as int]);
    }
}

/// Every node gets a rank, and no rank is negative.
pub proof fn lemma_every_node_ranked(edges: Seq<(usize, usize, usize)>, n: nat)
    requires
        n <= usize::MAX,
    ensures
        layer_ranks(edges, n).len() == n,
        forall|k: int| 0 <= k < n ==> (#[trigger] layer_ranks(edges, n)[k] matches Some(x) && x >= 0),
{
    lemma_place_order(edges, n, n);
    let ord = node_order(edges, n);
    lemma_rank_fold(edges, n, ord, ord.len());
}

// ----- executable ranking -----

fn ready_exec(
    ins: &Vec<Vec<usize>>,
    placed: &Vec<bool>,
    v: usize,
    Ghost(edges): Ghost<Seq<(usize, usize, usize)>>,
    Ghost(ord): Ghost<Seq<usize>>,
) -> (b: bool)
    requires
        v < placed@.len(),
        ins@.len() == placed@.len(),
        forall|w: int| 0 <= w < ins@.len() ==> (#[trigger] ins@[w])@ == in_edges(edges, placed@.len() as nat, w),
        forall|w: int| 0 <= w < placed@.len() ==> #[trigger] placed@[w] == ord.contains(w as usize),
    ensures
        b == ready(edges, placed@.len() as nat, ord, v as int),
{
    let ghost n = placed@.len() as nat;
    if placed[v] {
        return false;
    }
    proof {
        lemma_in_edges_in_range(edges, n, v as int);
    }
    let iv = &ins[v];
    let mut j: usize = 0;
    while j < iv.len()
        invariant
            j <= iv@.len(),
            iv@ == in_edges(edges, n, v as int),
            n == placed@.len(),
            forall|k: int| 0 <= k < iv@.len() ==> #[trigger] iv@[k] < n,
            forall|w: int| 0 <= w < placed@.len() ==> #[trigger] placed@[w] == ord.contains(w as usize),
            forall|k: int| 0 <= k < j ==> ord.contains(#[trigger] iv@[k]),
        decreases iv@.len() - j,
    {
        let u = iv[j];
        if !placed[u] {
            assert(!ord.contains(iv@[j as int]));
            return false;
        }
        j += 1;
    }
    true
}

fn next_node_exec(
    ins: &Vec<Vec<usize>>,
    placed: &Vec<bool>,
    Ghost(edges): Ghost<Seq<(usize, usize, usize)>>,
    Ghost(ord): Ghost<Seq<usize>>,
) -> (r: Option<usize>)
    requires
        ins@.len() == placed@.len(),
        forall|w: int| 0 <= w < ins@.len() ==> (#[trigger] ins@[w])@ == in_edges(edges, placed@.len() as nat, w),
        forall|w: int| 0 <= w < placed@.len() ==> #[trigger] placed@[w] == ord.contains(w as usize),
    ensures
        match r {
            Some(v) => next_node(edges, placed@.len() as nat, ord) == Some(v as int),
            None => next_node(edges, placed@.len() as nat, ord) is None,
        },
{
    let n = placed.len();
    let ghost nn = n as nat;
    let mut k: usize = 0;
    while k < n
        invariant
            k <= n,
            n == placed@.len(),
            nn == n,
            ins@.len() == n,
            forall|w: int| 0 <= w < ins@.len() ==> (#[trigger] ins@[w])@ == in_edges(edges, nn, w),
            forall|w: int| 0 <= w < n ==> #[trigger] placed@[w] == ord.contains(w as usize),
            first_ready(edges, nn, ord, 0) == first_ready(edges, nn, ord, k as int),
        decreases n - k,
    {
        if ready_exec(ins, placed, k, Ghost(edges), Ghost(ord)) {
            return Some(k);
        }
        k += 1;
    }
    let mut k: usize = 0;
    while k < n
        invariant
            k <= n,
            n == placed@.len(),
            nn == n,
            forall|w: int| 0 <= w < n ==> #[trigger] placed@[w] == ord.contains(w as usize),
            first_ready(edges, nn, ord, 0) is None,
            first_free(nn, ord, 0) == first_free(nn, ord, k as int),
        decreases n - k,
    {
        if !placed[k] {
            return Some(k);
        }
        k += 1;
    }
    None
}

/// The rank of every node, or `None` when a rank would not fit in a `usize`.
pub fn assign_ranks(n: usize, edges: &[(usize, usize, usize)]) -> (r: Option<Vec<usize>>)
    ensures
        match r {
            Some(v) => {
                &&& ranks_fit(layer_ranks(edges@, n as nat))
                &&& v@.len() == n
                &&& forall|k: int| 0 <= k < n ==> layer_ranks(edges@, n as nat)[k] == Some(#[trigger] v@[k] as int)
            },
            None => !ranks_fit(layer_ranks(edges@, n as nat)),
        },
{
    let ghost e = edges@;
    let ghost nn = n as nat;
    let (_outs, ins) = adjacency(n, edges);
    let mut placed: Vec<bool> = Vec::new();
    let mut ranks: Vec<usize> = Vec::new();
    let mut done: Vec<bool> = Vec::new();
    let mut k: usize = 0;
    while k < n
        invariant
            k <= n,
            placed@.len() == k,
            ranks@.len() == k,
            done@.len() == k,
            forall|w: int| 0 <= w < k ==> !(#[trigger] placed@[w]),
            forall|w: int| 0 <= w < k ==> !(#[trigger] done@[w]),
            forall|w: int| 0 <= w < k ==> #[trigger] ranks@[w] == 0,
        decreases n - k,
    {
        placed.push(false);
        ranks.push(0);
        done.push(false);
        k += 1;
    }
    // The order in which the nodes are placed.
    let mut ord: Vec<usize> = Vec::new();
    let mut t: usize = 0;
    while t < n
        invariant
            t <= n,
            nn == n,
            e == edges@,
            placed@.len() == n,
            ins@.len() == n,
            forall|w: int| 0 <= w < n ==> (#[trigger] ins@[w])@ == in_edges(e, nn, w),
            ord@ == place_order(e, nn, t as nat),
            forall|w: int| 0 <= w < n ==> #[trigger] placed@[w] == ord@.contains(w as usize),
        decreases n - t,
    {
        proof {
            lemma_place_order(e, nn, t as nat);
        }
        let ghost before = ord@;
        match next_node_exec(&ins, &placed, Ghost(e), Ghost(ord@)) {
            Some(v) => {
                proof {
                    lemma_first_ready(e, nn, before, 0);
                    lemma_first_free(nn, before, 0);
                }
                ord.push(v);
                placed.set(v, true);
                assert forall|w: int| 0 <= w < n implies #[trigger] placed@[w] == ord@.contains(w as usize) by {
                    if w != v {
                        assert(ord@.contains(w as usize) ==> before.contains(w as usize) || w as usize == v);
                        assert(before.contains(w as usize) ==> ord@.contains(w as usize)) by {
                            if before.contains(w as usize) {
                                let q = choose|q: int| 0 <= q < before.len() && #[trigger] before[q] == w as usize;
                                assert(ord@[q] == w as usize);
                            }
                        }
                    } else {
                        assert(ord@[ord@.len() - 1] == v);
                    }
                }
            },
            None => {},
        }
        t += 1;
    }
    proof {
        lemma_place_order(e, nn, nn);
        lemma_rank_fold(e, nn, ord@, 0);
        assert(ranks@.map_values(|x: usize| x as int) =~= rank_fold(e, nn, ord@, 0));
    }
    let ghost ordv = ord@;
    let m = edges.len();
    let mut i: usize = 0;
    while i < ord.len()
        invariant
            i <= ordv.len(),
            ordv == ord@,
            ordv == node_order(e, nn),
            e == edges@,
            m == e.len(),
            nn == n,
            ranks@.len() == n,
            done@.len() == n,
            forall|k: int| 0 <= k < ordv.len() ==> #[trigger] ordv[k] < n,
            forall|a: int, b: int| 0 <= a < b < ordv.len() ==> #[trigger] ordv[a] != #[trigger] ordv[b],
            ranks@.map_values(|x: usize| x as int) == rank_fold(e, nn, ordv, i as nat),
            forall|w: int| 0 <= w < n ==> #[trigger] done@[w] == ordv.take(i as int).contains(w as usize),
            forall|w: int| 0 <= w < n ==> #[trigger] ranks@[w] < usize::MAX,
        decreases ordv.len() - i,
    {
        let v = ord[i];
        let ghost r0 = rank_fold(e, nn, ordv, i as nat);
        proof {
            lemma_rank_fold(e, nn, ordv, i as nat);
        }
        let mut best: u128 = 0;
        let mut j: usize = 0;
        while j < m
            invariant
                j <= m,
                m == e.len(),
                e == edges@,
                v < n,
                nn == n,
                ranks@.len() == n,
                done@.len() == n,
                r0 == ranks@.map_values(|x: usize| x as int),
                forall|w: int| 0 <= w < n ==> #[trigger] done@[w] == ordv.take(i as int).contains(w as usize),
                forall|w: int| 0 <= w < n ==> #[trigger] ranks@[w] < usize::MAX,
                best as int == best_rank(e, nn, ordv.take(i as int), r0, v, j as int),
                best < 2 * (usize::MAX as u128),
            decreases m - j,
        {
            let (a, b, l) = edges[j];
            if b == v && a < n && done[a] {
                let step: u128 = if l == 0 {
                    1
                } else {
                    l as u128
                };
                let c: u128 = ranks[a] as u128 + step;
                assert(r0[a as int] == ranks@[a as int] as int);
                if c > best {
                    best = c;
                }
            }
            j += 1;
        }
        proof {
            lemma_rank_fold(e, nn, ordv, (i + 1) as nat);
        }
        if best >= usize::MAX as u128 {
            proof {
                let fin = rank_fold(e, nn, ordv, ordv.len());
                lemma_rank_stays(e, nn, ordv, i as nat, ordv.len());
                assert(rank_fold(e, nn, ordv, (i + 1) as nat)[v as int] == best as int);
                assert(layer_ranks(e, nn)[v as int] == Some(fin[v as int]));
            }
            return None;
        }
        let ghost pd = done@;
        ranks.set(v, best as usize);
        done.set(v, true);
        proof {
            assert(ranks@.map_values(|x: usize| x as int) =~= rank_fold(e, nn, ordv, (i + 1) as nat));
            let t0 = ordv.take(i as int);
            let t1 = ordv.take(i + 1);
            assert(t1 =~= t0.push(v));
            assert forall|w: int| 0 <= w < n implies #[trigger] done@[w] == t1.contains(w as usize) by {
                assert(pd[w] == t0.contains(w as usize));
                if w == v as int {
                    assert(t1[i as int] == v);
                } else {
                    assert(done@[w] == pd[w]);
                    if t0.contains(w as usize) {
                        let q = choose|q: int| 0 <= q < t0.len() && #[trigger] t0[q] == w as usize;
                        assert(t1[q] == w as usize);
                    }
                    if t1.contains(w as usize) {
                        let q = choose|q: int| 0 <= q < t1.len() && #[trigger] t1[q] == w as usize;
                        assert(q < i);
                        assert(t0[q] == w as usize);
                    }
                }
            }
        }
        i += 1;
    }
    proof {
        let fin = rank_fold(e, nn, ordv, ordv.len());
        assert forall|k: int| 0 <= k < n implies layer_ranks(e, nn)[k] == Some(#[trigger] ranks@[k] as int) by {
            assert(fin[k] == ranks@.map_values(|x: usize| x as int)[k]);
        }
        assert forall|k: int| 0 <= k < n implies (#[trigger] layer_ranks(e, nn)[k] matches Some(x) && x < usize::MAX) by {
            assert(fin[k] == ranks@.map_values(|x: usize| x as int)[k]);
        }
    }
    Some(ranks)
}

/// Position of `x` in `layer` (its last occurrence).
pub open spec fn pos_in(layer: Seq<usize>, x: usize) -> Option<int>
    decreases layer.len(),
{
    if layer.len() == 0 {
        None
    } else if layer.last() == x {
        Some(layer.len() - 1)
    } else {
        pos_in(layer.drop_last(), x)
    }
}

/// Sum and number of the positions in `layer` of those of `nbrs` found there;
/// their quotient is the barycenter.
pub open spec fn bary(nbrs: Seq<usize>, layer: Seq<usize>) -> (int, int)
    decreases nbrs.len(),
{
    if nbrs.len() == 0 {
        (0, 0)
    } else {
        let b = bary(nbrs.drop_last(), layer);
        match pos_in(layer, nbrs.last()) {
            Some(p) => (b.0 + p, b.1 + 1),
            None => b,
        }
    }
}

/// The neighbours of node `x` in `nb`.
pub open spec fn nbrs_of(nb: Seq<Seq<usize>>, x: usize) -> Seq<usize> {
    if x < nb.len() {
        nb[x as int]
    } else {
        Seq::empty()
    }
}

/// Whether node `a` with barycenter key `ka` goes before node `b` with key
/// `kb`: nodes with neighbours in the other layer come first, by increasing
/// barycenter; ties and the others keep node order.
pub open spec fn goes_before(a: usize, ka: (int, int), b: usize, kb: (int, int)) -> bool {
    if ka.1 > 0 && kb.1 > 0 {
        ka.0 * kb.1 < kb.0 * ka.1 || (ka.0 * kb.1 == kb.0 * ka.1 && a < b)
    } else if ka.1 > 0 {
        true
    } else if kb.1 > 0 {
        false
    } else {
        a < b
    }
}

pub open spec fn before_in(nb: Seq<Seq<usize>>, other: Seq<usize>, a: usize, b: usize) -> bool {
    goes_before(a, bary(nbrs_of(nb, a), other), b, bary(nbrs_of(nb, b), other))
}

/// `x` inserted into `s` after the last element it does not go before.
pub open spec fn insert_by(s: Seq<usize>, x: usize, nb: Seq<Seq<usize>>, other: Seq<usize>) -> Seq<usize>
    decreases s.len(),
{
    if s.len() == 0 {
        seq![x]
    } else if before_in(nb, other, x, s.last()) {
        insert_by(s.drop_last(), x, nb, other).push(s.last())
    } else {
        s.push(x)
    }
}

/// Where `insert_by` puts `x`.
pub open spec fn insert_pos(s: Seq<usize>, x: usize, nb: Seq<Seq<usize>>, other: Seq<usize>) -> int
    decreases s.len(),
{
    if s.len() == 0 {
        0
    } else if before_in(nb, other, x, s.last()) {
        insert_pos(s.drop_last(), x, nb, other)
    } else {
        s.len() as int
    }
}

/// `layer` ordered by barycenter with respect to `other` (insertion order;
/// the order is total, so every stable sort gives the same result).
pub open spec fn sort_by_bary(layer: Seq<usize>, nb: Seq<Seq<usize>>, other: Seq<usize>) -> Seq<usize>
    decreases layer.len(),
{
    if layer.len() == 0 {
        Seq::empty()
    } else {
        insert_by(sort_by_bary(layer.drop_last(), nb, other), layer.last(), nb, other)
    }
}

proof fn lemma_insert_pos(s: Seq<usize>, x: usize, nb: Seq<Seq<usize>>, other: Seq<usize>)
    ensures
        0 <= insert_pos(s, x, nb, other) <= s.len(),
        insert_by(s, x, nb, other) == s.insert(insert_pos(s, x, nb, other), x),
    decreases s.len(),
{
    if s.len() > 0 && before_in(nb, other, x, s.last()) {
        lemma_insert_pos(s.drop_last(), x, nb, other);
        let p = insert_pos(s, x, nb, other);
        assert(s.drop_last().insert(p, x).push(s.last()) =~= s.insert(p, x));
    } else if s.len() > 0 {
        assert(s.push(x) =~= s.insert(s.len() as int, x));
    } else {
        assert(seq![x] =~= s.insert(0, x));
    }
}

proof fn lemma_insert_pos_prefix(s: Seq<usize>, x: usize, nb: Seq<Seq<usize>>, other: Seq<usize>, j: int)
    requires
        0 < j <= s.len(),
    ensures
        before_in(nb, other, x, s[j - 1]) ==> insert_pos(s.subrange(0, j), x, nb, other) == insert_pos(s.subrange(0, j - 1), x, nb, other),
        !before_in(nb, other, x, s[j - 1]) ==> insert_pos(s.subrange(0, j), x, nb, other) == j,
{
    assert(s.subrange(0, j).drop_last() == s.subrange(0, j - 1));
}

/// Three-way comparison of `a / b` and `c / d`: the sign of `a * d - c * b`,
/// found without multiplying, by comparing integer parts and then the
/// reciprocals of the remainders.
fn frac_sign(a: u128, b: u128, c: u128, d: u128) -> (r: i8)
    requires
        b > 0,
        d > 0,
    ensures
        r == (if a * d < c * b {
            -1i8
        } else if a * d == c * b {
            0i8
        } else {
            1i8
        }),
    decreases b + d,
{
    let qa = a / b;
    let qc = c / d;
    let ra = a % b;
    let rc = c % d;
    proof {
        assert(a == qa * b + ra && 0 <= ra < b) by (nonlinear_arith)
            requires
                b > 0,
                qa == a / b,
                ra == a % b,
        ;
        assert(c == qc * d + rc && 0 <= rc < d) by (nonlinear_arith)
            requires
                d > 0,
                qc == c / d,
                rc == c % d,
        ;
    }
    if qa < qc {
        assert(a * d < c * b) by (nonlinear_arith)
            requires
                a == qa * b + ra,
                c == qc * d + rc,
                0 <= ra < b,
                0 <= rc < d,
                qa < qc,
                b > 0,
                d > 0,
        ;
        return -1;
    }
    if qa > qc {
        assert(a * d > c * b) by (nonlinear_arith)
            requires
                a == qa * b + ra,
                c == qc * d + rc,
                0 <= ra < b,
                0 <= rc < d,
                qa > qc,
                b > 0,
                d > 0,
        ;
        return 1;
    }
    assert(a * d - c * b == ra * d - rc * b) by (nonlinear_arith)
        requires
            a == qa * b + ra,
            c == qc * d + rc,
            qa == qc,
    ;
    if ra == 0 {
        assert(ra * d == 0) by (nonlinear_arith)
            requires
                ra == 0,
        ;
        if rc == 0 {
            assert(rc * b == 0) by (nonlinear_arith)
                requires
                    rc == 0,
            ;
            return 0;
        }
        assert(rc * b > 0) by (nonlinear_arith)
            requires
                rc > 0,
                b > 0,
        ;
        return -1;
    }
    if rc == 0 {
        assert(rc * b == 0) by (nonlinear_arith)
            requires
                rc == 0,
        ;
        assert(ra * d > 0) by (nonlinear_arith)
            requires
                ra > 0,
                d > 0,
        ;
        return 1;
    }
    assert(d * ra == ra * d && b * rc == rc * b) by (nonlinear_arith);
    frac_sign(d, rc, b, ra)
}

fn position_in(layer: &Vec<usize>, x: usize) -> (r: Option<usize>)
    ensures
        match r {
            Some(p) => pos_in(layer@, x) == Some(p as int),
            None => pos_in(layer@, x) is None,
        },
        r matches Some(p) ==> p < layer@.len(),
{
    let mut j: usize = layer.len();
    assert(layer@.subrange(0, j as int) == layer@);
    while j > 0
        invariant
            j <= layer@.len(),
            pos_in(layer@, x) == pos_in(layer@.subrange(0, j as int), x),
        decreases j,
    {
        assert(layer@.subrange(0, j as int).drop_last() == layer@.subrange(0, j - 1));
        if layer[j - 1] == x {
            return Some(j - 1);
        }
        j -= 1;
    }
    None
}

/// Sum and number of the positions in `layer` of those of `nbrs` found there.
pub fn barycenter(nbrs: &Vec<usize>, layer: &Vec<usize>) -> (r: (u128, u128))
    ensures
        (r.0 as int, r.1 as int) == bary(nbrs@, layer@),
{
    let mut t: u128 = 0;
    let mut c: u128 = 0;
    let mut k: usize = 0;
    let ln = layer.len();
    let ghost len = ln as int;
    while k < nbrs.len()
        invariant
            k <= nbrs@.len(),
            len == layer@.len(),
            len == ln,
            (t as int, c as int) == bary(nbrs@.subrange(0, k as int), layer@),
            c <= k,
            t <= c * len,
        decreases nbrs@.len() - k,
    {
        assert(nbrs@.subrange(0, k + 1).drop_last() == nbrs@.subrange(0, k as int));
        match position_in(layer, nbrs[k]) {
            Some(p) => {
                assert(t + p <= (c + 1) * len && (c + 1) * len < 0x1_0000_0000_0000_0000_0000_0000_0000_0000) by (nonlinear_arith)
                    requires
                        t <= c * len,
                        p < len,
                        c <= k,
                        k < 0x1_0000_0000_0000_0000,
                        len <= ln,
                        ln < 0x1_0000_0000_0000_0000,
                ;
                t = t + p as u128;
                c = c + 1;
            },
            None => {},
        }
        k += 1;
    }
    assert(nbrs@.subrange(0, nbrs@.len() as int) == nbrs@);
    (t, c)
}

fn before_exec(a: usize, ka: (u128, u128), b: usize, kb: (u128, u128)) -> (r: bool)
    ensures
        r == goes_before(a, (ka.0 as int, ka.1 as int), b, (kb.0 as int, kb.1 as int)),
{
    if ka.1 > 0 && kb.1 > 0 {
        let c = frac_sign(ka.0, ka.1, kb.0, kb.1);
        c < 0 || (c == 0 && a < b)
    } else if ka.1 > 0 {
        true
    } else if kb.1 > 0 {
        false
    } else {
        a < b
    }
}

fn nbrs_exec(nb: &Vec<Vec<usize>>, x: usize) -> (r: Vec<usize>)
    ensures
        r@ == nbrs_of(nb.deep_view(), x),
{
    if x < nb.len() {
        let v = nb[x].clone();
        assert(v@ == nb.deep_view()[x as int]);
        v
    } else {
        Vec::new()
    }
}

/// `layer` ordered by barycenter of each node's neighbours in `other`.
pub fn sort_layer(layer: &Vec<usize>, nb: &Vec<Vec<usize>>, other: &Vec<usize>) -> (r: Vec<usize>)
    ensures
        r@ == sort_by_bary(layer@, nb.deep_view(), other@),
{
    let ghost nbv = nb.deep_view();
    let mut ids: Vec<usize> = Vec::new();
    let mut keys: Vec<(u128, u128)> = Vec::new();
    let mut i: usize = 0;
    while i < layer.len()
        invariant
            i <= layer@.len(),
            nbv == nb.deep_view(),
            ids@ == sort_by_bary(layer@.subrange(0, i as int), nbv, other@),
            keys@.len() == ids@.len(),
            forall|k: int|
                0 <= k < ids@.len() ==> ((#[trigger] keys@[k]).0 as int, keys@[k].1 as int) == bary(
                    nbrs_of(nbv, ids@[k]),
                    other@,
                ),
        decreases layer@.len() - i,
    {
        let x = layer[i];
        let xn = nbrs_exec(nb, x);
        let kx = barycenter(&xn, other);
        let mut p: usize = ids.len();
        assert(ids@.subrange(0, p as int) == ids@);
        while p > 0
            invariant
                p <= ids@.len(),
                keys@.len() == ids@.len(),
                forall|k: int|
                    0 <= k < ids@.len() ==> ((#[trigger] keys@[k]).0 as int, keys@[k].1 as int) == bary(
                        nbrs_of(nbv, ids@[k]),
                        other@,
                    ),
                (kx.0 as int, kx.1 as int) == bary(nbrs_of(nbv, x), other@),
                insert_pos(ids@, x, nbv, other@) == insert_pos(ids@.subrange(0, p as int), x, nbv, other@),
            ensures
                insert_pos(ids@, x, nbv, other@) == p as int,
            decreases p,
        {
            let y = ids[p - 1];
            let ky = keys[p - 1];
            proof {
                lemma_insert_pos_prefix(ids@, x, nbv, other@, p as int);
            }
            if !before_exec(x, kx, y, ky) {
                break;
            }
            p -= 1;
            proof {
                if p == 0 {
                    assert(ids@.subrange(0, 0) =~= Seq::<usize>::empty());
                }
            }
        }
        proof {
            lemma_insert_pos(ids@, x, nbv, other@);
            assert(layer@.subrange(0, i + 1).drop_last() == layer@.subrange(0, i as int));
        }
        let ghost old_ids = ids@;
        let ghost old_keys = keys@;
        ids.insert(p, x);
        keys.insert(p, kx);
        proof {
            assert forall|k: int|
                0 <= k < ids@.len() implies ((#[trigger] keys@[k]).0 as int, keys@[k].1 as int) == bary(
                nbrs_of(nbv, ids@[k]),
                other@,
            ) by {
                if k < p {
                    assert(ids@[k] == old_ids[k] && keys@[k] == old_keys[k]);
                } else if k > p {
                    assert(ids@[k] == old_ids[k - 1] && keys@[k] == old_keys[k - 1]);
                }
            }
        }
        i += 1;
    }
    assert(layer@.subrange(0, layer@.len() as int) == layer@);
    ids
}

/// Nodes among the first `m` whose rank is `k`, in node order.
pub open spec fn members(ranks: Seq<usize>, k: int, m: nat) -> Seq<usize>
    decreases m,
{
    if m == 0 {
        Seq::empty()
    } else {
        let s = members(ranks, k, (m - 1) as nat);
        if ranks[m - 1] == k {
            s.push((m - 1) as usize)
        } else {
            s
        }
    }
}

/// The largest rank, or 0.
pub open spec fn seq_max(ranks: Seq<usize>) -> int
    decreases ranks.len(),
{
    if ranks.len() == 0 {
        0
    } else {
        let m = seq_max(ranks.drop_last());
        if ranks.last() > m {
            ranks.last() as int
        } else {
            m
        }
    }
}

/// One layer per rank from 0 to the largest, each in node order.
pub open spec fn rank_layers(ranks: Seq<usize>) -> Seq<Seq<usize>> {
    Seq::new((seq_max(ranks) + 1) as nat, |k: int| members(ranks, k, ranks.len()))
}

proof fn lemma_seq_max(ranks: Seq<usize>)
    ensures
        seq_max(ranks) >= 0,
        forall|k: int| 0 <= k < ranks.len() ==> #[trigger] ranks[k] <= seq_max(ranks),
        seq_max(ranks) == 0 || exists|k: int| 0 <= k < ranks.len() && #[trigger] ranks[k] == seq_max(ranks),
    decreases ranks.len(),
{
    if ranks.len() > 0 {
        lemma_seq_max(ranks.drop_last());
        if seq_max(ranks) != 0 && ranks.last() <= seq_max(ranks.drop_last()) {
            let k = choose|k: int| 0 <= k < ranks.drop_last().len() && #[trigger] ranks.drop_last()[k] == seq_max(ranks.drop_last());
            assert(ranks[k] == ranks.drop_last()[k]);
        }
        assert forall|k: int| 0 <= k < ranks.len() implies #[trigger] ranks[k] <= seq_max(ranks) by {
            if k < ranks.len() - 1 {
                assert(ranks[k] == ranks.drop_last()[k]);
            }
        }
    }
}

/// The nodes grouped into layers by rank.
pub fn group_by_rank(ranks: &Vec<usize>) -> (r: Vec<Vec<usize>>)
    requires
        forall|k: int| 0 <= k < ranks@.len() ==> #[trigger] ranks@[k] < usize::MAX,
    ensures
        r.deep_view() == rank_layers(ranks@),
{
    let n = ranks.len();
    let mut m: usize = 0;
    let mut t: usize = 0;
    while t < n
        invariant
            t <= n,
            n == ranks@.len(),
            m as int == seq_max(ranks@.subrange(0, t as int)),
        decreases n - t,
    {
        assert(ranks@.subrange(0, t + 1).drop_last() == ranks@.subrange(0, t as int));
        if ranks[t] > m {
            m = ranks[t];
        }
        t += 1;
    }
    proof {
        assert(ranks@.subrange(0, n as int) == ranks@);
        lemma_seq_max(ranks@);
        if n > 0 {
            assert(ranks@[0] <= m);
        }
    }
    let cnt = m + 1;
    let mut layers: Vec<Vec<usize>> = Vec::new();
    let mut k: usize = 0;
    while k < cnt
        invariant
            k <= cnt,
            layers@.len() == k,
            forall|q: int| 0 <= q < k ==> (#[trigger] layers@[q])@ == Seq::<usize>::empty(),
        decreases cnt - k,
    {
        layers.push(Vec::new());
        k += 1;
    }
    let mut v: usize = 0;
    while v < n
        invariant
            v <= n,
            n == ranks@.len(),
            cnt == seq_max(ranks@) + 1,
            forall|k: int| 0 <= k < n ==> #[trigger] ranks@[k] <= seq_max(ranks@),
            layers@.len() == cnt,
            forall|q: int| 0 <= q < cnt ==> (#[trigger] layers@[q])@ == members(ranks@, q, v as nat),
        decreases n - v,
    {
        let rk = ranks[v];
        let mut lv = layers[rk].clone();
        lv.push(v);
        layers.set(rk, lv);
        v += 1;
    }
    assert forall|q: int| 0 <= q < cnt implies #[trigger] layers.deep_view()[q] == rank_layers(ranks@)[q] by {
        assert(layers.deep_view()[q] =~= layers@[q]@);
    }
    assert(layers.deep_view() =~= rank_layers(ranks@));
    layers
}

/// The downward sweep over the first `m` layers: each layer after the first
/// is ordered by the barycenter of its nodes' sources in the layer above.
pub open spec fn sweep_down(ls: Seq<Seq<usize>>, nb: Seq<Seq<usize>>, m: nat) -> Seq<Seq<usize>>
    decreases m,
{
    if m <= 1 {
        ls
    } else {
        let d = sweep_down(ls, nb, (m - 1) as nat);
        d.update(m - 1, sort_by_bary(d[m - 1], nb, d[m - 2]))
    }
}

/// The upward sweep over the layers from the last but one down to layer `m`:
/// each is ordered by the barycenter of its nodes' targets in the layer below.
pub open spec fn sweep_up(ls: Seq<Seq<usize>>, nb: Seq<Seq<usize>>, m: nat) -> Seq<Seq<usize>>
    decreases ls.len() - m,
{
    if m + 1 >= ls.len() {
        ls
    } else {
        let u = sweep_up(ls, nb, m + 1);
        u.update(m as int, sort_by_bary(u[m as int], nb, u[m as int + 1]))
    }
}

/// Targets of the edges leaving each node.
pub open spec fn out_targets(edges: Seq<(usize, usize, usize)>, n: nat) -> Seq<Seq<usize>> {
    Seq::new(n, |u: int| out_edges(edges, n, u).map_values(|e: (usize, usize)| e.0))
}

/// `k` rounds of a downward then an upward sweep.
pub open spec fn sweeps(ls: Seq<Seq<usize>>, ins: Seq<Seq<usize>>, outs: Seq<Seq<usize>>, k: nat) -> Seq<Seq<usize>>
    decreases k,
{
    if k == 0 {
        ls
    } else {
        let p = sweeps(ls, ins, outs, (k - 1) as nat);
        sweep_up(sweep_down(p, ins, p.len()), outs, 0)
    }
}

pub open spec fn rank_of(o: Option<int>) -> usize {
    match o {
        Some(x) => x as usize,
        None => 0,
    }
}

/// The rank of each node as a sequence.
pub open spec fn rank_seq(edges: Seq<(usize, usize, usize)>, n: nat) -> Seq<usize> {
    Seq::new(n, |k: int| rank_of(layer_ranks(edges, n)[k]))
}

/// The layers of the graph, each in its final order: six rounds of sweeps
/// over the layers by rank. A graph without nodes has no layers.
pub open spec fn layer_order(edges: Seq<(usize, usize, usize)>, n: nat) -> Seq<Seq<usize>> {
    if n == 0 {
        Seq::empty()
    } else {
        sweeps(
            rank_layers(rank_seq(edges, n)),
            in_adj(edges, n),
            out_targets(edges, n),
            6,
        )
    }
}

proof fn lemma_sweep_down_len(ls: Seq<Seq<usize>>, nb: Seq<Seq<usize>>, m: nat)
    requires
        m <= ls.len(),
    ensures
        sweep_down(ls, nb, m).len() == ls.len(),
    decreases m,
{
    if m > 1 {
        lemma_sweep_down_len(ls, nb, (m - 1) as nat);
    }
}

proof fn lemma_sweep_up_len(ls: Seq<Seq<usize>>, nb: Seq<Seq<usize>>, m: nat)
    ensures
        sweep_up(ls, nb, m).len() == ls.len(),
    decreases ls.len() - m,
{
    if m + 1 < ls.len() {
        lemma_sweep_up_len(ls, nb, m + 1);
    }
}

/// The downward sweep, in place.
fn down_sweep(layers: &mut Vec<Vec<usize>>, nb: &Vec<Vec<usize>>)
    ensures
        final(layers).deep_view() == sweep_down(old(layers).deep_view(), nb.deep_view(), old(layers)@.len() as nat),
{
    let ghost ls0 = layers.deep_view();
    let len = layers.len();
    if len <= 1 {
        return;
    }
    let mut m: usize = 1;
    while m < len
        invariant
            1 <= m <= len,
            layers@.len() == len,
            ls0.len() == len,
            layers.deep_view() == sweep_down(ls0, nb.deep_view(), m as nat),
        decreases len - m,
    {
        proof {
            lemma_sweep_down_len(ls0, nb.deep_view(), m as nat);
        }
        let sorted = sort_layer(&layers[m], nb, &layers[m - 1]);
        proof {
            assert(layers@[m as int]@ =~= layers.deep_view()[m as int]);
            assert(layers@[m - 1]@ =~= layers.deep_view()[m - 1]);
        }
        let ghost old_layers = layers@;
        let ghost old_dv = layers.deep_view();
        layers.set(m, sorted);
        proof {
            assert forall|q: int| 0 <= q < len implies #[trigger] layers.deep_view()[q] == old_dv.update(m as int, sorted@)[q] by {
                if q == m {
                    assert(layers.deep_view()[q] =~= sorted@);
                } else {
                    assert(layers@[q] == old_layers[q]);
                    assert(layers.deep_view()[q] =~= old_dv[q]);
                }
            }
            assert(layers.deep_view() =~= old_dv.update(m as int, sorted@));
            assert(layers.deep_view() =~= sweep_down(ls0, nb.deep_view(), (m + 1) as nat));
        }
        m += 1;
    }
}

/// The upward sweep, in place.
fn up_sweep(layers: &mut Vec<Vec<usize>>, nb: &Vec<Vec<usize>>)
    ensures
        final(layers).deep_view() == sweep_up(old(layers).deep_view(), nb.deep_view(), 0),
{
    let ghost ls0 = layers.deep_view();
    let len = layers.len();
    if len <= 1 {
        return;
    }
    let mut m: usize = len - 1;
    while m > 0
        invariant
            0 <= m <= len - 1,
            layers@.len() == len,
            ls0.len() == len,
            layers.deep_view() == sweep_up(ls0, nb.deep_view(), m as nat),
        decreases m,
    {
        proof {
            lemma_sweep_up_len(ls0, nb.deep_view(), m as nat);
        }
        let i = m - 1;
        let sorted = sort_layer(&layers[i], nb, &layers[m]);
        proof {
            assert(layers@[i as int]@ =~= layers.deep_view()[i as int]);
            assert(layers@[m as int]@ =~= layers.deep_view()[m as int]);
        }
        let ghost old_layers = layers@;
        let ghost old_dv = layers.deep_view();
        layers.set(i, sorted);
        proof {
            assert forall|q: int| 0 <= q < len implies #[trigger] layers.deep_view()[q] == old_dv.update(i as int, sorted@)[q] by {
                if q == i {
                    assert(layers.deep_view()[q] =~= sorted@);
                } else {
                    assert(layers@[q] == old_layers[q]);
                    assert(layers.deep_view()[q] =~= old_dv[q]);
                }
            }
            assert(layers.deep_view() =~= old_dv.update(i as int, sorted@));
            assert(layers.deep_view() =~= sweep_up(ls0, nb.deep_view(), i as nat));
        }
        m = i;
    }
}

/// The layers of the graph with `n` nodes and the given edges, each listing
/// its nodes in their final left-to-right (or top-to-bottom) order; `None`
/// when a rank does not fit in a `usize`.
pub fn layered_order(n: usize, edges: &[(usize, usize, usize)]) -> (r: Option<Vec<Vec<usize>>>)
    ensures
        match r {
            Some(ls) => ranks_fit(layer_ranks(edges@, n as nat)) && ls.deep_view() == layer_order(edges@, n as nat),
            None => !ranks_fit(layer_ranks(edges@, n as nat)),
        },
{
    let ro = assign_ranks(n, edges);
    if ro.is_none() {
        return None;
    }
    let ranks = ro.unwrap();
    assert(ranks_fit(layer_ranks(edges@, n as nat)));
    assert(ranks@.len() == n);
    if n == 0 {
        let empty: Vec<Vec<usize>> = Vec::new();
        assert(empty.deep_view() =~= layer_order(edges@, n as nat));
        return Some(empty);
    }
    assert(ranks@ =~= rank_seq(edges@, n as nat));
    proof {
        lemma_every_node_ranked(edges@, n as nat);
    }
    assert forall|k: int| 0 <= k < ranks@.len() implies #[trigger] ranks@[k] < usize::MAX by {
        assert(layer_ranks(edges@, n as nat)[k] == Some(ranks@[k] as int));
    }
    let mut layers = group_by_rank(&ranks);
    let (outs, ins) = adjacency(n, edges);
    let mut targets: Vec<Vec<usize>> = Vec::new();
    let mut u: usize = 0;
    while u < n
        invariant
            u <= n,
            outs@.len() == n,
            forall|w: int| 0 <= w < n ==> (#[trigger] outs@[w])@ == out_edges(edges@, n as nat, w),
            targets@.len() == u,
            forall|w: int| 0 <= w < u ==> (#[trigger] targets@[w])@ == out_targets(edges@, n as nat)[w],
        decreases n - u,
    {
        let ou = &outs[u];
        let mut tv: Vec<usize> = Vec::new();
        let mut j: usize = 0;
        while j < ou.len()
            invariant
                j <= ou@.len(),
                tv@ == ou@.subrange(0, j as int).map_values(|e: (usize, usize)| e.0),
            decreases ou@.len() - j,
        {
            tv.push(ou[j].0);
            j += 1;
            assert(tv@ =~= ou@.subrange(0, j as int).map_values(|e: (usize, usize)| e.0));
        }
        assert(ou@.subrange(0, ou@.len() as int) == ou@);
        targets.push(tv);
        u += 1;
    }
    proof {
        assert forall|w: int| 0 <= w < n implies #[trigger] targets.deep_view()[w] == out_targets(edges@, n as nat)[w] by {
            assert(targets.deep_view()[w] =~= targets@[w]@);
        }
        assert(targets.deep_view() =~= out_targets(edges@, n as nat));
        assert forall|w: int| 0 <= w < n implies #[trigger] ins.deep_view()[w] == in_adj(edges@, n as nat)[w] by {
            assert(ins.deep_view()[w] =~= ins@[w]@);
        }
        assert(ins.deep_view() =~= in_adj(edges@, n as nat));
    }
    let ghost ls0 = layers.deep_view();
    let mut round: usize = 0;
    while round < 6
        invariant
            round <= 6,
            layers.deep_view() == sweeps(ls0, ins.deep_view(), targets.deep_view(), round as nat),
        decreases 6 - round,
    {
        let ghost before = layers.deep_view();
        down_sweep(&mut layers, &ins);
        proof {
            lemma_sweep_down_len(before, ins.deep_view(), before.len());
        }
        up_sweep(&mut layers, &targets);
        round += 1;
    }
    Some(layers)
}

proof fn lemma_insert_by_multiset(s: Seq<usize>, x: usize, nb: Seq<Seq<usize>>, other: Seq<usize>)
    ensures
        insert_by(s, x, nb, other).to_multiset() == s.to_multiset().insert(x),
    decreases s.len(),
{
    broadcast use vstd::seq_lib::group_to_multiset_ensures;

    if s.len() > 0 {
        assert(s.drop_last().push(s.last()) == s);
        if before_in(nb, other, x, s.last()) {
            lemma_insert_by_multiset(s.drop_last(), x, nb, other);
            assert(insert_by(s, x, nb, other).to_multiset() =~= s.to_multiset().insert(x));
        }
    } else {
        assert(seq![x] == Seq::<usize>::empty().push(x));
        assert(insert_by(s, x, nb, other).to_multiset() =~= s.to_multiset().insert(x));
    }
}

proof fn lemma_sort_multiset(layer: Seq<usize>, nb: Seq<Seq<usize>>, other: Seq<usize>)
    ensures
        sort_by_bary(layer, nb, other).to_multiset() == layer.to_multiset(),
    decreases layer.len(),
{
    broadcast use vstd::seq_lib::group_to_multiset_ensures;

    if layer.len() > 0 {
        lemma_sort_multiset(layer.drop_last(), nb, other);
        lemma_insert_by_multiset(sort_by_bary(layer.drop_last(), nb, other), layer.last(), nb, other);
        assert(layer.drop_last().push(layer.last()) == layer);
    }
}

proof fn lemma_sweep_down_multiset(ls: Seq<Seq<usize>>, nb: Seq<Seq<usize>>, m: nat, q: int)
    requires
        m <= ls.len(),
        0 <= q < ls.len(),
    ensures
        sweep_down(ls, nb, m)[q].to_multiset() == ls[q].to_multiset(),
    decreases m,
{
    if m > 1 {
        lemma_sweep_down_len(ls, nb, (m - 1) as nat);
        lemma_sweep_down_multiset(ls, nb, (m - 1) as nat, q);
        let d = sweep_down(ls, nb, (m - 1) as nat);
        if q == m - 1 {
            lemma_sort_multiset(d[m - 1], nb, d[m - 2]);
        }
    }
}

proof fn lemma_sweep_up_multiset(ls: Seq<Seq<usize>>, nb: Seq<Seq<usize>>, m: nat, q: int)
    requires
        0 <= q < ls.len(),
    ensures
        sweep_up(ls, nb, m)[q].to_multiset() == ls[q].to_multiset(),
    decreases ls.len() - m,
{
    if m + 1 < ls.len() {
        lemma_sweep_up_len(ls, nb, m + 1);
        lemma_sweep_up_multiset(ls, nb, m + 1, q);
        let u = sweep_up(ls, nb, m + 1);
        if q == m {
            lemma_sort_multiset(u[m as int], nb, u[m as int + 1]);
        }
    }
}

proof fn lemma_sweeps_multiset(ls: Seq<Seq<usize>>, ins: Seq<Seq<usize>>, outs: Seq<Seq<usize>>, k: nat, q: int)
    requires
        0 <= q < ls.len(),
    ensures
        sweeps(ls, ins, outs, k).len() == ls.len(),
        sweeps(ls, ins, outs, k)[q].to_multiset() == ls[q].to_multiset(),
    decreases k,
{
    if k > 0 {
        lemma_sweeps_multiset(ls, ins, outs, (k - 1) as nat, q);
        let p = sweeps(ls, ins, outs, (k - 1) as nat);
        lemma_sweep_down_len(p, ins, p.len());
        lemma_sweep_down_multiset(p, ins, p.len(), q);
        let d = sweep_down(p, ins, p.len());
        lemma_sweep_up_len(d, outs, 0);
        lemma_sweep_up_multiset(d, outs, 0, q);
    }
}

proof fn lemma_members_count(ranks: Seq<usize>, q: int, m: nat, v: usize)
    requires
        m <= ranks.len(),
        m <= usize::MAX,
    ensures
        members(ranks, q, m).to_multiset().count(v) == (if v < m && ranks[v as int] == q {
            1nat
        } else {
            0nat
        }),
    decreases m,
{
    broadcast use vstd::seq_lib::group_to_multiset_ensures;

    if m > 0 {
        lemma_members_count(ranks, q, (m - 1) as nat, v);
        let s = members(ranks, q, (m - 1) as nat);
        if ranks[m - 1] == q {
            assert(s.push((m - 1) as usize).to_multiset() == s.to_multiset().insert((m - 1) as usize));
        }
    } else {
        assert(members(ranks, q, m).to_multiset() =~= vstd::multiset::Multiset::empty());
    }
}

/// In the final order every node stands exactly once, in the layer of its
/// rank, and there is a layer for every rank up to the largest.
pub proof fn layers_partition_nodes(edges: Seq<(usize, usize, usize)>, n: nat, q: int, v: usize)
    requires
        0 < n <= usize::MAX,
        ranks_fit(layer_ranks(edges, n)),
        0 <= q < layer_order(edges, n).len(),
    ensures
        layer_order(edges, n).len() == seq_max(rank_seq(edges, n)) + 1,
        layer_order(edges, n)[q].to_multiset().count(v) == (if v < n && rank_seq(edges, n)[v as int] == q {
            1nat
        } else {
            0nat
        }),
{
    let ranks = rank_seq(edges, n);
    lemma_seq_max(ranks);
    let ls = rank_layers(ranks);
    lemma_sweeps_multiset(ls, in_adj(edges, n), out_targets(edges, n), 6, 0);
    lemma_sweeps_multiset(ls, in_adj(edges, n), out_targets(edges, n), 6, q);
    lemma_members_count(ranks, q, n, v);
}

proof fn lemma_best_rank_source(edges: Seq<(usize, usize, usize)>, n: nat, done: Seq<usize>, ranks: Seq<int>, v: usize, j: int)
    requires
        0 <= j <= edges.len(),
        v < n,
        in_edges(edges.take(j), n, v as int).len() == 0,
    ensures
        best_rank(edges, n, done, ranks, v, j) == 0,
    decreases j,
{
    if j > 0 {
        assert(edges.take(j).drop_last() == edges.take(j - 1));
        assert(edges.take(j).last() == edges[j - 1]);
        lemma_best_rank_source(edges, n, done, ranks, v, j - 1);
    }
}

proof fn lemma_no_in_edges_prefix(edges: Seq<(usize, usize, usize)>, n: nat, v: int, j: int)
    requires
        0 <= j <= edges.len(),
        in_edges(edges, n, v).len() == 0,
    ensures
        in_edges(edges.take(j), n, v).len() == 0,
    decreases edges.len() - j,
{
    if j < edges.len() {
        lemma_no_in_edges_prefix(edges, n, v, j + 1);
        assert(edges.take(j + 1).drop_last() == edges.take(j));
    } else {
        assert(edges.take(j) == edges);
    }
}

proof fn lemma_source_rank(edges: Seq<(usize, usize, usize)>, n: nat, ord: Seq<usize>, i: nat, v: int)
    requires
        0 <= v < n,
        i <= ord.len(),
        forall|k: int| 0 <= k < ord.len() ==> #[trigger] ord[k] < n,
        in_edges(edges, n, v).len() == 0,
    ensures
        rank_fold(edges, n, ord, i)[v] == 0,
    decreases i,
{
    if i > 0 {
        lemma_source_rank(edges, n, ord, (i - 1) as nat, v);
        lemma_rank_fold(edges, n, ord, (i - 1) as nat);
        if ord[i - 1] == v {
            lemma_no_in_edges_prefix(edges, n, v, edges.len() as int);
            let r = rank_fold(edges, n, ord, (i - 1) as nat);
            lemma_best_rank_source(edges, n, ord.take(i - 1), r, v as usize, edges.len() as int);
        }
    }
}

/// Nodes without incoming edges get rank 0: they form the first layer.
pub proof fn sources_take_rank_zero(edges: Seq<(usize, usize, usize)>, n: nat, v: int)
    requires
        0 <= v < n <= usize::MAX,
        in_edges(edges, n, v).len() == 0,
    ensures
        layer_ranks(edges, n)[v] == Some(0int),
{
    lemma_place_order(edges, n, n);
    let ord = node_order(edges, n);
    lemma_source_rank(edges, n, ord, ord.len(), v);
}

proof fn lemma_best_rank_covers(
    edges: Seq<(usize, usize, usize)>,
    n: nat,
    done: Seq<usize>,
    ranks: Seq<int>,
    v: usize,
    j: int,
    k: int,
)
    requires
        0 <= k < j <= edges.len(),
        edges[k].1 == v,
        edges[k].0 < n,
        done.contains(edges[k].0),
    ensures
        best_rank(edges, n, done, ranks, v, j) >= ranks[edges[k].0 as int] + step_len(edges[k].2),
    decreases j,
{
    if j - 1 > k {
        lemma_best_rank_covers(edges, n, done, ranks, v, j - 1, k);
    }
}

/// An edge from a node placed before its target descends by at least its
/// length: the target's rank is at least the source's rank plus the edge's
/// minimum length (1 when it asks for 0). On an acyclic graph every edge is
/// of this kind.
pub proof fn placed_edges_descend(edges: Seq<(usize, usize, usize)>, n: nat, k: int, i: int, j: int)
    requires
        n <= usize::MAX,
        0 <= k < edges.len(),
        0 <= i < j < node_order(edges, n).len(),
        node_order(edges, n)[i] == edges[k].0,
        node_order(edges, n)[j] == edges[k].1,
    ensures
        layer_ranks(edges, n)[edges[k].1 as int]->0 >= layer_ranks(edges, n)[edges[k].0 as int]->0
            + step_len(edges[k].2),
{
    lemma_place_order(edges, n, n);
    let ord = node_order(edges, n);
    let (u, v) = (edges[k].0, edges[k].1);
    lemma_rank_stays(edges, n, ord, i as nat, j as nat);
    lemma_rank_stays(edges, n, ord, i as nat, ord.len());
    lemma_rank_stays(edges, n, ord, j as nat, ord.len());
    let r = rank_fold(edges, n, ord, j as nat);
    lemma_rank_fold(edges, n, ord, j as nat);
    if i + 1 < j {
        lemma_rank_stays(edges, n, ord, i as nat, j as nat);
    } else {
        assert(r == rank_fold(edges, n, ord, (i + 1) as nat));
    }
    assert(ord.take(j)[i] == u);
    assert(ord.take(j).contains(u));
    lemma_best_rank_covers(edges, n, ord.take(j), r, v, edges.len() as int, k);
}

/// Index of the node named `name` (its last occurrence).
pub open spec fn name_index(nodes: Seq<String>, name: Seq<char>) -> Option<int>
    decreases nodes.len(),
{
    if nodes.len() == 0 {
        None
    } else if nodes.last()@ == name {
        Some(nodes.len() - 1)
    } else {
        name_index(nodes.drop_last(), name)
    }
}

/// The edges between named nodes, by node index; edges naming an unknown
/// node are left out.
pub open spec fn resolve_edges(nodes: Seq<String>, edges: Seq<(String, String, usize)>) -> Seq<(usize, usize, usize)>
    decreases edges.len(),
{
    if edges.len() == 0 {
        Seq::empty()
    } else {
        let rest = resolve_edges(nodes, edges.drop_last());
        let e = edges.last();
        match (name_index(nodes, e.0@), name_index(nodes, e.1@)) {
            (Some(a), Some(b)) => rest.push((a as usize, b as usize, e.2)),
            _ => rest,
        }
    }
}

proof fn lemma_name_index_bound(nodes: Seq<String>, name: Seq<char>)
    ensures
        name_index(nodes, name) matches Some(k) ==> 0 <= k < nodes.len(),
    decreases nodes.len(),
{
    if nodes.len() > 0 {
        lemma_name_index_bound(nodes.drop_last(), name);
    }
}

fn find_name(names: &Vec<Vec<char>>, name: &Vec<char>, Ghost(nodes): Ghost<Seq<String>>) -> (r: Option<usize>)
    requires
        names@.len() == nodes.len(),
        forall|k: int| 0 <= k < nodes.len() ==> (#[trigger] names@[k])@ == nodes[k]@,
    ensures
        match r {
            Some(k) => name_index(nodes, name@) == Some(k as int),
            None => name_index(nodes, name@) is None,
        },
{
    let mut j: usize = names.len();
    assert(nodes.subrange(0, j as int) == nodes);
    while j > 0
        invariant
            j <= nodes.len(),
            names@.len() == nodes.len(),
            forall|k: int| 0 <= k < nodes.len() ==> (#[trigger] names@[k])@ == nodes[k]@,
            name_index(nodes, name@) == name_index(nodes.subrange(0, j as int), name@),
        decreases j,
    {
        assert(nodes.subrange(0, j as int).drop_last() == nodes.subrange(0, j - 1));
        if eq_chars(names[j - 1].as_slice(), name.as_slice()) {
            return Some(j - 1);
        }
        j -= 1;
    }
    None
}

/// Layers of the diagram graph whose nodes are named by `nodes` and whose
/// edges `(from, to, min_len)` name their endpoints: each layer lists node
/// indices in their final order. Edges naming an unknown node are left out.
/// `None` when a rank would not fit in a `usize`.
pub fn layered_graph_order(nodes: &[String], edges: &[(String, String, usize)]) -> (r: Option<Vec<Vec<usize>>>)
    ensures
        ({
            let ie = resolve_edges(nodes@, edges@);
            let n = nodes@.len();
            match r {
                Some(ls) => ranks_fit(layer_ranks(ie, n)) && ls.deep_view() == layer_order(ie, n),
                None => !ranks_fit(layer_ranks(ie, n)),
            }
        }),
{
    let mut names: Vec<Vec<char>> = Vec::new();
    let mut k: usize = 0;
    while k < nodes.len()
        invariant
            k <= nodes@.len(),
            names@.len() == k,
            forall|q: int| 0 <= q < k ==> (#[trigger] names@[q])@ == nodes@[q]@,
        decreases nodes@.len() - k,
    {
        names.push(str_to_chars(nodes[k].as_str()));
        k += 1;
    }
    let mut ie: Vec<(usize, usize, usize)> = Vec::new();
    let mut i: usize = 0;
    while i < edges.len()
        invariant
            i <= edges@.len(),
            names@.len() == nodes@.len(),
            forall|q: int| 0 <= q < nodes@.len() ==> (#[trigger] names@[q])@ == nodes@[q]@,
            ie@ == resolve_edges(nodes@, edges@.subrange(0, i as int)),
        decreases edges@.len() - i,
    {
        assert(edges@.subrange(0, i + 1).drop_last() == edges@.subrange(0, i as int));
        let from = str_to_chars(edges[i].0.as_str());
        let to = str_to_chars(edges[i].1.as_str());
        let a = find_name(&names, &from, Ghost(nodes@));
        let b = find_name(&names, &to, Ghost(nodes@));
        match (a, b) {
            (Some(x), Some(y)) => {
                ie.push((x, y, edges[i].2));
            },
            _ => {},
        }
        i += 1;
    }
    assert(edges@.subrange(0, edges@.len() as int) == edges@);
    layered_order(nodes.len(), ie.as_slice())
}

} // verus!
