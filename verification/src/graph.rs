//! The dependency graph and its cycle detector.
//!
//! A graph is a list of nodes, one per unit identifier, each carrying the
//! identifiers it declares as dependencies (order preserved, duplicates
//! kept, targets unchecked).  `detect_cycle` runs a three-colour
//! depth-first search and either certifies the graph acyclic or returns
//! one concrete cycle, as a path that closes back on its first node.

use vstd::prelude::*;

verus! {

broadcast use {vstd::seq_lib::lemma_seq_contains_after_push, crate::text::lemma_string_vec_deep_view};

/// One node: a unit identifier and its declared dependencies.
pub struct GraphNode {
    pub id: String,
    pub deps: Vec<String>,
}

/// Directed dependency graph.  Well-formed graphs have pairwise distinct
/// node identifiers; dependency identifiers may dangle (name no node).
pub struct DependencyGraph {
    pub nodes: Vec<GraphNode>,
}

/// Outcome of cycle detection: either the graph is a DAG, or one cycle,
/// given as a node sequence that starts and ends at the repeated node.
pub enum CycleReport {
    NoCycle,
    Found(Vec<String>),
}

/// Pairwise distinct elements.
pub open spec fn distinct<T>(s: Seq<T>) -> bool {
    forall|i: int, j: int| 0 <= i < j < s.len() ==> s[i] != s[j]
}

impl DependencyGraph {
    /// Well-formed: node identifiers are pairwise distinct.
    pub open spec fn wf(&self) -> bool {
        forall|i: int, j: int|
            0 <= i < j < self.nodes@.len() ==> self.nodes@[i].id@ != self.nodes@[j].id@
    }

    /// The dependency identifiers of the node at position `i`.
    pub open spec fn deps_at(&self, i: int) -> Seq<Seq<char>> {
        self.nodes@[i].deps.deep_view()
    }

    pub open spec fn has_node(&self, id: Seq<char>) -> bool {
        exists|i: int| 0 <= i < self.nodes@.len() && self.nodes@[i].id@ == id
    }

    /// Edge from `a` to `b`: some node named `a` declares `b` as a dependency.
    pub open spec fn edge(&self, a: Seq<char>, b: Seq<char>) -> bool {
        exists|i: int|
            0 <= i < self.nodes@.len() && self.nodes@[i].id@ == a && self.deps_at(i).contains(b)
    }

    /// `c` is a cycle: it closes on its first element and every
    /// consecutive pair is an edge of the graph.
    pub open spec fn is_cycle(&self, c: Seq<Seq<char>>) -> bool {
        &&& c.len() >= 2
        &&& c[0] == c[c.len() - 1]
        &&& forall|k: int| 0 <= k < c.len() - 1 ==> #[trigger] self.edge(c[k], c[k + 1])
    }

    pub open spec fn acyclic(&self) -> bool {
        forall|c: Seq<Seq<char>>| !self.is_cycle(c)
    }

    /// Every element of a cycle names a real node of the graph: an edge
    /// can only leave a node, and the closing element repeats the first.
    /// In particular a dangling dependency edge can never appear in a
    /// reported cycle.
    pub proof fn lemma_cycle_has_only_nodes(&self, c: Seq<Seq<char>>)
        requires
            self.is_cycle(c),
        ensures
            forall|k: int| 0 <= k < c.len() ==> self.has_node(c[k]),
    {
        assert forall|k: int| 0 <= k < c.len() implies self.has_node(c[k]) by {
            if k < c.len() - 1 {
                assert(self.edge(c[k], c[k + 1]));
            } else {
                assert(self.edge(c[0int], c[0int + 1]));
                assert(c[k] == c[0]);
            }
        }
    }

    /// The node identifiers at the positions of `c`.
    pub open spec fn ids_of(&self, c: Seq<usize>) -> Seq<Seq<char>> {
        c.map_values(|x: usize| self.nodes@[x as int].id@)
    }

    /// In a graph with a single node, the only cycle without interior
    /// repetition is that node's self-loop closed once.
    pub proof fn lemma_single_self_loop(&self, c: Seq<Seq<char>>)
        requires
            self.wf(),
            self.nodes@.len() == 1,
            self.is_cycle(c),
            distinct(c.take(c.len() - 1)),
        ensures
            c == seq![self.nodes@[0].id@, self.nodes@[0].id@],
    {
        self.lemma_cycle_has_only_nodes(c);
        assert forall|k: int| 0 <= k < c.len() implies c[k] == self.nodes@[0].id@ by {
            assert(self.has_node(c[k]));
            let t = choose|t: int| 0 <= t < self.nodes@.len() && self.nodes@[t].id@ == c[k];
            assert(t == 0);
        }
        if c.len() > 2 {
            assert(c.take(c.len() - 1)[0] != c.take(c.len() - 1)[1]);
            assert(c[0] == self.nodes@[0].id@);
            assert(c[1] == self.nodes@[0].id@);
        }
        assert(c =~= seq![self.nodes@[0].id@, self.nodes@[0].id@]);
    }

    /// Position of the node named `id`, if any.
    fn find_node(&self, id: &String) -> (r: Option<usize>)
        ensures
            match r {
                Some(i) => i < self.nodes@.len() && self.nodes@[i as int].id@ == id@,
                None => !self.has_node(id@),
            },
    {
        let mut i: usize = 0;
        while i < self.nodes.len()
            invariant
                i <= self.nodes@.len(),
                forall|j: int| 0 <= j < i ==> self.nodes@[j].id@ != id@,
            decreases self.nodes@.len() - i,
        {
            if self.nodes[i].id == *id {
                return Some(i);
            }
            i = i + 1;
        }
        None
    }
}

impl DependencyGraph {
    /// Three-colour depth-first search for a cycle.  Either the graph is
    /// certified acyclic, or one concrete cycle is returned: a node
    /// sequence that closes on its first element, in which every
    /// consecutive pair is an edge and no interior node repeats.
    pub fn detect_cycle(&self) -> (r: CycleReport)
        requires
            self.wf(),
        ensures
            match r {
                CycleReport::NoCycle => self.acyclic(),
                CycleReport::Found(c) => {
                    &&& self.is_cycle(c.deep_view())
                    &&& distinct(c.deep_view().take(c.deep_view().len() - 1))
                },
            },
            self.acyclic() <==> (r is NoCycle),
    {
        let n = self.nodes.len();
        // resolve each declared dependency to a node position; dangling
        // dependencies resolve to nothing and are dropped, since no cycle
        // can pass through a missing node
        let mut adj: Vec<Vec<usize>> = Vec::new();
        let mut i: usize = 0;
        while i < n
            invariant
                n == self.nodes@.len(),
                self.wf(),
                i <= n,
                adj_view(adj).len() == i,
                forall|a: int, k: int|
                    0 <= a < i && 0 <= k < adj_view(adj)[a].len() ==> (#[trigger] adj_view(
                        adj,
                    )[a][k]) < n,
                forall|a: int, k: int|
                    0 <= a < i && 0 <= k < adj_view(adj)[a].len() ==> self.deps_at(a).contains(
                        self.nodes@[(#[trigger] adj_view(adj)[a][k]) as int].id@,
                    ),
                forall|a: int, j: int|
                    0 <= a < i && 0 <= j < n && #[trigger] self.deps_at(a).contains(
                        self.nodes@[j].id@,
                    ) ==> adj_edge(adj_view(adj), a, j),
            decreases n - i,
        {
            let mut row: Vec<usize> = Vec::new();
            let deps_len = self.nodes[i].deps.len();
            let mut k: usize = 0;
            while k < deps_len
                invariant
                    n == self.nodes@.len(),
                    self.wf(),
                    i < n,
                    deps_len == self.nodes@[i as int].deps@.len(),
                    k <= deps_len,
                    forall|x: int| 0 <= x < row@.len() ==> (#[trigger] row@[x]) < n,
                    forall|x: int|
                        0 <= x < row@.len() ==> self.deps_at(i as int).contains(
                            self.nodes@[(#[trigger] row@[x]) as int].id@,
                        ),
                    forall|j: int, dk: int|
                        #![trigger self.deps_at(i as int)[dk], self.nodes@[j].id@]
                        0 <= j < n && 0 <= dk < k && self.deps_at(i as int)[dk]
                            == self.nodes@[j].id@ ==> row@.contains(j as usize),
                decreases deps_len - k,
            {
                let ghost row_before = row@;
                let r = self.find_node(&self.nodes[i].deps[k]);
                proof {
                    assert(self.deps_at(i as int)[k as int] == self.nodes@[i as int].deps@[k as int]@);
                }
                match r {
                    Some(j) => {
                        row.push(j);
                        assert forall|j2: int, dk: int|
                            #![trigger self.deps_at(i as int)[dk], self.nodes@[j2].id@]
                            0 <= j2 < n && 0 <= dk < k + 1 && self.deps_at(i as int)[dk]
                                == self.nodes@[j2].id@ implies row@.contains(j2 as usize) by {
                            if dk < k {
                                assert(row_before.contains(j2 as usize));
                                let x = choose|x: int|
                                    0 <= x < row_before.len() && row_before[x] == (j2 as usize);
                                assert(row@[x] == j2 as usize);
                            } else {
                                assert(self.nodes@[j2].id@ == self.nodes@[j as int].id@);
                                assert(j2 == j as int);
                                assert(row@[row@.len() - 1] == j2 as usize);
                            }
                        }
                    },
                    None => {
                        assert forall|j2: int, dk: int|
                            #![trigger self.deps_at(i as int)[dk], self.nodes@[j2].id@]
                            0 <= j2 < n && 0 <= dk < k + 1 && self.deps_at(i as int)[dk]
                                == self.nodes@[j2].id@ implies row@.contains(j2 as usize) by {
                            if dk == k {
                                assert(self.has_node(self.nodes@[j2].id@));
                            }
                        }
                    },
                }
                k = k + 1;
            }
            let ghost adjv_before = adj_view(adj);
            adj.push(row);
            proof {
                assert(adj_view(adj).len() == i + 1);
                assert(adj_view(adj)[i as int] == row@);
                assert(forall|a: int| 0 <= a < i ==> #[trigger] adj_view(adj)[a] == adjv_before[a]);
                assert forall|a: int, k2: int|
                    0 <= a < i + 1 && 0 <= k2 < adj_view(adj)[a].len() implies (#[trigger] adj_view(
                    adj,
                )[a][k2]) < n by {
                    if a < i {
                        assert(adj_view(adj)[a] == adjv_before[a]);
                        assert(adjv_before[a][k2] < n);
                    } else {
                        assert(adj_view(adj)[a] == row@);
                        assert(row@[k2] < n);
                    }
                }
                assert forall|a: int, k2: int|
                    0 <= a < i + 1 && 0 <= k2 < adj_view(adj)[a].len() implies self.deps_at(
                    a,
                ).contains(self.nodes@[(#[trigger] adj_view(adj)[a][k2]) as int].id@) by {
                    if a < i {
                        assert(adj_view(adj)[a] == adjv_before[a]);
                        assert(self.deps_at(a).contains(
                            self.nodes@[adjv_before[a][k2] as int].id@,
                        ));
                    } else {
                        assert(adj_view(adj)[a] == row@);
                        assert(self.deps_at(a).contains(self.nodes@[row@[k2] as int].id@));
                    }
                }
                assert forall|a: int, j: int|
                    0 <= a < i + 1 && 0 <= j < n && #[trigger] self.deps_at(a).contains(
                        self.nodes@[j].id@,
                    ) implies adj_edge(adj_view(adj), a, j) by {
                    if a < i {
                        assert(adj_edge(adjv_before, a, j));
                        let k2 = choose|k2: int|
                            0 <= k2 < adjv_before[a].len() && (adjv_before[a][k2]) as int == j;
                        assert((adj_view(adj)[a][k2]) as int == j);
                    } else {
                        let dk = choose|dk: int|
                            0 <= dk < self.deps_at(a).len() && self.deps_at(a)[dk]
                                == self.nodes@[j].id@;
                        assert(row@.contains(j as usize));
                        let x = choose|x: int| 0 <= x < row@.len() && row@[x] == j as usize;
                        assert((adj_view(adj)[a][x]) as int == j);
                    }
                }
            }
            i = i + 1;
        }
        proof {
            assert(adj_matches(*self, adj_view(adj)));
        }
        // three-colour search from every node
        let mut colors: Vec<u8> = Vec::new();
        let mut w: usize = 0;
        while w < n
            invariant
                colors@.len() == w,
                w <= n,
                forall|v: int| 0 <= v < w ==> (#[trigger] colors@[v]) == 0u8,
            decreases n - w,
        {
            colors.push(0u8);
            w = w + 1;
        }
        let mut path: Vec<usize> = Vec::new();
        let mut fin: Vec<usize> = Vec::new();
        let mut start: usize = 0;
        proof {
            assert(dfs_inv(adj_view(adj), colors@, path@, fin@));
        }
        while start < n
            invariant
                n == self.nodes@.len(),
                self.wf(),
                adj_matches(*self, adj_view(adj)),
                dfs_inv(adj_view(adj), colors@, path@, fin@),
                colors@.len() == n,
                path@.len() == 0,
                start <= n,
                forall|v: int| 0 <= v < start ==> (#[trigger] colors@[v]) != 0u8,
            decreases n - start,
        {
            if colors[start] == 0u8 {
                proof {
                    lemma_count_white_le(colors@);
                }
                let r = visit(&adj, &mut colors, &mut path, &mut fin, start, n);
                match r {
                    Some(cyc) => {
                        proof {
                            assert forall|x: int| 0 <= x < cyc@.len() implies (#[trigger] cyc@[x])
                                < n by {
                                if x < cyc@.len() - 1 {
                                    assert(adj_edge(adj_view(adj), cyc@[x] as int, cyc@[x
                                        + 1] as int));
                                } else {
                                    assert(adj_edge(adj_view(adj), cyc@[0] as int, cyc@[0int
                                        + 1] as int));
                                    assert(cyc@[x] == cyc@[0]);
                                }
                            }
                        }
                        let mut out: Vec<String> = Vec::new();
                        let mut q: usize = 0;
                        while q < cyc.len()
                            invariant
                                n == self.nodes@.len(),
                                self.wf(),
                                q <= cyc@.len(),
                                is_index_cycle(adj_view(adj), cyc@),
                                adj_matches(*self, adj_view(adj)),
                                forall|x: int| 0 <= x < cyc@.len() ==> (#[trigger] cyc@[x]) < n,
                                out.deep_view() == self.ids_of(cyc@).take(q as int),
                            decreases cyc@.len() - q,
                        {
                            let id = self.nodes[cyc[q]].id.clone();
                            let ghost out_before = out@;
                            let ghost deep_before = out.deep_view();
                            out.push(id);
                            proof {
                                assert(id@ == self.nodes@[cyc@[q as int] as int].id@);
                                assert forall|x: int|
                                    0 <= x < out.deep_view().len() implies #[trigger] out.deep_view()[x]
                                    == self.ids_of(cyc@).take(q + 1)[x] by {
                                    if x < q {
                                        assert(out@[x] == out_before[x]);
                                        assert(out.deep_view()[x] == deep_before[x]);
                                        assert(deep_before[x] == self.ids_of(cyc@).take(
                                            q as int,
                                        )[x]);
                                    } else {
                                        assert(out@[x] == id);
                                    }
                                }
                                assert(out.deep_view() =~= self.ids_of(cyc@).take(q + 1));
                            }
                            q = q + 1;
                        }
                        proof {
                            lemma_index_to_cycle(*self, adj_view(adj), cyc@);
                            assert(out.deep_view() =~= self.ids_of(cyc@));
                        }
                        return CycleReport::Found(out);
                    },
                    None => {},
                }
            }
            start = start + 1;
        }
        // every node is finished, so `fin` is a complete topological
        // order and no cycle can exist
        proof {
            assert forall|v: usize| (v as int) < n implies fin@.contains(v) by {
                assert(colors@[v as int] != 0u8);
                assert(colors@[v as int] != 1u8) by {
                    if colors@[v as int] == 1u8 {
                        assert(path@.contains(v));
                    }
                }
                assert(colors@[v as int] == 2u8);
            }
            assert forall|c: Seq<Seq<char>>| !self.is_cycle(c) by {
                if self.is_cycle(c) {
                    lemma_cycle_to_index(*self, adj_view(adj), c);
                    lemma_topo_acyclic(adj_view(adj), fin@, index_seq(*self, c));
                }
            }
        }
        CycleReport::NoCycle
    }
}

// ----- index-level form of the graph, used by the depth-first search -----

/// Adjacency lists over node positions; every entry is a valid position.
spec fn adj_wf(adj: Seq<Seq<usize>>) -> bool {
    forall|i: int, k: int|
        0 <= i < adj.len() && 0 <= k < adj[i].len() ==> (#[trigger] adj[i][k]) < adj.len()
}

/// Edge between node positions.
spec fn adj_edge(adj: Seq<Seq<usize>>, u: int, v: int) -> bool {
    &&& 0 <= u < adj.len()
    &&& exists|k: int| 0 <= k < adj[u].len() && (#[trigger] adj[u][k]) as int == v
}

/// A cycle over node positions.
spec fn is_index_cycle(adj: Seq<Seq<usize>>, c: Seq<usize>) -> bool {
    &&& c.len() >= 2
    &&& c[0] == c[c.len() - 1]
    &&& forall|k: int|
        0 <= k < c.len() - 1 ==> #[trigger] adj_edge(adj, c[k] as int, c[k + 1] as int)
}

/// How many nodes are still unvisited (colour 0).
spec fn count_white(s: Seq<u8>) -> nat
    decreases s.len(),
{
    if s.len() == 0 {
        0
    } else {
        count_white(s.drop_last()) + (if s.last() == 0u8 {
            1nat
        } else {
            0nat
        })
    }
}

proof fn lemma_count_white_le(s: Seq<u8>)
    ensures
        count_white(s) <= s.len(),
    decreases s.len(),
{
    if s.len() > 0 {
        lemma_count_white_le(s.drop_last());
    }
}

proof fn lemma_count_white_update(s: Seq<u8>, i: int, v: u8)
    requires
        0 <= i < s.len(),
        s[i] == 0u8,
        v != 0u8,
    ensures
        count_white(s.update(i, v)) + 1 == count_white(s),
    decreases s.len(),
{
    let t = s.update(i, v);
    if i == s.len() - 1 {
        assert(t.drop_last() =~= s.drop_last());
    } else {
        assert(t.drop_last() =~= s.drop_last().update(i, v));
        lemma_count_white_update(s.drop_last(), i, v);
        assert(t.last() == s.last());
    }
}

proof fn lemma_count_white_update_dark(s: Seq<u8>, i: int, v: u8)
    requires
        0 <= i < s.len(),
        s[i] != 0u8,
        v != 0u8,
    ensures
        count_white(s.update(i, v)) == count_white(s),
    decreases s.len(),
{
    let t = s.update(i, v);
    if i == s.len() - 1 {
        assert(t.drop_last() =~= s.drop_last());
    } else {
        assert(t.drop_last() =~= s.drop_last().update(i, v));
        lemma_count_white_update_dark(s.drop_last(), i, v);
        assert(t.last() == s.last());
    }
}

proof fn lemma_count_white_pos(s: Seq<u8>, i: int)
    requires
        0 <= i < s.len(),
        s[i] == 0u8,
    ensures
        count_white(s) >= 1,
    decreases s.len(),
{
    if i < s.len() - 1 {
        lemma_count_white_pos(s.drop_last(), i);
    }
}

/// `w` occurs in `fin` strictly before position `t`.
spec fn occurs_before(fin: Seq<usize>, t: int, w: usize) -> bool {
    exists|s: int| 0 <= s < t && fin[s] == w
}

/// Every dependency of a finished node finished strictly earlier: `fin`
/// lists the nodes in an order that is topological for the reversed edges.
spec fn topo_sorted(adj: Seq<Seq<usize>>, fin: Seq<usize>) -> bool {
    forall|t: int, k: int|
        0 <= t < fin.len() && 0 <= k < adj[fin[t] as int].len() ==> occurs_before(
            fin,
            t,
            #[trigger] adj[fin[t] as int][k],
        )
}

/// The state invariant of the three-colour search.  Colour 1 marks
/// exactly the nodes on the current path, colour 2 exactly the finished
/// nodes; the path is a chain of edges; finished nodes are topologically
/// sorted.
spec fn dfs_inv(adj: Seq<Seq<usize>>, colors: Seq<u8>, path: Seq<usize>, fin: Seq<usize>) -> bool {
    &&& adj_wf(adj)
    &&& colors.len() == adj.len()
    &&& forall|v: usize| (v as int) < colors.len() ==> (#[trigger] colors[v as int]) <= 2
    &&& forall|v: usize|
        (v as int) < colors.len() ==> ((#[trigger] colors[v as int]) == 1 <==> path.contains(v))
    &&& forall|v: usize|
        (v as int) < colors.len() ==> ((#[trigger] colors[v as int]) == 2 <==> fin.contains(v))
    &&& forall|t: int| 0 <= t < path.len() ==> (#[trigger] path[t]) < colors.len()
    &&& forall|t: int| 0 <= t < fin.len() ==> (#[trigger] fin[t]) < colors.len()
    &&& distinct(path)
    &&& distinct(fin)
    &&& forall|t: int|
        0 <= t < path.len() - 1 ==> #[trigger] adj_edge(adj, path[t] as int, path[t + 1] as int)
    &&& topo_sorted(adj, fin)
}

/// The adjacency lists as a sequence of sequences.
spec fn adj_view(adj: Vec<Vec<usize>>) -> Seq<Seq<usize>> {
    adj@.map_values(|row: Vec<usize>| row@)
}

/// Recursive step of the search: explore the unvisited node `u`.  On
/// `None`, `u` and everything reachable from it is finished and no cycle
/// was seen; on `Some(c)`, `c` is a cycle of the index graph whose
/// elements, except the closing repetition, are pairwise distinct.
fn visit(
    adj: &Vec<Vec<usize>>,
    colors: &mut Vec<u8>,
    path: &mut Vec<usize>,
    fin: &mut Vec<usize>,
    u: usize,
    fuel: usize,
) -> (res: Option<Vec<usize>>)
    requires
        dfs_inv(adj_view(*adj), old(colors)@, old(path)@, old(fin)@),
        (u as int) < old(colors)@.len(),
        old(colors)@[u as int] == 0u8,
        old(path)@.len() > 0 ==> adj_edge(
            adj_view(*adj),
            old(path)@.last() as int,
            u as int,
        ),
        count_white(old(colors)@) <= fuel,
    ensures
        match res {
            Option::None => {
                &&& dfs_inv(adj_view(*adj), final(colors)@, final(path)@, final(fin)@)
                &&& final(path)@ == old(path)@
                &&& final(colors)@.len() == old(colors)@.len()
                &&& final(colors)@[u as int] == 2u8
                &&& forall|v: usize|
                    (v as int) < final(colors)@.len() && old(colors)@[v as int] != 0u8
                        ==> (#[trigger] final(colors)@[v as int]) == old(colors)@[v as int]
                &&& count_white(final(colors)@) < count_white(old(colors)@)
            },
            Option::Some(c) => {
                &&& is_index_cycle(adj_view(*adj), c@)
                &&& distinct(c@.take(c@.len() - 1))
            },
        },
    decreases fuel,
{
    proof {
        lemma_count_white_pos(colors@, u as int);
        lemma_count_white_update(colors@, u as int, 1u8);
    }
    colors[u] = 1u8;
    path.push(u);
    proof {
        let av = adj_view(*adj);
        assert(!old(path)@.contains(u));
        assert(path@ =~= old(path)@.push(u));
        assert forall|t: int|
            0 <= t < path@.len() - 1 implies #[trigger] adj_edge(
            av,
            path@[t] as int,
            path@[t + 1] as int,
        ) by {
            if t < old(path)@.len() - 1 {
                assert(path@[t] == old(path)@[t]);
                assert(path@[t + 1] == old(path)@[t + 1]);
                assert(adj_edge(av, old(path)@[t] as int, old(path)@[t + 1] as int));
            } else {
                assert(path@[t] == old(path)@.last());
                assert(path@[t + 1] == u);
            }
        }
        assert(forall|v: usize|
            (v as int) < colors@.len() ==> ((#[trigger] colors@[v as int]) == 1
                <==> path@.contains(v)));
        assert(forall|v: usize|
            (v as int) < colors@.len() ==> ((#[trigger] colors@[v as int]) == 2 <==> fin@.contains(
                v,
            )));
        assert(distinct(path@));
        assert(dfs_inv(av, colors@, path@, fin@));
    }
    let mut k: usize = 0;
    while k < adj[u].len()
        invariant
            dfs_inv(adj_view(*adj), colors@, path@, fin@),
            (u as int) < colors@.len(),
            colors@.len() == old(colors)@.len(),
            colors@[u as int] == 1u8,
            path@ == old(path)@.push(u),
            k <= adj_view(*adj)[u as int].len(),
            forall|j: int|
                0 <= j < k ==> colors@[(#[trigger] adj_view(*adj)[u as int][j]) as int] == 2u8,
            forall|v: usize|
                (v as int) < colors@.len() && old(colors)@[v as int] != 0u8
                    ==> (#[trigger] colors@[v as int]) == old(colors)@[v as int],
            count_white(colors@) < count_white(old(colors)@),
            count_white(old(colors)@) <= fuel,
        decreases adj_view(*adj)[u as int].len() - k,
    {
        let v = adj[u][k];
        assert((v as int) < colors@.len());
        let cv = colors[v];
        if cv == 1u8 {
            // `v` lies on the current path: the path from its position,
            // closed with `v` itself, is a cycle.
            assert(path@.contains(v as usize));
            let mut t: usize = 0;
            while t < path.len() && path[t] != v
                invariant
                    t <= path@.len(),
                    path@.contains(v as usize),
                    forall|j: int| 0 <= j < t ==> path@[j] != v,
                decreases path@.len() - t,
            {
                t = t + 1;
            }
            assert(t < path@.len() && path@[t as int] == v) by {
                let w = choose|j: int| 0 <= j < path@.len() && path@[j] == v;
                assert(path@[w] == v);
            }
            let mut cyc: Vec<usize> = Vec::new();
            let mut s: usize = t;
            while s < path.len()
                invariant
                    t <= s <= path@.len(),
                    t < path@.len(),
                    cyc@ =~= path@.subrange(t as int, s as int),
                decreases path@.len() - s,
            {
                let x = path[s];
                cyc.push(x);
                s = s + 1;
            }
            cyc.push(v);
            proof {
                let pv = path@;
                let c = cyc@;
                assert(c =~= pv.subrange(t as int, pv.len() as int).push(v));
                assert(c[0] == pv[t as int]);
                assert(c[c.len() - 1] == v);
                assert(pv.last() == u);
                assert(adj_edge(adj_view(*adj), u as int, v as int)) by {
                    assert(adj_view(*adj)[u as int][k as int] == v);
                }
                assert forall|k2: int| 0 <= k2 < c.len() - 1 implies #[trigger] adj_edge(
                    adj_view(*adj),
                    c[k2] as int,
                    c[k2 + 1] as int,
                ) by {
                    if k2 < c.len() - 2 {
                        assert(c[k2] == pv[t + k2]);
                        assert(c[k2 + 1] == pv[t + k2 + 1]);
                        assert(adj_edge(adj_view(*adj), pv[t + k2] as int, pv[t + k2 + 1] as int));
                    } else {
                        assert(c[k2] == pv[pv.len() - 1]);
                    }
                }
                assert(is_index_cycle(adj_view(*adj), c));
                assert(c.take(c.len() - 1) =~= pv.subrange(t as int, pv.len() as int));
                assert(distinct(c.take(c.len() - 1)));
            }
            return Some(cyc);
        } else if cv == 0u8 {
            proof {
                lemma_count_white_pos(colors@, v as int);
            }
            let ghost colors_at_call = colors@;
            let r = visit(adj, colors, path, fin, v, fuel - 1);
            if r.is_some() {
                return r;
            }
            assert(colors@[v as int] == 2u8);
            assert forall|vv: usize|
                (vv as int) < colors@.len() && old(colors)@[vv as int] != 0u8 implies (
            #[trigger] colors@[vv as int]) == old(colors)@[vv as int] by {
                assert(colors_at_call[vv as int] == old(colors)@[vv as int]);
            }
        }
        k = k + 1;
        assert forall|j: int|
            0 <= j < k implies colors@[(#[trigger] adj_view(*adj)[u as int][j]) as int] == 2u8 by {
            if j < k - 1 {
                assert(colors@[adj_view(*adj)[u as int][j] as int] == 2u8);
            }
        }
    }
    // every dependency of `u` is finished and no cycle was seen: finish `u`
    let _ = path.pop();
    proof {
        assert(path@ =~= old(path)@);
        lemma_count_white_update_dark(colors@, u as int, 2u8);
    }
    colors[u] = 2u8;
    let ghost fin_before = fin@;
    fin.push(u);
    proof {
        let av = adj_view(*adj);
        let cv2 = colors@;
        // u left the path; it was its last element and the path is distinct
        assert(!old(path)@.contains(u)) by {
            if old(path)@.contains(u) {
                let j = choose|j: int| 0 <= j < old(path)@.len() && old(path)@[j] == u;
                assert(old(path)@.push(u)[j] == u);
                assert(old(path)@.push(u)[old(path)@.len() as int] == u);
                assert(!distinct(old(path)@.push(u)));
            }
        }
        assert(!fin_before.contains(u));
        assert forall|v: usize|
            (v as int) < cv2.len() implies ((#[trigger] cv2[v as int]) == 2 <==> fin@.contains(
            v,
        )) by {
            if cv2[v as int] == 2 {
                if v == u {
                    assert(fin@[fin@.len() - 1] == u);
                    assert(fin@.contains(v));
                } else {
                    assert(fin_before.contains(v));
                }
            } else {
                if fin@.contains(v) {
                    assert(v != u);
                    assert(fin_before.contains(v));
                }
            }
        }
        assert forall|v: usize|
            (v as int) < cv2.len() implies ((#[trigger] cv2[v as int]) == 1 <==> path@.contains(
            v,
        )) by {
            if cv2[v as int] == 1 {
                assert(v != u);
                assert(old(path)@.push(u).contains(v));
                let j = choose|j: int|
                    0 <= j < old(path)@.push(u).len() && old(path)@.push(u)[j] == v;
                assert(j < old(path)@.len());
                assert(path@[j] == v);
            } else {
                if path@.contains(v) {
                    let j = choose|j: int| 0 <= j < path@.len() && path@[j] == v;
                    assert(old(path)@.push(u)[j] == v);
                }
            }
        }
        // the new finished entry is topologically placed: all its
        // dependencies are already in `fin`
        assert forall|t2: int, k2: int|
            0 <= t2 < fin@.len() && 0 <= k2 < av[fin@[t2] as int].len() implies occurs_before(
            fin@,
            t2,
            #[trigger] av[fin@[t2] as int][k2],
        ) by {
            if t2 < fin@.len() - 1 {
                assert(fin_before[t2] == fin@[t2]);
                assert(topo_sorted(av, fin_before));
                assert(0 <= k2 < av[fin_before[t2] as int].len());
                assert(occurs_before(fin_before, t2, av[fin_before[t2] as int][k2]));
                let w = av[fin_before[t2] as int][k2];
                let s2 = choose|s2: int| 0 <= s2 < t2 && fin_before[s2] == w;
                assert(fin@[s2] == w);
                assert(occurs_before(fin@, t2, w));
            } else {
                assert(fin@[t2] == u);
                let w = av[u as int][k2];
                assert(cv2[w as int] == 2u8);
                assert(fin_before.contains(w));
                let s2 = choose|s2: int| 0 <= s2 < fin_before.len() && fin_before[s2] == w;
                assert(fin@[s2] == w);
                assert(occurs_before(fin@, t2, w));
            }
        }
        assert(dfs_inv(av, colors@, path@, fin@));
    }
    None
}

// ----- from a complete topological order to acyclicity -----

/// The position of `v` in `fin`.
spec fn pos_of(fin: Seq<usize>, v: usize) -> int {
    choose|t: int| 0 <= t < fin.len() && fin[t] == v
}

proof fn lemma_pos_of(fin: Seq<usize>, v: usize)
    requires
        fin.contains(v),
    ensures
        0 <= pos_of(fin, v) < fin.len(),
        fin[pos_of(fin, v)] == v,
{
    let j = choose|j: int| 0 <= j < fin.len() && fin[j] == v;
    assert(0 <= j < fin.len() && fin[j] == v);
}

proof fn lemma_pos_unique(fin: Seq<usize>, v: usize, t: int)
    requires
        distinct(fin),
        0 <= t < fin.len(),
        fin[t] == v,
    ensures
        pos_of(fin, v) == t,
{
    assert(fin.contains(v)) by {
        assert(fin[t] == v);
    }
    lemma_pos_of(fin, v);
}

/// Along an edge, the target finished strictly earlier than the source.
proof fn lemma_edge_rank(adj: Seq<Seq<usize>>, fin: Seq<usize>, u: usize, v: usize)
    requires
        adj_wf(adj),
        distinct(fin),
        topo_sorted(adj, fin),
        forall|w: usize| (w as int) < adj.len() ==> fin.contains(w),
        adj_edge(adj, u as int, v as int),
    ensures
        (v as int) < adj.len(),
        pos_of(fin, v) < pos_of(fin, u),
{
    let k = choose|k: int| 0 <= k < adj[u as int].len() && (adj[u as int][k]) as int == v as int;
    assert(adj[u as int][k] < adj.len());
    assert(fin.contains(u));
    lemma_pos_of(fin, u);
    let t = pos_of(fin, u);
    assert(adj[fin[t] as int][k] == v);
    assert(occurs_before(fin, t, v));
    let s = choose|s: int| 0 <= s < t && fin[s] == v;
    lemma_pos_unique(fin, v, s);
}

/// Ranks strictly descend along a cycle.
proof fn lemma_cycle_rank(adj: Seq<Seq<usize>>, fin: Seq<usize>, c: Seq<usize>, i: int)
    requires
        adj_wf(adj),
        distinct(fin),
        topo_sorted(adj, fin),
        forall|w: usize| (w as int) < adj.len() ==> fin.contains(w),
        is_index_cycle(adj, c),
        0 <= i < c.len(),
    ensures
        pos_of(fin, c[i]) <= pos_of(fin, c[0]) - i,
    decreases i,
{
    if i > 0 {
        lemma_cycle_rank(adj, fin, c, i - 1);
        assert(adj_edge(adj, c[i - 1] as int, c[i - 1 + 1] as int));
        lemma_edge_rank(adj, fin, c[i - 1], c[i]);
    }
}

/// A complete topological order rules out every cycle.
proof fn lemma_topo_acyclic(adj: Seq<Seq<usize>>, fin: Seq<usize>, c: Seq<usize>)
    requires
        adj_wf(adj),
        distinct(fin),
        topo_sorted(adj, fin),
        forall|w: usize| (w as int) < adj.len() ==> fin.contains(w),
    ensures
        !is_index_cycle(adj, c),
{
    if is_index_cycle(adj, c) {
        lemma_cycle_rank(adj, fin, c, c.len() - 1);
        assert(adj_edge(adj, c[0] as int, c[0int + 1] as int));
        assert(c[c.len() - 1] == c[0]);
    }
}

// ----- correspondence between the graph and its index form -----

/// `adjv` is a faithful index form of `g`: entries are positions of
/// nodes that the source node declares as dependencies, and every
/// declared dependency that names a node is present.
spec fn adj_matches(g: DependencyGraph, adjv: Seq<Seq<usize>>) -> bool {
    &&& adjv.len() == g.nodes@.len()
    &&& adj_wf(adjv)
    &&& forall|a: int, k: int|
        0 <= a < adjv.len() && 0 <= k < adjv[a].len() ==> g.deps_at(a).contains(
            g.nodes@[(#[trigger] adjv[a][k]) as int].id@,
        )
    &&& forall|a: int, j: int|
        0 <= a < adjv.len() && 0 <= j < adjv.len() && #[trigger] g.deps_at(a).contains(
            g.nodes@[j].id@,
        ) ==> adj_edge(adjv, a, j)
}

/// The position of the node named `id`.
spec fn node_pos(g: DependencyGraph, id: Seq<char>) -> int {
    choose|i: int| 0 <= i < g.nodes@.len() && g.nodes@[i].id@ == id
}

/// The index form of an identifier cycle.
spec fn index_seq(g: DependencyGraph, c: Seq<Seq<char>>) -> Seq<usize> {
    Seq::new(c.len(), |i: int| node_pos(g, c[i]) as usize)
}

/// An identifier cycle of a well-formed graph yields an index cycle.
proof fn lemma_cycle_to_index(g: DependencyGraph, adjv: Seq<Seq<usize>>, c: Seq<Seq<char>>)
    requires
        g.wf(),
        g.nodes@.len() <= usize::MAX,
        adj_matches(g, adjv),
        g.is_cycle(c),
    ensures
        is_index_cycle(adjv, index_seq(g, c)),
{
    let ci = index_seq(g, c);
    g.lemma_cycle_has_only_nodes(c);
    assert forall|i: int| 0 <= i < c.len() implies 0 <= node_pos(g, c[i]) < g.nodes@.len()
        && g.nodes@[node_pos(g, c[i])].id@ == c[i] by {
        assert(g.has_node(c[i]));
        let w = choose|w: int| 0 <= w < g.nodes@.len() && g.nodes@[w].id@ == c[i];
        assert(0 <= w < g.nodes@.len() && g.nodes@[w].id@ == c[i]);
    }
    assert(ci[0] == ci[ci.len() - 1]) by {
        assert(c[0] == c[c.len() - 1]);
    }
    assert forall|k: int| 0 <= k < ci.len() - 1 implies #[trigger] adj_edge(
        adjv,
        ci[k] as int,
        ci[k + 1] as int,
    ) by {
        assert(g.edge(c[k], c[k + 1]));
        let i = choose|i: int|
            0 <= i < g.nodes@.len() && g.nodes@[i].id@ == c[k] && g.deps_at(i).contains(c[k + 1]);
        assert(i == node_pos(g, c[k])) by {
            let p = node_pos(g, c[k]);
            if i != p {
                assert(g.nodes@[i].id@ == g.nodes@[p].id@);
            }
        }
        let j = node_pos(g, c[k + 1]);
        assert(g.deps_at(i).contains(g.nodes@[j].id@));
        assert(adj_edge(adjv, i, j));
        assert(ci[k] as int == i);
        assert(ci[k + 1] as int == j);
    }
}

/// An index cycle of a faithful index form yields an identifier cycle.
proof fn lemma_index_to_cycle(g: DependencyGraph, adjv: Seq<Seq<usize>>, c: Seq<usize>)
    requires
        g.wf(),
        adj_matches(g, adjv),
        is_index_cycle(adjv, c),
    ensures
        g.is_cycle(g.ids_of(c)),
        distinct(c.take(c.len() - 1)) ==> distinct(g.ids_of(c).take(c.len() - 1)),
{
    let ids = g.ids_of(c);
    assert forall|i: int| 0 <= i < c.len() implies (c[i] as int) < g.nodes@.len() by {
        if i < c.len() - 1 {
            assert(adj_edge(adjv, c[i] as int, c[i + 1] as int));
            let k = choose|k: int|
                0 <= k < adjv[c[i] as int].len() && (adjv[c[i] as int][k]) as int == c[i
                    + 1] as int;
        } else {
            assert(adj_edge(adjv, c[0] as int, c[0int + 1] as int));
            assert(c[i] == c[0]);
        }
    }
    assert(ids[0] == ids[ids.len() - 1]);
    assert forall|k: int| 0 <= k < ids.len() - 1 implies #[trigger] g.edge(ids[k], ids[k + 1]) by {
        assert(adj_edge(adjv, c[k] as int, c[k + 1] as int));
        let kk = choose|kk: int|
            0 <= kk < adjv[c[k] as int].len() && (adjv[c[k] as int][kk]) as int == c[k + 1] as int;
        assert(g.deps_at(c[k] as int).contains(g.nodes@[adjv[c[k] as int][kk] as int].id@));
        assert(g.nodes@[c[k] as int].id@ == ids[k]);
        assert(g.nodes@[c[k + 1] as int].id@ == ids[k + 1]);
    }
    if distinct(c.take(c.len() - 1)) {
        let idp = ids.take(c.len() - 1);
        assert forall|i: int, j: int| 0 <= i < j < idp.len() implies (#[trigger] idp[i])
            != (#[trigger] idp[j]) by {
            assert(c.take(c.len() - 1)[i] != c.take(c.len() - 1)[j]);
            assert(c[i] != c[j]);
            assert(idp[i] == g.nodes@[c[i] as int].id@);
            assert(idp[j] == g.nodes@[c[j] as int].id@);
        }
        assert(distinct(idp));
    }
}

} // verus!
