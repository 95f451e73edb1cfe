//! Unit registry management: cross-validating each unit's self-declared
//! metadata against the registry, and verifying that the declared
//! dependency relationships form a DAG.
//!
//! Loading the registry file and the per-unit declaration files is I/O
//! and happens outside the library; the functions here receive the
//! loaded data as plain values and are specified exactly: `validate`
//! returns precisely the error messages the checks call for, and
//! `graph_verify` either certifies the declared dependencies acyclic or
//! returns one concrete cycle.

use vstd::prelude::*;
use crate::graph::{distinct, CycleReport, DependencyGraph, GraphNode};

verus! {

broadcast use {vstd::seq_lib::lemma_seq_contains_after_push, crate::text::lemma_string_vec_deep_view};

/// A unit's own self-description, as declared in its declaration file.
pub struct UnitJson {
    pub unit_id: String,
    pub unit_type: String,
    pub version: String,
    pub status: String,
    pub description: String,
    pub owner: String,
    pub dependencies: Vec<String>,
    pub compatibility: Compatibility,
}

pub struct Compatibility {
    pub breaking_changes: String,
    pub backward_compatible: bool,
}

/// One registry record: where a unit lives and what the registry claims
/// about it.
pub struct RegistryEntry {
    pub path: String,
    pub domain: String,
    pub status: String,
    pub description: String,
}

/// The authoritative mapping from unit identifier to its registry entry,
/// kept as a list of key/entry pairs in registry order.
pub struct UnitRegistry {
    pub registry_version: String,
    pub description: String,
    pub units: Vec<(String, RegistryEntry)>,
    pub reserved: Vec<String>,
    pub deprecated: Vec<String>,
}

/// What loading one unit's declaration file produced: the file was
/// missing, it failed to parse (with the parser's message), or it
/// yielded a declaration.
pub enum DeclarationLoad {
    Missing,
    ParseFailed(String),
    Loaded(UnitJson),
}

impl UnitRegistry {
    /// Whether `id` is a registry key.
    pub open spec fn has_unit(&self, id: Seq<char>) -> bool {
        exists|i: int| 0 <= i < self.units@.len() && self.units@[i].0@ == id
    }

    /// Whether `id` is a registry key.
    pub fn contains_unit(&self, id: &String) -> (r: bool)
        ensures
            r == self.has_unit(id@),
    {
        let mut i: usize = 0;
        while i < self.units.len()
            invariant
                i <= self.units@.len(),
                forall|j: int| 0 <= j < i ==> self.units@[j].0@ != id@,
            decreases self.units@.len() - i,
        {
            if self.units[i].0 == *id {
                return true;
            }
            i = i + 1;
        }
        false
    }
}

/// The enumerated valid unit types.
pub open spec fn valid_unit_type(t: Seq<char>) -> bool {
    t == "standard"@ || t == "mini-standard"@
}

/// The enumerated valid unit statuses.
pub open spec fn valid_unit_status(s: Seq<char>) -> bool {
    s == "active"@ || s == "deprecated"@
}

// ----- the exact error messages of the validator -----

pub open spec fn msg_missing_decl(key: Seq<char>) -> Seq<char> {
    key + ": UNIT declaration missing"@
}

pub open spec fn msg_parse_failed(key: Seq<char>, cause: Seq<char>) -> Seq<char> {
    key + ": Failed to parse declaration: "@ + cause
}

pub open spec fn msg_id_mismatch(key: Seq<char>, declared: Seq<char>) -> Seq<char> {
    key + ": unit_id mismatch (registry: "@ + key + ", file: "@ + declared + ")"@
}

pub open spec fn msg_not_in_registry(id: Seq<char>) -> Seq<char> {
    id + ": unit_id not in registry"@
}

pub open spec fn msg_bad_type(key: Seq<char>, t: Seq<char>) -> Seq<char> {
    key + ": Invalid unit_type: "@ + t
}

pub open spec fn msg_bad_status(key: Seq<char>, s: Seq<char>) -> Seq<char> {
    key + ": Invalid status: "@ + s
}

pub open spec fn msg_missing_path(key: Seq<char>, path: Seq<char>) -> Seq<char> {
    key + ": Path does not exist: "@ + path
}

/// The messages one unit contributes, in check order: a missing or
/// unparseable declaration yields exactly its one message; a loaded
/// declaration yields one message per violated check, and none when all
/// checks pass.
pub open spec fn unit_messages(reg: UnitRegistry, key: String, load: DeclarationLoad) -> Seq<
    Seq<char>,
> {
    match load {
        DeclarationLoad::Missing => seq![msg_missing_decl(key@)],
        DeclarationLoad::ParseFailed(cause) => seq![msg_parse_failed(key@, cause@)],
        DeclarationLoad::Loaded(u) => (if u.unit_id@ != key@ {
            seq![msg_id_mismatch(key@, u.unit_id@)]
        } else {
            Seq::empty()
        }) + (if !reg.has_unit(u.unit_id@) {
            seq![msg_not_in_registry(u.unit_id@)]
        } else {
            Seq::empty()
        }) + (if !valid_unit_type(u.unit_type@) {
            seq![msg_bad_type(key@, u.unit_type@)]
        } else {
            Seq::empty()
        }) + (if !valid_unit_status(u.status@) {
            seq![msg_bad_status(key@, u.status@)]
        } else {
            Seq::empty()
        }),
    }
}

/// The messages of the per-unit pass from position `i` on.
pub open spec fn load_messages_from(
    reg: UnitRegistry,
    loads: Seq<(String, DeclarationLoad)>,
    i: int,
) -> Seq<Seq<char>>
    decreases loads.len() - i,
{
    if i < 0 || i >= loads.len() {
        Seq::empty()
    } else {
        unit_messages(reg, loads[i].0, loads[i].1) + load_messages_from(reg, loads, i + 1)
    }
}

/// The messages of the registry-path pass from position `i` on: one per
/// registry entry whose recorded path does not exist.
pub open spec fn path_messages_from(reg: UnitRegistry, path_exists: Seq<bool>, i: int) -> Seq<
    Seq<char>,
>
    decreases path_exists.len() - i,
{
    if i < 0 || i >= path_exists.len() {
        Seq::empty()
    } else {
        (if !path_exists[i] {
            seq![msg_missing_path(reg.units@[i].0@, reg.units@[i].1.path@)]
        } else {
            Seq::empty()
        }) + path_messages_from(reg, path_exists, i + 1)
    }
}

/// Everything the validator reports, in order: the per-unit pass over
/// `loads`, then the registry-path pass.
pub open spec fn validation_messages(
    reg: UnitRegistry,
    loads: Seq<(String, DeclarationLoad)>,
    path_exists: Seq<bool>,
) -> Seq<Seq<char>> {
    load_messages_from(reg, loads, 0) + path_messages_from(reg, path_exists, 0)
}

/// Cross-check every unit in scope against the registry and the
/// enumerated valid values, then check every registry entry's recorded
/// path.  `loads` pairs each unit in scope (its registry key, or for an
/// explicitly named unit its declared identifier) with what loading its
/// declaration produced; `path_exists` says, entry by entry in registry
/// order, whether the recorded path exists on disk.  The report is
/// exactly the list of violated-check messages; it is empty iff all
/// checks pass.
pub fn validate(
    registry: &UnitRegistry,
    loads: &Vec<(String, DeclarationLoad)>,
    path_exists: &Vec<bool>,
) -> (report: Vec<String>)
    requires
        path_exists@.len() == registry.units@.len(),
    ensures
        report.deep_view() == validation_messages(*registry, loads@, path_exists@),
{
    let mut report: Vec<String> = Vec::new();
    let mut i: usize = 0;
    while i < loads.len()
        invariant
            i <= loads@.len(),
            report.deep_view() + load_messages_from(*registry, loads@, i as int)
                =~= load_messages_from(*registry, loads@, 0),
        decreases loads@.len() - i,
    {
        let pair = &loads[i];
        let ghost d0 = report.deep_view();
        match &pair.1 {
            DeclarationLoad::Missing => {
                let m = pair.0.clone().concat(": UNIT declaration missing");
                report.push(m);
            },
            DeclarationLoad::ParseFailed(cause) => {
                let m = pair.0.clone().concat(": Failed to parse declaration: ").concat(
                    cause.as_str(),
                );
                report.push(m);
            },
            DeclarationLoad::Loaded(u) => {
                if !(u.unit_id == pair.0) {
                    let m = pair.0.clone().concat(": unit_id mismatch (registry: ").concat(
                        pair.0.as_str(),
                    ).concat(", file: ").concat(u.unit_id.as_str()).concat(")");
                    report.push(m);
                }
                if !registry.contains_unit(&u.unit_id) {
                    let m = u.unit_id.clone().concat(": unit_id not in registry");
                    report.push(m);
                }
                let type_ok = crate::text::str_eq(u.unit_type.as_str(), "standard")
                    || crate::text::str_eq(u.unit_type.as_str(), "mini-standard");
                if !type_ok {
                    let m = pair.0.clone().concat(": Invalid unit_type: ").concat(
                        u.unit_type.as_str(),
                    );
                    report.push(m);
                }
                let status_ok = crate::text::str_eq(u.status.as_str(), "active")
                    || crate::text::str_eq(u.status.as_str(), "deprecated");
                if !status_ok {
                    let m = pair.0.clone().concat(": Invalid status: ").concat(u.status.as_str());
                    report.push(m);
                }
            },
        }
        proof {
            assert(report.deep_view() =~= d0 + unit_messages(
                *registry,
                loads@[i as int].0,
                loads@[i as int].1,
            ));
            assert((d0 + unit_messages(*registry, loads@[i as int].0, loads@[i as int].1))
                + load_messages_from(*registry, loads@, i + 1) =~= d0 + (unit_messages(
                *registry,
                loads@[i as int].0,
                loads@[i as int].1,
            ) + load_messages_from(*registry, loads@, i + 1)));
        }
        i = i + 1;
    }
    proof {
        assert(report.deep_view() + load_messages_from(*registry, loads@, loads@.len() as int)
            =~= report.deep_view());
    }
    let mut j: usize = 0;
    while j < path_exists.len()
        invariant
            j <= path_exists@.len(),
            path_exists@.len() == registry.units@.len(),
            report.deep_view() + path_messages_from(*registry, path_exists@, j as int)
                =~= validation_messages(*registry, loads@, path_exists@),
        decreases path_exists@.len() - j,
    {
        let ghost d0 = report.deep_view();
        if !path_exists[j] {
            let entry = &registry.units[j];
            let m = entry.0.clone().concat(": Path does not exist: ").concat(entry.1.path.as_str());
            report.push(m);
        }
        proof {
            let delta = (if !path_exists@[j as int] {
                seq![
                    msg_missing_path(
                        registry.units@[j as int].0@,
                        registry.units@[j as int].1.path@,
                    ),
                ]
            } else {
                Seq::<Seq<char>>::empty()
            });
            assert(report.deep_view() =~= d0 + delta);
            assert((d0 + delta) + path_messages_from(*registry, path_exists@, j + 1) =~= d0 + (delta
                + path_messages_from(*registry, path_exists@, j + 1)));
        }
        j = j + 1;
    }
    proof {
        assert(report.deep_view() + path_messages_from(
            *registry,
            path_exists@,
            path_exists@.len() as int,
        ) =~= report.deep_view());
        assert(report.deep_view() =~= validation_messages(*registry, loads@, path_exists@));
    }
    report
}

// ----- building the dependency graph from a working set -----

/// Position `i` holds the last declaration of its identifier in `units`.
pub open spec fn last_occurrence(units: Seq<UnitJson>, i: int) -> bool {
    &&& 0 <= i < units.len()
    &&& forall|j: int| i < j < units.len() ==> (#[trigger] units[j]).unit_id@ != units[i].unit_id@
}

/// `nd` is the node of some unit before position `bound` whose
/// declaration is the last one carrying its identifier.
pub open spec fn node_from(units: Seq<UnitJson>, nd: GraphNode, bound: int) -> bool {
    exists|x: int|
        #![auto]
        last_occurrence(units, x) && x < bound && units[x].unit_id@ == nd.id@
            && units[x].dependencies.deep_view() == nd.deps.deep_view()
}

proof fn lemma_node_from_widen(units: Seq<UnitJson>, nd: GraphNode, b1: int, b2: int)
    requires
        node_from(units, nd, b1),
        b1 <= b2,
    ensures
        node_from(units, nd, b2),
{
    let x = choose|x: int|
        #![auto]
        last_occurrence(units, x) && x < b1 && units[x].unit_id@ == nd.id@
            && units[x].dependencies.deep_view() == nd.deps.deep_view();
    assert(last_occurrence(units, x) && x < b2 && units[x].unit_id@ == nd.id@
        && units[x].dependencies.deep_view() == nd.deps.deep_view());
}

/// Some node of `nodes` carries the identifier `id`.
pub open spec fn has_node_for(nodes: Seq<GraphNode>, id: Seq<char>) -> bool {
    exists|t: int| 0 <= t < nodes.len() && (#[trigger] nodes[t]).id@ == id
}

proof fn lemma_has_node_for_push(nodes: Seq<GraphNode>, nd: GraphNode, id: Seq<char>)
    requires
        has_node_for(nodes, id),
    ensures
        has_node_for(nodes.push(nd), id),
{
    let t = choose|t: int| 0 <= t < nodes.len() && (#[trigger] nodes[t]).id@ == id;
    assert(nodes.push(nd)[t].id@ == id);
}

/// `g` is the dependency graph of `units`: one node per declared
/// identifier, whose edge list is the dependency sequence of the last
/// declaration carrying that identifier (later declarations win).
pub open spec fn graph_of(units: Seq<UnitJson>, g: DependencyGraph) -> bool {
    &&& g.wf()
    &&& forall|i: int| 0 <= i < units.len() ==> g.has_node((#[trigger] units[i]).unit_id@)
    &&& forall|t: int|
        0 <= t < g.nodes@.len() ==> node_from(units, #[trigger] g.nodes@[t], units.len() as int)
}

/// Every position has a last occurrence of its identifier at or after it.
pub proof fn lemma_exists_last_occurrence(units: Seq<UnitJson>, x: int)
    requires
        0 <= x < units.len(),
    ensures
        exists|y: int|
            #![auto]
            x <= y < units.len() && last_occurrence(units, y) && units[y].unit_id@
                == units[x].unit_id@,
    decreases units.len() - x,
{
    if last_occurrence(units, x) {
        assert(x <= x < units.len() && last_occurrence(units, x) && units[x].unit_id@
            == units[x].unit_id@);
    } else {
        let j = choose|j: int|
            x < j < units.len() && (#[trigger] units[j]).unit_id@ == units[x].unit_id@;
        lemma_exists_last_occurrence(units, j);
        let y = choose|y: int|
            #![auto]
            j <= y < units.len() && last_occurrence(units, y) && units[y].unit_id@
                == units[j].unit_id@;
        assert(x <= y < units.len() && last_occurrence(units, y) && units[y].unit_id@
            == units[x].unit_id@);
    }
}

/// Build the dependency graph: one node per declared identifier in the
/// working set, carrying the dependency list of the last declaration of
/// that identifier (later declarations win), in declaration order,
/// without deduplication and without checking that targets exist.
pub fn build_graph(units: &Vec<UnitJson>) -> (g: DependencyGraph)
    ensures
        g.wf(),
        graph_of(units@, g),
{
    let n = units.len();
    let mut nodes: Vec<GraphNode> = Vec::new();
    let mut i: usize = 0;
    while i < n
        invariant
            n == units@.len(),
            i <= n,
            forall|a: int, b: int|
                0 <= a < b < nodes@.len() ==> (#[trigger] nodes@[a].id@) != (
                #[trigger] nodes@[b].id@),
            forall|t: int| 0 <= t < nodes@.len() ==> node_from(units@, #[trigger] nodes@[t], i as int),
            forall|x: int|
                #![trigger last_occurrence(units@, x)]
                0 <= x < i && last_occurrence(units@, x) ==> has_node_for(
                    nodes@,
                    units@[x].unit_id@,
                ),
        decreases n - i,
    {
        let mut later = false;
        let mut j: usize = i + 1;
        while j < n
            invariant
                n == units@.len(),
                i < n,
                i + 1 <= j <= n,
                later ==> exists|jj: int|
                    i < jj < n && (#[trigger] units@[jj]).unit_id@ == units@[i as int].unit_id@,
                !later ==> forall|jj: int|
                    i < jj < j ==> (#[trigger] units@[jj]).unit_id@ != units@[i as int].unit_id@,
            decreases n - j,
        {
            if units[j].unit_id == units[i].unit_id {
                later = true;
            }
            j = j + 1;
        }
        let ghost nodes_before = nodes@;
        if !later {
            // position i holds the last declaration of its identifier
            assert(last_occurrence(units@, i as int));
            let node = GraphNode {
                id: units[i].unit_id.clone(),
                deps: crate::text::clone_strings(&units[i].dependencies),
            };
            nodes.push(node);
            proof {
                let last = nodes@.len() - 1;
                assert(nodes@[last].id@ == units@[i as int].unit_id@);
                assert(nodes@[last].deps.deep_view() == units@[i as int].dependencies.deep_view());
                assert forall|a: int, b: int|
                    0 <= a < b < nodes@.len() implies (#[trigger] nodes@[a].id@) != (
                #[trigger] nodes@[b].id@) by {
                    if b == last {
                        let x = choose|x: int|
                            #![auto]
                            last_occurrence(units@, x) && x < i && units@[x].unit_id@
                                == nodes_before[a].id@ && units@[x].dependencies.deep_view()
                                == nodes_before[a].deps.deep_view();
                        if nodes@[a].id@ == nodes@[b].id@ {
                            // two last occurrences of one identifier: the
                            // earlier is contradicted by the later
                            assert((#[trigger] units@[i as int]).unit_id@ == units@[x].unit_id@);
                            assert(!last_occurrence(units@, x));
                        }
                    } else {
                        assert(nodes@[a] == nodes_before[a]);
                        assert(nodes@[b] == nodes_before[b]);
                    }
                }
                assert forall|t: int|
                    0 <= t < nodes@.len() implies node_from(units@, #[trigger] nodes@[t], i + 1) by {
                    if t < nodes_before.len() {
                        assert(nodes@[t] == nodes_before[t]);
                        lemma_node_from_widen(units@, nodes_before[t], i as int, i + 1);
                    } else {
                        assert(last_occurrence(units@, i as int) && (i as int) < i + 1
                            && units@[i as int].unit_id@ == nodes@[t].id@
                            && units@[i as int].dependencies.deep_view()
                            == nodes@[t].deps.deep_view());
                    }
                }
                assert forall|x: int|
                    #![trigger last_occurrence(units@, x)]
                    0 <= x < i + 1 && last_occurrence(units@, x) implies has_node_for(
                    nodes@,
                    units@[x].unit_id@,
                ) by {
                    if x < i {
                        lemma_has_node_for_push(nodes_before, nodes@[last], units@[x].unit_id@);
                        assert(nodes@ =~= nodes_before.push(nodes@[last]));
                    } else {
                        assert(nodes@[last].id@ == units@[x].unit_id@);
                    }
                }
            }
        } else {
            proof {
                // a later declaration of the same identifier exists, so
                // position i is not a last occurrence
                let jj = choose|jj: int|
                    i < jj < n && (#[trigger] units@[jj]).unit_id@ == units@[i as int].unit_id@;
                if last_occurrence(units@, i as int) {
                    assert((#[trigger] units@[jj]).unit_id@ != units@[i as int].unit_id@);
                }
                assert forall|x: int|
                    #![trigger last_occurrence(units@, x)]
                    0 <= x < i + 1 && last_occurrence(units@, x) implies has_node_for(
                    nodes@,
                    units@[x].unit_id@,
                ) by {
                    assert(x < i);
                }
            }
        }
        i = i + 1;
    }
    let g = DependencyGraph { nodes };
    proof {
        assert forall|x: int|
            0 <= x < units@.len() implies g.has_node((#[trigger] units@[x]).unit_id@) by {
            lemma_exists_last_occurrence(units@, x);
            let y = choose|y: int|
                #![auto]
                x <= y < units@.len() && last_occurrence(units@, y) && units@[y].unit_id@
                    == units@[x].unit_id@;
            assert(has_node_for(g.nodes@, units@[y].unit_id@));
            let t = choose|t: int|
                0 <= t < g.nodes@.len() && (#[trigger] g.nodes@[t]).id@ == units@[y].unit_id@;
            assert(0 <= t < g.nodes@.len() && g.nodes@[t].id@ == units@[x].unit_id@);
        }
    }
    g
}


// ----- the declared dependency relation and its cycles -----

/// An edge of the declared dependency relation: the last declaration
/// carrying identifier `a` lists `b` among its dependencies.
pub open spec fn declares_dep(units: Seq<UnitJson>, a: Seq<char>, b: Seq<char>) -> bool {
    exists|i: int|
        #![auto]
        last_occurrence(units, i) && units[i].unit_id@ == a
            && units[i].dependencies.deep_view().contains(b)
}

/// A cycle of the declared dependency relation: it closes on its first
/// identifier and every consecutive pair is a declared dependency.
pub open spec fn units_cycle(units: Seq<UnitJson>, c: Seq<Seq<char>>) -> bool {
    &&& c.len() >= 2
    &&& c[0] == c[c.len() - 1]
    &&& forall|k: int| 0 <= k < c.len() - 1 ==> #[trigger] declares_dep(units, c[k], c[k + 1])
}

/// The dependency graph of a working set has exactly the declared
/// dependency edges.
pub proof fn lemma_graph_edges(units: Seq<UnitJson>, g: DependencyGraph, a: Seq<char>, b: Seq<char>)
    requires
        graph_of(units, g),
    ensures
        g.edge(a, b) == declares_dep(units, a, b),
{
    if g.edge(a, b) {
        let t = choose|t: int|
            0 <= t < g.nodes@.len() && g.nodes@[t].id@ == a && g.deps_at(t).contains(b);
        assert(node_from(units, g.nodes@[t], units.len() as int));
        let x = choose|x: int|
            #![auto]
            last_occurrence(units, x) && x < units.len() && units[x].unit_id@ == g.nodes@[t].id@
                && units[x].dependencies.deep_view() == g.nodes@[t].deps.deep_view();
        assert(units[x].dependencies.deep_view().contains(b));
        assert(declares_dep(units, a, b));
    }
    if declares_dep(units, a, b) {
        let i = choose|i: int|
            #![auto]
            last_occurrence(units, i) && units[i].unit_id@ == a
                && units[i].dependencies.deep_view().contains(b);
        assert(g.has_node((#[trigger] units[i]).unit_id@));
        let t = choose|t: int| 0 <= t < g.nodes@.len() && g.nodes@[t].id@ == a;
        assert(node_from(units, g.nodes@[t], units.len() as int));
        let x = choose|x: int|
            #![auto]
            last_occurrence(units, x) && x < units.len() && units[x].unit_id@ == g.nodes@[t].id@
                && units[x].dependencies.deep_view() == g.nodes@[t].deps.deep_view();
        // two last occurrences of one identifier coincide
        if x < i {
            assert((#[trigger] units[i]).unit_id@ != units[x].unit_id@);
        } else if i < x {
            assert((#[trigger] units[x]).unit_id@ != units[i].unit_id@);
        }
        assert(x == i);
        assert(g.deps_at(t).contains(b));
        assert(g.edge(a, b));
    }
}

/// Build the dependency graph of the working set and run cycle
/// detection over it: either the declared dependencies are certified
/// acyclic, or one concrete declared cycle is returned, closed on its
/// first identifier, with no interior repetition.
pub fn graph_verify(units: &Vec<UnitJson>) -> (r: CycleReport)
    ensures
        match r {
            CycleReport::NoCycle => forall|c: Seq<Seq<char>>| !units_cycle(units@, c),
            CycleReport::Found(p) => {
                &&& units_cycle(units@, p.deep_view())
                &&& distinct(p.deep_view().take(p.deep_view().len() - 1))
            },
        },
{
    let g = build_graph(units);
    let r = g.detect_cycle();
    proof {
        match &r {
            CycleReport::NoCycle => {
                assert forall|c: Seq<Seq<char>>| !units_cycle(units@, c) by {
                    if units_cycle(units@, c) {
                        assert forall|k: int|
                            0 <= k < c.len() - 1 implies #[trigger] g.edge(c[k], c[k + 1]) by {
                            lemma_graph_edges(units@, g, c[k], c[k + 1]);
                        }
                        assert(g.is_cycle(c));
                    }
                }
            },
            CycleReport::Found(p) => {
                let pd = p.deep_view();
                assert forall|k: int|
                    0 <= k < pd.len() - 1 implies #[trigger] declares_dep(units@, pd[k], pd[k
                    + 1]) by {
                    lemma_graph_edges(units@, g, pd[k], pd[k + 1]);
                }
            },
        }
    }
    r
}

// ----- how many messages the validator owes -----

/// How many declarations from position `i` on failed to parse.
pub open spec fn parse_failure_count(loads: Seq<(String, DeclarationLoad)>, i: int) -> nat
    decreases loads.len() - i,
{
    if i < 0 || i >= loads.len() {
        0
    } else {
        (if loads[i].1 is ParseFailed {
            1nat
        } else {
            0nat
        }) + parse_failure_count(loads, i + 1)
    }
}

/// How many loaded declarations from position `i` on declare an
/// identifier other than the key they were found under.
pub open spec fn mismatch_count(loads: Seq<(String, DeclarationLoad)>, i: int) -> nat
    decreases loads.len() - i,
{
    if i < 0 || i >= loads.len() {
        0
    } else {
        (if loads[i].1 matches DeclarationLoad::Loaded(u) && u.unit_id@ != loads[i].0@ {
            1nat
        } else {
            0nat
        }) + mismatch_count(loads, i + 1)
    }
}

/// How many loaded declarations from position `i` on carry a status
/// outside the enumerated set.
pub open spec fn bad_status_count(loads: Seq<(String, DeclarationLoad)>, i: int) -> nat
    decreases loads.len() - i,
{
    if i < 0 || i >= loads.len() {
        0
    } else {
        (if loads[i].1 matches DeclarationLoad::Loaded(u) && !valid_unit_status(u.status@) {
            1nat
        } else {
            0nat
        }) + bad_status_count(loads, i + 1)
    }
}

proof fn lemma_load_messages_len(
    reg: UnitRegistry,
    loads: Seq<(String, DeclarationLoad)>,
    i: int,
)
    requires
        forall|x: int| 0 <= x < loads.len() ==> !((#[trigger] loads[x]).1 is Missing),
        forall|x: int|
            0 <= x < loads.len() ==> ((#[trigger] loads[x]).1 matches DeclarationLoad::Loaded(u)
                ==> reg.has_unit(u.unit_id@) && valid_unit_type(u.unit_type@)),
    ensures
        load_messages_from(reg, loads, i).len() == parse_failure_count(loads, i) + mismatch_count(
            loads,
            i,
        ) + bad_status_count(loads, i),
    decreases loads.len() - i,
{
    if 0 <= i < loads.len() {
        lemma_load_messages_len(reg, loads, i + 1);
        assert(!((#[trigger] loads[i]).1 is Missing));
    }
}

proof fn lemma_path_messages_empty(reg: UnitRegistry, path_exists: Seq<bool>, i: int)
    requires
        forall|x: int| 0 <= x < path_exists.len() ==> #[trigger] path_exists[x],
    ensures
        path_messages_from(reg, path_exists, i).len() == 0,
    decreases path_exists.len() - i,
{
    if 0 <= i < path_exists.len() {
        lemma_path_messages_empty(reg, path_exists, i + 1);
    }
}

/// Validator completeness: when every declaration in scope either fails
/// to parse or loads with a registry-known identifier and a valid unit
/// type, and every registry path exists, the validator reports one
/// message per parse failure, one per identifier mismatch and one per
/// invalid status -- exactly their sum, never fewer.
pub proof fn lemma_validator_completeness(
    reg: UnitRegistry,
    loads: Seq<(String, DeclarationLoad)>,
    path_exists: Seq<bool>,
)
    requires
        forall|x: int| 0 <= x < loads.len() ==> !((#[trigger] loads[x]).1 is Missing),
        forall|x: int|
            0 <= x < loads.len() ==> ((#[trigger] loads[x]).1 matches DeclarationLoad::Loaded(u)
                ==> reg.has_unit(u.unit_id@) && valid_unit_type(u.unit_type@)),
        forall|x: int| 0 <= x < path_exists.len() ==> #[trigger] path_exists[x],
    ensures
        validation_messages(reg, loads, path_exists).len() == parse_failure_count(loads, 0)
            + mismatch_count(loads, 0) + bad_status_count(loads, 0),
{
    lemma_load_messages_len(reg, loads, 0);
    lemma_path_messages_empty(reg, path_exists, 0);
}

} // verus!
