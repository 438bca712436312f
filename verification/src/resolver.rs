//! Propagation of a selection along bindings: the targets bound to a
//! selected version are selected with it, and so on from each of them, while
//! edges that point at a version the registry does not have are set aside
//! to be pruned.

use crate::ordered::{
    distinct_keys, has_key, key_index, lemma_key_index, lemma_put, lookup, OrderedMap,
};
use crate::workspace::{overlay, Workspace, WorkspaceView};
use crate::text::{pair_texts, str_eq, Pairs};
use crate::versiondb::{
    lemma_remove_binding, reg_binding, reg_bindings, reg_bindings_valid, reg_has_target,
    reg_has_version, reg_remove_binding, reg_valid, Registry, VersionDB,
};
use vstd::prelude::*;

verus! {

/// An edge of the binding graph, as plain values.
pub struct EdgeView {
    pub owner: Seq<char>,
    pub version: Seq<char>,
    pub dep: Seq<char>,
    pub dep_version: Seq<char>,
}

/// An edge of the binding graph: the version `version` of `owner` binds the
/// target `dep` to its version `dep_version`.
#[derive(Clone, Debug)]
pub struct Edge {
    pub owner: String,
    pub version: String,
    pub dep: String,
    pub dep_version: String,
}

impl View for Edge {
    type V = EdgeView;

    open spec fn view(&self) -> EdgeView {
        EdgeView {
            owner: self.owner@,
            version: self.version@,
            dep: self.dep@,
            dep_version: self.dep_version@,
        }
    }
}

/// What each of the edges holds.
pub open spec fn edge_views(v: Seq<Edge>) -> Seq<EdgeView> {
    v.map_values(|e: Edge| e@)
}

/// What a propagation has found, as plain values.
pub struct ResolutionView {
    /// The selected version of each target reached, in the order reached.
    pub resolved: Pairs,
    /// The edges found to point at a version the registry does not have.
    pub pruned: Seq<EdgeView>,
}

/// What a propagation has found.
#[derive(Debug)]
pub struct Resolution {
    /// The selected version of each target reached, in the order reached.
    pub resolved: OrderedMap<String>,
    /// The edges found to point at a version the registry does not have.
    pub pruned: Vec<Edge>,
}

impl View for Resolution {
    type V = ResolutionView;

    open spec fn view(&self) -> ResolutionView {
        ResolutionView { resolved: self.resolved@, pruned: edge_views(self.pruned@) }
    }
}

impl Resolution {
    /// The map of reached targets is well formed.
    pub open spec fn wf(&self) -> bool {
        self.resolved.wf()
    }
}

/// The state after the edge `j` of `owner`@`version` was looked at, before
/// anything is followed from it. An edge to a target already reached, or one
/// already set aside, changes nothing; one to a version the registry has
/// reaches that target; any other is set aside.
pub open spec fn after_edge(db: Registry, st: ResolutionView, edge: EdgeView) -> ResolutionView {
    if has_key(st.resolved, edge.dep) || st.pruned.contains(edge) {
        st
    } else if reg_has_version(db, edge.dep, edge.dep_version) {
        ResolutionView { resolved: st.resolved.push((edge.dep, edge.dep_version)), ..st }
    } else {
        ResolutionView { pruned: st.pruned.push(edge), ..st }
    }
}

/// Whether the edge is followed: it reaches a target not reached before, at
/// a version the registry has.
pub open spec fn follows(db: Registry, st: ResolutionView, edge: EdgeView) -> bool {
    !has_key(st.resolved, edge.dep) && !st.pruned.contains(edge) && reg_has_version(
        db,
        edge.dep,
        edge.dep_version,
    )
}

/// The state after the bindings of `owner`@`version` were walked from the
/// state `st`, following each edge to a newly reached target at once and to
/// the end before the next edge is looked at. `depth` bounds how many
/// targets deep the walk goes.
pub open spec fn visit(
    db: Registry,
    st: ResolutionView,
    owner: Seq<char>,
    version: Seq<char>,
    depth: nat,
) -> ResolutionView
    decreases depth, 1nat, 0nat,
{
    match reg_bindings(db, owner, version) {
        Some(edges) => visit_edges(db, st, owner, version, edges, 0, depth),
        None => st,
    }
}

/// The state after the edges of `owner`@`version` from position `j` on were
/// walked from the state `st`.
pub open spec fn visit_edges(
    db: Registry,
    st: ResolutionView,
    owner: Seq<char>,
    version: Seq<char>,
    edges: Pairs,
    j: nat,
    depth: nat,
) -> ResolutionView
    decreases depth, 0nat, edges.len() - j,
{
    if j >= edges.len() {
        st
    } else {
        let edge = EdgeView {
            owner,
            version,
            dep: edges[j as int].0,
            dep_version: edges[j as int].1,
        };
        let seen = after_edge(db, st, edge);
        let next = if follows(db, st, edge) && depth > 0 {
            visit(db, seen, edge.dep, edge.dep_version, (depth - 1) as nat)
        } else {
            seen
        };
        visit_edges(db, next, owner, version, edges, j + 1, depth)
    }
}

/// What selecting `version` of `target` brings with it: the walk of the
/// binding graph from that selection, as deep as the registry has targets.
pub open spec fn resolution(db: Registry, target: Seq<char>, version: Seq<char>) -> ResolutionView {
    visit(
        db,
        ResolutionView { resolved: seq![(target, version)], pruned: Seq::empty() },
        target,
        version,
        db.len(),
    )
}

/// Whether `e` is the edge from `owner`@`version` to `dep`@`dep_version`.
fn same_edge(e: &Edge, owner: &str, version: &str, dep: &str, dep_version: &str) -> (r: bool)
    ensures
        r == (e@ == EdgeView {
            owner: owner@,
            version: version@,
            dep: dep@,
            dep_version: dep_version@,
        }),
{
    str_eq(e.owner.as_str(), owner) && str_eq(e.version.as_str(), version) && str_eq(
        e.dep.as_str(),
        dep,
    ) && str_eq(e.dep_version.as_str(), dep_version)
}

/// Whether the edge from `owner`@`version` to `dep`@`dep_version` is among
/// those set aside.
fn set_aside(pruned: &Vec<Edge>, owner: &str, version: &str, dep: &str, dep_version: &str) -> (r:
    bool)
    ensures
        r == edge_views(pruned@).contains(
            EdgeView { owner: owner@, version: version@, dep: dep@, dep_version: dep_version@ },
        ),
{
    let ghost edge = EdgeView {
        owner: owner@,
        version: version@,
        dep: dep@,
        dep_version: dep_version@,
    };
    let mut i: usize = 0;
    while i < pruned.len()
        invariant
            i <= pruned.len(),
            edge == (EdgeView {
                owner: owner@,
                version: version@,
                dep: dep@,
                dep_version: dep_version@,
            }),
            forall|k: int| 0 <= k < i ==> edge_views(pruned@)[k] != edge,
        decreases pruned.len() - i,
    {
        if same_edge(&pruned[i], owner, version, dep, dep_version) {
            assert(edge_views(pruned@)[i as int] == edge);
            return true;
        }
        i += 1;
    }
    false
}

/// Walks the bindings of `owner`@`version` from the state `st`.
pub fn walk(db: &VersionDB, st: &mut Resolution, owner: &str, version: &str, depth: usize)
    requires
        db.wf(),
        old(st).wf(),
    ensures
        final(st).wf(),
        final(st)@ == visit(db@, old(st)@, owner@, version@, depth as nat),
    decreases depth,
{
    let edges = match db.get_bindings(owner, version) {
        Some(edges) => edges,
        None => {
            return ;
        },
    };
    let n = edges.len();
    let mut j: usize = 0;
    proof {
        edges.lemma_view();
    }
    while j < n
        invariant
            db.wf(),
            edges.wf(),
            st.wf(),
            j <= n,
            n == edges@.len(),
            n == edges.spec_keys().len(),
            visit_edges(db@, old(st)@, owner@, version@, edges@, 0, depth as nat) == visit_edges(
                db@,
                st@,
                owner@,
                version@,
                edges@,
                j as nat,
                depth as nat,
            ),
        decreases n - j,
    {
        let dep = edges.key_at(j);
        let dep_version = edges.value_at(j);
        let ghost edge = EdgeView {
            owner: owner@,
            version: version@,
            dep: dep@,
            dep_version: dep_version@,
        };
        let ghost before = st@;
        proof {
            edges.lemma_view();
            assert(edges@[j as int] == (dep@, dep_version@));
        }
        if st.resolved.contains_key(dep.as_str()) || set_aside(
            &st.pruned,
            owner,
            version,
            dep.as_str(),
            dep_version.as_str(),
        ) {
        } else if db.has_version(dep.as_str(), dep_version.as_str()) {
            st.resolved.insert(dep.clone(), dep_version.clone());
            assert(st@ == after_edge(db@, before, edge));
            if depth > 0 {
                walk(db, st, dep.as_str(), dep_version.as_str(), depth - 1);
            }
        } else {
            let ghost held = st.pruned@;
            st.pruned.push(
                Edge {
                    owner: String::from_str(owner),
                    version: String::from_str(version),
                    dep: dep.clone(),
                    dep_version: dep_version.clone(),
                },
            );
            assert(edge_views(st.pruned@) =~= edge_views(held).push(edge));
        }
        j += 1;
    }
}

/// What selecting `version` of `target` brings with it.
pub fn resolve(db: &VersionDB, target: &str, version: &str) -> (r: Resolution)
    requires
        db.wf(),
    ensures
        r.wf(),
        r@ == resolution(db@, target@, version@),
        r@.resolved[0] == (target@, version@),
        sound(db@, r@),
        expanded_behind(db@, r@, 0),
{
    proof {
        db.lemma_valid();
        lemma_resolution(db@, target@, version@);
    }
    let mut resolved: OrderedMap<String> = OrderedMap::new();
    resolved.insert(String::from_str(target), String::from_str(version));
    let mut st = Resolution { resolved, pruned: Vec::new() };
    assert(st@.resolved =~= seq![(target@, version@)]);
    assert(st@.pruned =~= Seq::empty());
    let depth = db.len();
    walk(db, &mut st, target, version, depth);
    st
}

/// The edge is one of the registry's, and the registry does not have the
/// version it points at.
pub open spec fn dangling(db: Registry, e: EdgeView) -> bool {
    reg_binding(db, e.owner, e.version, e.dep) == Some(e.dep_version) && !reg_has_version(
        db,
        e.dep,
        e.dep_version,
    )
}

/// No target is reached twice, the registry has every version reached along
/// an edge, and every edge set aside is a dangling one.
pub open spec fn sound(db: Registry, st: ResolutionView) -> bool {
    &&& st.resolved.len() > 0
    &&& distinct_keys(st.resolved)
    &&& forall|i: int|
        1 <= i < st.resolved.len() ==> reg_has_version(
            db,
            (#[trigger] st.resolved[i]).0,
            st.resolved[i].1,
        )
    &&& forall|i: int| 0 <= i < st.pruned.len() ==> dangling(db, #[trigger] st.pruned[i])
}

/// `b` holds what `a` holds, in the same places, and maybe more behind it.
pub open spec fn extends(a: ResolutionView, b: ResolutionView) -> bool {
    a.resolved.is_prefix_of(b.resolved) && a.pruned.is_prefix_of(b.pruned)
}

/// The edge was dealt with: its target is reached, or it is set aside.
pub open spec fn handled(st: ResolutionView, e: EdgeView) -> bool {
    has_key(st.resolved, e.dep) || st.pruned.contains(e)
}

/// Every edge of `owner`@`version` from position `j` on was dealt with.
pub open spec fn expanded_from(
    db: Registry,
    st: ResolutionView,
    owner: Seq<char>,
    version: Seq<char>,
    j: int,
) -> bool {
    reg_bindings(db, owner, version) matches Some(edges) ==> forall|k: int|
        j <= k < edges.len() ==> handled(
            st,
            EdgeView { owner, version, dep: (#[trigger] edges[k]).0, dep_version: edges[k].1 },
        )
}

/// Every target reached from position `from` on had all its edges dealt
/// with.
pub open spec fn expanded_behind(db: Registry, st: ResolutionView, from: int) -> bool {
    forall|i: int|
        from <= i < st.resolved.len() ==> expanded_from(
            db,
            st,
            (#[trigger] st.resolved[i]).0,
            st.resolved[i].1,
            0,
        )
}

/// How many targets of the registry are not reached.
pub open spec fn not_reached(db: Registry, resolved: Pairs) -> nat
    decreases db.len(),
{
    if db.len() == 0 {
        0
    } else {
        not_reached(db.drop_last(), resolved) + if has_key(resolved, db.last().0) {
            0nat
        } else {
            1nat
        }
    }
}

/// No more targets are not reached than the registry has.
proof fn lemma_not_reached_bound(db: Registry, resolved: Pairs)
    ensures
        not_reached(db, resolved) <= db.len(),
    decreases db.len(),
{
    if db.len() > 0 {
        lemma_not_reached_bound(db.drop_last(), resolved);
    }
}

/// A name that a list has, every list that begins with it has too.
proof fn lemma_prefix_has_key(a: Pairs, b: Pairs, k: Seq<char>)
    requires
        a.is_prefix_of(b),
        has_key(a, k),
    ensures
        has_key(b, k),
{
    let i = key_index(a, k);
    assert(b[i] == a[i]);
}

/// Reaching more targets leaves no more of them not reached.
proof fn lemma_not_reached_monotone(db: Registry, a: Pairs, b: Pairs)
    requires
        a.is_prefix_of(b),
    ensures
        not_reached(db, b) <= not_reached(db, a),
    decreases db.len(),
{
    if db.len() > 0 {
        lemma_not_reached_monotone(db.drop_last(), a, b);
        if has_key(a, db.last().0) {
            lemma_prefix_has_key(a, b, db.last().0);
        }
    }
}

/// Reaching a target of the registry that was not reached leaves fewer
/// targets not reached.
proof fn lemma_not_reached_step(db: Registry, a: Pairs, dep: Seq<char>, dep_version: Seq<char>)
    requires
        has_key(db, dep),
        !has_key(a, dep),
    ensures
        not_reached(db, a.push((dep, dep_version))) < not_reached(db, a),
    decreases db.len(),
{
    let b = a.push((dep, dep_version));
    assert(a.is_prefix_of(b));
    let i = key_index(db, dep);
    if db.last().0 == dep {
        lemma_not_reached_monotone(db.drop_last(), a, b);
        assert(b[a.len() as int].0 == dep);
    } else {
        assert(i < db.len() - 1);
        assert(db.drop_last()[i].0 == dep);
        lemma_not_reached_step(db.drop_last(), a, dep, dep_version);
        if has_key(a, db.last().0) {
            lemma_prefix_has_key(a, b, db.last().0);
        }
    }
}

/// An edge that was dealt with stays dealt with as more is found.
proof fn lemma_handled_stays(a: ResolutionView, b: ResolutionView, e: EdgeView)
    requires
        extends(a, b),
        handled(a, e),
    ensures
        handled(b, e),
{
    if has_key(a.resolved, e.dep) {
        lemma_prefix_has_key(a.resolved, b.resolved, e.dep);
    } else {
        let i = choose|i: int| 0 <= i < a.pruned.len() && a.pruned[i] == e;
        assert(b.pruned[i] == e);
    }
}

/// Where every target behind some position had its edges dealt with, and
/// so has every target found since, the same holds of all of them.
proof fn lemma_expanded_stays(db: Registry, a: ResolutionView, b: ResolutionView, from: int)
    requires
        extends(a, b),
        0 <= from,
        expanded_behind(db, a, from),
        expanded_behind(db, b, a.resolved.len() as int),
    ensures
        expanded_behind(db, b, from),
{
    assert forall|i: int| from <= i < b.resolved.len() implies expanded_from(
        db,
        b,
        (#[trigger] b.resolved[i]).0,
        b.resolved[i].1,
        0,
    ) by {
        if i < a.resolved.len() {
            assert(b.resolved[i] == a.resolved[i]);
            let owner = a.resolved[i].0;
            let version = a.resolved[i].1;
            assert(expanded_from(db, a, owner, version, 0));
            if let Some(edges) = reg_bindings(db, owner, version) {
                assert forall|k: int| 0 <= k < edges.len() implies handled(
                    b,
                    EdgeView {
                        owner,
                        version,
                        dep: (#[trigger] edges[k]).0,
                        dep_version: edges[k].1,
                    },
                ) by {
                    lemma_handled_stays(
                        a,
                        b,
                        EdgeView { owner, version, dep: edges[k].0, dep_version: edges[k].1 },
                    );
                }
            }
        }
    }
}

/// Walking the bindings of one version keeps a sound state sound, keeps
/// what was found, and deals with every edge of that version and of every
/// target newly reached, as long as `depth` is not below the number of
/// targets not yet reached.
pub proof fn lemma_visit(
    db: Registry,
    st: ResolutionView,
    owner: Seq<char>,
    version: Seq<char>,
    depth: nat,
)
    requires
        reg_bindings_valid(db),
        sound(db, st),
        not_reached(db, st.resolved) <= depth,
    ensures
        sound(db, visit(db, st, owner, version, depth)),
        extends(st, visit(db, st, owner, version, depth)),
        expanded_from(db, visit(db, st, owner, version, depth), owner, version, 0),
        expanded_behind(db, visit(db, st, owner, version, depth), st.resolved.len() as int),
    decreases depth, 1nat, 0nat,
{
    match reg_bindings(db, owner, version) {
        Some(edges) => {
            lemma_visit_edges(db, st, owner, version, edges, 0, depth);
        },
        None => {},
    }
}

/// The same of the walk from the edge at position `j` on.
pub proof fn lemma_visit_edges(
    db: Registry,
    st: ResolutionView,
    owner: Seq<char>,
    version: Seq<char>,
    edges: Pairs,
    j: nat,
    depth: nat,
)
    requires
        reg_bindings_valid(db),
        reg_bindings(db, owner, version) == Some(edges),
        sound(db, st),
        not_reached(db, st.resolved) <= depth,
        j <= edges.len(),
    ensures
        sound(db, visit_edges(db, st, owner, version, edges, j, depth)),
        extends(st, visit_edges(db, st, owner, version, edges, j, depth)),
        expanded_from(
            db,
            visit_edges(db, st, owner, version, edges, j, depth),
            owner,
            version,
            j as int,
        ),
        expanded_behind(
            db,
            visit_edges(db, st, owner, version, edges, j, depth),
            st.resolved.len() as int,
        ),
    decreases depth, 0nat, edges.len() - j,
{
    if j < edges.len() {
        let edge = EdgeView {
            owner,
            version,
            dep: edges[j as int].0,
            dep_version: edges[j as int].1,
        };
        let seen = after_edge(db, st, edge);
        assert(distinct_keys(edges));
        lemma_key_index(edges, j as int);
        assert(reg_binding(db, owner, version, edge.dep) == Some(edge.dep_version));
        assert(extends(st, seen));
        assert(handled(seen, edge)) by {
            if has_key(st.resolved, edge.dep) || st.pruned.contains(edge) {
            } else if reg_has_version(db, edge.dep, edge.dep_version) {
                assert(seen.resolved[st.resolved.len() as int].0 == edge.dep);
            } else {
                assert(seen.pruned[st.pruned.len() as int] == edge);
            }
        }
        assert(sound(db, seen)) by {
            if follows(db, st, edge) {
                assert forall|a: int, b: int|
                    0 <= a < b < seen.resolved.len() implies seen.resolved[a].0
                    != seen.resolved[b].0 by {
                    if b == st.resolved.len() {
                        assert(st.resolved[a].0 == seen.resolved[a].0);
                    } else {
                        assert(st.resolved[a].0 != st.resolved[b].0);
                    }
                }
            }
        }
        lemma_not_reached_monotone(db, st.resolved, seen.resolved);
        let next = if follows(db, st, edge) && depth > 0 {
            visit(db, seen, edge.dep, edge.dep_version, (depth - 1) as nat)
        } else {
            seen
        };
        if follows(db, st, edge) {
            assert(reg_has_target(db, edge.dep)) by {
                if !has_key(db, edge.dep) {
                    assert(crate::versiondb::reg_versions(db, edge.dep).len() == 0);
                }
            }
            lemma_not_reached_step(db, st.resolved, edge.dep, edge.dep_version);
            assert(depth > 0);
            lemma_visit(db, seen, edge.dep, edge.dep_version, (depth - 1) as nat);
            assert(next.resolved[st.resolved.len() as int] == (edge.dep, edge.dep_version));
            assert(expanded_behind(db, next, st.resolved.len() as int)) by {
                assert forall|i: int|
                    st.resolved.len() <= i < next.resolved.len() implies expanded_from(
                    db,
                    next,
                    (#[trigger] next.resolved[i]).0,
                    next.resolved[i].1,
                    0,
                ) by {
                    if i >= seen.resolved.len() {
                        assert(expanded_behind(db, next, seen.resolved.len() as int));
                    }
                }
            }
        } else {
            assert(next == seen);
            assert(seen.resolved == st.resolved);
        }
        assert(extends(st, next));
        lemma_not_reached_monotone(db, seen.resolved, next.resolved);
        lemma_handled_stays(seen, next, edge);
        lemma_visit_edges(db, next, owner, version, edges, j + 1, depth);
        let last = visit_edges(db, next, owner, version, edges, j + 1, depth);
        lemma_handled_stays(next, last, edge);
        lemma_expanded_stays(db, next, last, st.resolved.len() as int);
    }
}

/// What holds of every propagation. The selection it starts from comes
/// first; no target is reached twice; the registry has every version reached
/// along an edge; every edge set aside is one of the registry's that points
/// at a version the registry does not have; and every edge of every version
/// reached was dealt with: its target is reached, or the edge is set aside.
pub proof fn lemma_resolution(db: Registry, target: Seq<char>, version: Seq<char>)
    requires
        reg_bindings_valid(db),
    ensures
        resolution(db, target, version).resolved.len() > 0,
        resolution(db, target, version).resolved[0] == (target, version),
        sound(db, resolution(db, target, version)),
        expanded_behind(db, resolution(db, target, version), 0),
{
    let st = ResolutionView { resolved: seq![(target, version)], pruned: Seq::empty() };
    lemma_not_reached_bound(db, st.resolved);
    lemma_visit(db, st, target, version, db.len());
    let r = resolution(db, target, version);
    assert(r.resolved[0] == st.resolved[0]);
    assert forall|i: int| 0 <= i < r.resolved.len() implies expanded_from(
        db,
        r,
        (#[trigger] r.resolved[i]).0,
        r.resolved[i].1,
        0,
    ) by {
        if i >= 1 {
            assert(expanded_behind(db, r, 1));
        }
    }
}

/// The registry after each of the edges was taken out of the bindings of
/// its owner.
pub open spec fn pruned_registry(db: Registry, pruned: Seq<EdgeView>) -> Registry
    decreases pruned.len(),
{
    if pruned.len() == 0 {
        db
    } else {
        let e = pruned.last();
        reg_remove_binding(pruned_registry(db, pruned.drop_last()), e.owner, e.version, e.dep)
    }
}

/// Whether one of the edges goes from `owner`@`version` to the target `dep`.
pub open spec fn cuts(
    pruned: Seq<EdgeView>,
    owner: Seq<char>,
    version: Seq<char>,
    dep: Seq<char>,
) -> bool {
    exists|i: int|
        0 <= i < pruned.len() && (#[trigger] pruned[i]).owner == owner && pruned[i].version
            == version && pruned[i].dep == dep
}

/// Pruning takes out the edges it is given and no other: a version binds a
/// target to nothing where one of the edges goes from it to that target,
/// and as before where none does. It removes no version.
pub proof fn lemma_pruned_registry(db: Registry, pruned: Seq<EdgeView>)
    requires
        reg_valid(db),
        reg_bindings_valid(db),
    ensures
        reg_valid(pruned_registry(db, pruned)),
        reg_bindings_valid(pruned_registry(db, pruned)),
        forall|owner: Seq<char>, version: Seq<char>, dep: Seq<char>| #[trigger]
            reg_binding(pruned_registry(db, pruned), owner, version, dep) == if cuts(
                pruned,
                owner,
                version,
                dep,
            ) {
                None
            } else {
                reg_binding(db, owner, version, dep)
            },
        forall|name: Seq<char>, version: Seq<char>| #[trigger]
            reg_has_version(pruned_registry(db, pruned), name, version) == reg_has_version(
                db,
                name,
                version,
            ),
    decreases pruned.len(),
{
    if pruned.len() > 0 {
        let front = pruned.drop_last();
        let e = pruned.last();
        lemma_pruned_registry(db, front);
        let mid = pruned_registry(db, front);
        assert(reg_bindings(mid, e.owner, e.version) is Some ==> distinct_keys(
            reg_bindings(mid, e.owner, e.version)->0,
        ));
        lemma_remove_binding(mid, e.owner, e.version, e.dep);
        let after = pruned_registry(db, pruned);
        assert forall|owner: Seq<char>, version: Seq<char>, dep: Seq<char>| #[trigger]
            reg_binding(after, owner, version, dep) == if cuts(pruned, owner, version, dep) {
                None
            } else {
                reg_binding(db, owner, version, dep)
            } by {
            let here = owner == e.owner && version == e.version && dep == e.dep;
            if cuts(front, owner, version, dep) {
                let i = choose|i: int|
                    0 <= i < front.len() && (#[trigger] front[i]).owner == owner
                        && front[i].version == version && front[i].dep == dep;
                assert(pruned[i] == front[i]);
            }
            if cuts(pruned, owner, version, dep) && !here {
                let i = choose|i: int|
                    0 <= i < pruned.len() && (#[trigger] pruned[i]).owner == owner
                        && pruned[i].version == version && pruned[i].dep == dep;
                assert(front[i] == pruned[i]);
            }
            if here {
                assert(pruned[pruned.len() - 1] == e);
            } else if owner == e.owner && version == e.version {
                assert(reg_binding(after, owner, version, dep) == reg_binding(
                    mid,
                    owner,
                    version,
                    dep,
                ));
            } else {
                assert(crate::versiondb::reg_record(after, owner, version)
                    == crate::versiondb::reg_record(mid, owner, version));
            }
        }
    }
}

/// Takes each of the edges out of the bindings of its owner.
pub fn prune(db: &mut VersionDB, pruned: &Vec<Edge>)
    requires
        old(db).wf(),
    ensures
        final(db).wf(),
        final(db).file() == old(db).file(),
        final(db)@ == pruned_registry(old(db)@, edge_views(pruned@)),
        forall|owner: Seq<char>, version: Seq<char>, dep: Seq<char>| #[trigger]
            reg_binding(final(db)@, owner, version, dep) == if cuts(
                edge_views(pruned@),
                owner,
                version,
                dep,
            ) {
                None
            } else {
                reg_binding(old(db)@, owner, version, dep)
            },
        forall|name: Seq<char>, version: Seq<char>| #[trigger]
            reg_has_version(final(db)@, name, version) == reg_has_version(old(db)@, name, version),
{
    proof {
        db.lemma_valid();
        lemma_pruned_registry(db@, edge_views(pruned@));
    }
    let mut i: usize = 0;
    while i < pruned.len()
        invariant
            i <= pruned.len(),
            db.wf(),
            db.file() == old(db).file(),
            db@ == pruned_registry(old(db)@, edge_views(pruned@).take(i as int)),
        decreases pruned.len() - i,
    {
        let e = &pruned[i];
        proof {
            let all = edge_views(pruned@);
            assert(all.take(i + 1).drop_last() == all.take(i as int));
            assert(all.take(i + 1).last() == e@);
        }
        db.remove_binding(e.owner.as_str(), e.version.as_str(), e.dep.as_str());
        i += 1;
    }
    assert(edge_views(pruned@).take(pruned.len() as int) == edge_views(pruned@));
}

/// Whether the registry holds the target `name` as a library.
pub open spec fn is_lib(db: Registry, name: Seq<char>) -> bool {
    lookup(db, name) matches Some(info) && info.vtype == Some("lib"@)
}

/// Whether taking over the selection `e` asks for the target's link to be
/// made anew: the workspace does not select that version yet, and the
/// target is a library.
pub open spec fn needs_relink(db: Registry, selected: Pairs, e: (Seq<char>, Seq<char>)) -> bool {
    lookup(selected, e.0) != Some(e.1) && is_lib(db, e.0)
}

/// The selections among `resolved` that ask for a link to be made anew.
pub open spec fn relinks(db: Registry, selected: Pairs, resolved: Pairs) -> Pairs {
    resolved.filter(|e: (Seq<char>, Seq<char>)| needs_relink(db, selected, e))
}

/// Whether the registry holds the target `name` as a library.
pub fn target_is_lib(db: &VersionDB, name: &str) -> (r: bool)
    requires
        db.wf(),
    ensures
        r == is_lib(db@, name@),
{
    match db.get_type(name) {
        Some(t) => str_eq(t.as_str(), "lib"),
        None => false,
    }
}

/// Takes the selections of `resolved` over into the workspace and returns
/// those that ask for the target's link to be made anew.
pub fn apply(db: &VersionDB, ws: &mut Workspace, resolved: &OrderedMap<String>) -> (r: Vec<
    (String, String),
>)
    requires
        db.wf(),
        old(ws).wf(),
        resolved.wf(),
    ensures
        final(ws).wf(),
        final(ws).spec_file() == old(ws).spec_file(),
        final(ws)@ == (WorkspaceView {
            versions: overlay(old(ws)@.versions, resolved@),
            ..old(ws)@
        }),
        pair_texts(r@) == relinks(db@, old(ws)@.versions, resolved@),
{
    let mut out: Vec<(String, String)> = Vec::new();
    let n = resolved.len();
    let mut i: usize = 0;
    let ghost start = ws@.versions;
    let ghost pred = |e: (Seq<char>, Seq<char>)| needs_relink(db@, start, e);
    proof {
        reveal(Seq::filter);
        resolved.lemma_view();
        ws.lemma_distinct();
        assert(pair_texts(out@) =~= resolved@.take(0).filter(pred));
    }
    while i < n
        invariant
            i <= n,
            n == resolved@.len(),
            n == resolved.spec_keys().len(),
            db.wf(),
            resolved.wf(),
            distinct_keys(resolved@),
            ws.wf(),
            ws.spec_file() == old(ws).spec_file(),
            start == old(ws)@.versions,
            pred == |e: (Seq<char>, Seq<char>)| needs_relink(db@, start, e),
            ws@ == (WorkspaceView {
                versions: overlay(start, resolved@.take(i as int)),
                ..old(ws)@
            }),
            forall|k: int|
                i <= k < n ==> lookup(ws@.versions, (#[trigger] resolved@[k]).0) == lookup(
                    start,
                    resolved@[k].0,
                ),
            pair_texts(out@) == resolved@.take(i as int).filter(pred),
        decreases n - i,
    {
        let target = resolved.key_at(i);
        let version = resolved.value_at(i);
        let ghost held = ws@.versions;
        proof {
            reveal(Seq::filter);
            ws.lemma_distinct();
            assert(resolved@.take(i + 1).drop_last() == resolved@.take(i as int));
            assert(resolved@.take(i + 1).last() == resolved@[i as int]);
            assert(resolved@[i as int] == (target@, version@));
        }
        let differs = match ws.version(target.as_str()) {
            Some(cur) => !str_eq(cur.as_str(), version.as_str()),
            None => true,
        };
        if differs && target_is_lib(db, target.as_str()) {
            let ghost prev = out@;
            out.push((target.clone(), version.clone()));
            assert(pair_texts(out@) =~= pair_texts(prev).push((target@, version@)));
        }
        ws.set_version(target.as_str(), version.as_str());
        proof {
            lemma_put(held, target@, version@);
            assert forall|k: int| i + 1 <= k < n implies lookup(
                ws@.versions,
                (#[trigger] resolved@[k]).0,
            ) == lookup(start, resolved@[k].0) by {
                assert(resolved@[i as int].0 != resolved@[k].0);
            }
        }
        i += 1;
    }
    assert(resolved@.take(n as int) == resolved@);
    out
}

} // verus!
