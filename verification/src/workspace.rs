//! Workspaces: which version of each target is selected, globally or for
//! one directory, and how the two are brought together.

use crate::ordered::{
    del, distinct_keys, has_key, key_index, lemma_key_index, lemma_put, lookup, put, OrderedMap,
};
use crate::text::{contains, contains_text, Pairs};
use vstd::prelude::*;

verus! {

/// What a workspace is called and how it takes part in a selection.
#[derive(Clone, Debug)]
pub struct WMetadata {
    /// The name of the workspace.
    pub name: String,
    /// Whether its selections count.
    pub active: bool,
    /// Whether it is laid over the global workspace or stands alone.
    pub inherit: bool,
}

/// What a workspace file holds.
#[derive(Clone, Debug)]
pub struct WorkspaceRoot {
    /// Name and flags.
    pub wmetadata: WMetadata,
    /// The selected version of each target.
    pub versions: OrderedMap<String>,
}

/// A workspace, as plain values.
pub struct WorkspaceView {
    pub name: Seq<char>,
    pub active: bool,
    pub inherit: bool,
    pub versions: Pairs,
}

impl View for WorkspaceRoot {
    type V = WorkspaceView;

    open spec fn view(&self) -> WorkspaceView {
        WorkspaceView {
            name: self.wmetadata.name@,
            active: self.wmetadata.active,
            inherit: self.wmetadata.inherit,
            versions: self.versions@,
        }
    }
}

/// A workspace bound to the file it is kept in.
#[derive(Clone, Debug)]
pub struct Workspace {
    file: String,
    root: WorkspaceRoot,
}

impl View for Workspace {
    type V = WorkspaceView;

    closed spec fn view(&self) -> WorkspaceView {
        self.root@
    }
}

/// `base` with every selection of `over` laid on top, in the order of
/// `over`: where both select a version of a target, that of `over` stands.
pub open spec fn overlay(base: Pairs, over: Pairs) -> Pairs
    decreases over.len(),
{
    if over.len() == 0 {
        base
    } else {
        let below = overlay(base, over.drop_last());
        put(below, over.last().0, over.last().1)
    }
}

/// What laying one set of selections over another gives: no target twice,
/// and for each target the version that `over` selects where it selects
/// one, else the version that `base` selects.
pub proof fn lemma_overlay(base: Pairs, over: Pairs)
    requires
        distinct_keys(base),
        distinct_keys(over),
    ensures
        distinct_keys(overlay(base, over)),
        forall|t: Seq<char>| #[trigger]
            has_key(overlay(base, over), t) <==> has_key(over, t) || has_key(base, t),
        forall|t: Seq<char>| #[trigger]
            lookup(overlay(base, over), t) == if has_key(over, t) {
                lookup(over, t)
            } else {
                lookup(base, t)
            },
    decreases over.len(),
{
    if over.len() > 0 {
        let front = over.drop_last();
        let k = over.last().0;
        let v = over.last().1;
        assert forall|i: int, j: int| 0 <= i < j < front.len() implies front[i].0 != front[j].0 by {
            assert(over[i].0 != over[j].0);
        }
        lemma_overlay(base, front);
        let below = overlay(base, front);
        lemma_put(below, k, v);
        lemma_key_index(over, over.len() - 1);
        assert forall|t: Seq<char>| t != k implies (has_key(over, t) <==> has_key(front, t))
            && lookup(over, t) == lookup(front, t) by {
            if has_key(over, t) {
                let i = key_index(over, t);
                assert(front[i].0 == t);
                lemma_key_index(front, i);
                lemma_key_index(over, i);
            }
            if has_key(front, t) {
                let i = key_index(front, t);
                assert(over[i].0 == t);
                lemma_key_index(front, i);
                lemma_key_index(over, i);
            }
        }
        assert forall|t: Seq<char>| #[trigger]
            has_key(overlay(base, over), t) <==> has_key(over, t) || has_key(base, t) by {
            if t != k {
                assert(has_key(over, t) <==> has_key(front, t));
            }
        }
        assert forall|t: Seq<char>| #[trigger]
            lookup(overlay(base, over), t) == if has_key(over, t) {
                lookup(over, t)
            } else {
                lookup(base, t)
            } by {
            if t != k {
                assert(lookup(overlay(base, over), t) == lookup(below, t));
                assert(has_key(over, t) <==> has_key(front, t));
                assert(lookup(over, t) == lookup(front, t));
            }
        }
    }
}

/// The selections whose target name holds `needle`, in order.
pub open spec fn selections_matching(versions: Pairs, needle: Seq<char>) -> Pairs {
    versions.filter(|e: (Seq<char>, Seq<char>)| contains_text(e.0, needle))
}

/// What a list of borrowed selections holds.
pub open spec fn pairs<'a>(v: Seq<(&'a String, &'a String)>) -> Pairs {
    v.map_values(|e: (&String, &String)| (e.0@, e.1@))
}

/// The workspace that selections are written to: the local one where there
/// is one and it is active, else the global one.
pub open spec fn scoped(global: WorkspaceView, local: Option<WorkspaceView>) -> WorkspaceView {
    match local {
        Some(l) => if l.active {
            l
        } else {
            global
        },
        None => global,
    }
}

/// The workspace that selections are read from. Without an active local
/// workspace it is the global one. An active local workspace that inherits
/// is laid over the global one, under the name of the local one followed by
/// ` + global`; one that does not inherit stands alone.
pub open spec fn merged(global: WorkspaceView, local: Option<WorkspaceView>) -> WorkspaceView {
    match local {
        Some(l) => if !l.active {
            global
        } else if l.inherit {
            WorkspaceView {
                name: l.name + " + global"@,
                versions: overlay(global.versions, l.versions),
                ..global
            }
        } else {
            l
        },
        None => global,
    }
}

/// What is read from the global workspace and a local one. An active local
/// workspace that inherits selects for each target its own version where it
/// has one, else the version of the global workspace; one that does not
/// inherit is read alone; without an active local workspace the global one
/// is read.
pub proof fn lemma_merged(global: WorkspaceView, local: Option<WorkspaceView>)
    requires
        distinct_keys(global.versions),
        local matches Some(l) ==> distinct_keys(l.versions),
    ensures
        distinct_keys(merged(global, local).versions),
        local is Some && local->0.active && local->0.inherit ==> forall|t: Seq<char>| #[trigger]
            lookup(merged(global, local).versions, t) == if has_key(local->0.versions, t) {
                lookup(local->0.versions, t)
            } else {
                lookup(global.versions, t)
            },
        local is Some && local->0.active && !local->0.inherit ==> merged(global, local)
            == local->0,
        !(local is Some && local->0.active) ==> merged(global, local) == global,
{
    if let Some(l) = local {
        if l.active && l.inherit {
            lemma_overlay(global.versions, l.versions);
        }
    }
}

impl Workspace {
    /// The file the workspace is kept in.
    pub closed spec fn spec_file(&self) -> Seq<char> {
        self.file@
    }

    /// The map of selections is well formed.
    pub closed spec fn wf(&self) -> bool {
        self.root.versions.wf()
    }

    /// A well-formed workspace selects at most one version of a target.
    pub proof fn lemma_distinct(&self)
        requires
            self.wf(),
        ensures
            crate::ordered::distinct_keys(self@.versions),
    {
        self.root.versions.lemma_view();
    }

    /// A workspace called `name`, active and inheriting, with no selection,
    /// bound to `yaml_file`.
    pub fn new(yaml_file: &str, name: &str) -> (w: Self)
        ensures
            w.wf(),
            w.spec_file() == yaml_file@,
            w@ == (WorkspaceView {
                name: name@,
                active: true,
                inherit: true,
                versions: Seq::empty(),
            }),
    {
        Workspace {
            file: String::from_str(yaml_file),
            root: WorkspaceRoot {
                wmetadata: WMetadata { name: String::from_str(name), active: true, inherit: true },
                versions: OrderedMap::new(),
            },
        }
    }

    /// The workspace that `yaml_file` was found to hold.
    pub fn from(yaml_file: &str, root: WorkspaceRoot) -> (w: Self)
        requires
            root.versions.wf(),
        ensures
            w.wf(),
            w.spec_file() == yaml_file@,
            w@ == root@,
    {
        Workspace { file: String::from_str(yaml_file), root }
    }

    /// The name of the file the workspace is kept in.
    pub fn file(&self) -> (r: &str)
        ensures
            r@ == self.spec_file(),
    {
        self.file.as_str()
    }

    /// What the workspace file is to hold.
    pub fn root(&self) -> (r: &WorkspaceRoot)
        requires
            self.wf(),
        ensures
            r@ == self@,
            r.versions.wf(),
    {
        &self.root
    }

    /// The selected version of the target `name`.
    pub fn version(&self, name: &str) -> (r: Option<&String>)
        requires
            self.wf(),
        ensures
            match r {
                Some(v) => lookup(self@.versions, name@) == Some(v@),
                None => lookup(self@.versions, name@) is None,
            },
    {
        self.root.versions.get(name)
    }

    /// Selects `version` for the target `name`, in place of any version
    /// selected before.
    pub fn set_version(&mut self, name: &str, version: &str)
        requires
            old(self).wf(),
        ensures
            final(self).wf(),
            final(self).spec_file() == old(self).spec_file(),
            final(self)@ == (WorkspaceView {
                versions: put(old(self)@.versions, name@, version@),
                ..old(self)@
            }),
            lookup(final(self)@.versions, name@) == Some(version@),
            forall|other: Seq<char>|
                other != name@ ==> #[trigger] lookup(final(self)@.versions, other) == lookup(
                    old(self)@.versions,
                    other,
                ),
    {
        self.root.versions.insert(String::from_str(name), String::from_str(version));
    }

    /// The name of the workspace.
    pub fn name(&self) -> (r: &str)
        ensures
            r@ == self@.name,
    {
        self.root.wmetadata.name.as_str()
    }

    /// Renames the workspace.
    pub fn set_name(&mut self, name: &str)
        requires
            old(self).wf(),
        ensures
            final(self).wf(),
            final(self).spec_file() == old(self).spec_file(),
            final(self)@ == (WorkspaceView { name: name@, ..old(self)@ }),
    {
        self.root.wmetadata.name = String::from_str(name);
    }

    /// Whether the selections of the workspace count.
    pub fn active(&self) -> (r: bool)
        ensures
            r == self@.active,
    {
        self.root.wmetadata.active
    }

    /// Makes the workspace active or inactive.
    pub fn set_active(&mut self, active: &bool)
        requires
            old(self).wf(),
        ensures
            final(self).wf(),
            final(self).spec_file() == old(self).spec_file(),
            final(self)@ == (WorkspaceView { active: *active, ..old(self)@ }),
    {
        self.root.wmetadata.active = *active;
    }

    /// Whether the workspace is laid over the global one.
    pub fn inherit(&self) -> (r: bool)
        ensures
            r == self@.inherit,
    {
        self.root.wmetadata.inherit
    }

    /// Makes the workspace inherit from the global one or stand alone.
    pub fn set_inherit(&mut self, inherit: &bool)
        requires
            old(self).wf(),
        ensures
            final(self).wf(),
            final(self).spec_file() == old(self).spec_file(),
            final(self)@ == (WorkspaceView { inherit: *inherit, ..old(self)@ }),
    {
        self.root.wmetadata.inherit = *inherit;
    }

    /// Drops the selection for the target `name`; the others keep their
    /// order.
    pub fn remove(&mut self, name: &str)
        requires
            old(self).wf(),
        ensures
            final(self).wf(),
            final(self).spec_file() == old(self).spec_file(),
            final(self)@ == (WorkspaceView {
                versions: del(old(self)@.versions, name@),
                ..old(self)@
            }),
            lookup(final(self)@.versions, name@) is None,
            forall|other: Seq<char>|
                other != name@ ==> #[trigger] lookup(final(self)@.versions, other) == lookup(
                    old(self)@.versions,
                    other,
                ),
    {
        self.root.versions.shift_remove(name);
    }

    /// Lays every selection of `other` over this workspace: where both
    /// select a version of a target, that of `other` stands.
    pub fn merge(&mut self, other: &Workspace)
        requires
            old(self).wf(),
            other.wf(),
        ensures
            final(self).wf(),
            final(self).spec_file() == old(self).spec_file(),
            final(self)@ == (WorkspaceView {
                versions: overlay(old(self)@.versions, other@.versions),
                ..old(self)@
            }),
            forall|t: Seq<char>| #[trigger]
                lookup(final(self)@.versions, t) == if has_key(other@.versions, t) {
                    lookup(other@.versions, t)
                } else {
                    lookup(old(self)@.versions, t)
                },
    {
        proof {
            self.lemma_distinct();
            other.lemma_distinct();
            lemma_overlay(self@.versions, other@.versions);
        }
        let n = other.root.versions.len();
        let mut i: usize = 0;
        proof {
            other.root.versions.lemma_view();
        }
        while i < n
            invariant
                i <= n,
                n == other@.versions.len(),
                n == other.root.versions.spec_keys().len(),
                other.wf(),
                self.wf(),
                self.spec_file() == old(self).spec_file(),
                self@ == (WorkspaceView {
                    versions: overlay(old(self)@.versions, other@.versions.take(i as int)),
                    ..old(self)@
                }),
            decreases n - i,
        {
            let key = other.root.versions.key_at(i);
            let value = other.root.versions.value_at(i);
            proof {
                assert(other@.versions.take(i + 1).drop_last() == other@.versions.take(i as int));
                assert(other@.versions.take(i + 1).last() == other@.versions[i as int]);
            }
            self.root.versions.insert(key.clone(), value.clone());
            i += 1;
        }
        assert(other@.versions.take(n as int) == other@.versions);
    }

    /// The selections whose target name holds `name`, in order.
    pub fn match_by(&self, name: &str) -> (r: Vec<(&String, &String)>)
        requires
            self.wf(),
        ensures
            pairs(r@) == selections_matching(self@.versions, name@),
    {
        let mut out: Vec<(&String, &String)> = Vec::new();
        let n = self.root.versions.len();
        let mut i: usize = 0;
        let ghost pred = |e: (Seq<char>, Seq<char>)| contains_text(e.0, name@);
        proof {
            reveal(Seq::filter);
            assert(pairs(out@) =~= self@.versions.take(0).filter(pred));
        }
        while i < n
            invariant
                i <= n,
                n == self@.versions.len(),
                n == self.root.versions.spec_keys().len(),
                self.wf(),
                pred == |e: (Seq<char>, Seq<char>)| contains_text(e.0, name@),
                pairs(out@) == self@.versions.take(i as int).filter(pred),
            decreases n - i,
        {
            let key = self.root.versions.key_at(i);
            let value = self.root.versions.value_at(i);
            proof {
                reveal(Seq::filter);
                assert(self@.versions.take(i + 1).drop_last() == self@.versions.take(i as int));
                assert(self@.versions.take(i + 1).last() == self@.versions[i as int]);
            }
            if contains(key.as_str(), name) {
                let ghost prev = out@;
                out.push((key, value));
                assert(pairs(out@) =~= pairs(prev).push((key@, value@)));
            }
            i += 1;
        }
        assert(self@.versions.take(n as int) == self@.versions);
        out
    }

    /// Every selection, in order.
    pub fn all_versions(&self) -> (r: Vec<(&String, &String)>)
        requires
            self.wf(),
        ensures
            pairs(r@) == self@.versions,
    {
        let mut out: Vec<(&String, &String)> = Vec::new();
        let n = self.root.versions.len();
        let mut i: usize = 0;
        assert(pairs(out@) =~= self@.versions.take(0));
        while i < n
            invariant
                i <= n,
                n == self@.versions.len(),
                n == self.root.versions.spec_keys().len(),
                self.wf(),
                pairs(out@) == self@.versions.take(i as int),
            decreases n - i,
        {
            let key = self.root.versions.key_at(i);
            let value = self.root.versions.value_at(i);
            let ghost prev = out@;
            out.push((key, value));
            assert(pairs(out@) =~= pairs(prev).push((key@, value@)));
            assert(self@.versions.take(i + 1) =~= self@.versions.take(i as int).push(
                self@.versions[i as int],
            ));
            i += 1;
        }
        assert(self@.versions.take(n as int) == self@.versions);
        out
    }
}

/// The workspace that selections are written to: the local one where there
/// is one and it is active, else the global one.
pub fn load_workspace(global: Workspace, local: Option<Workspace>) -> (w: Workspace)
    requires
        global.wf(),
        local matches Some(l) ==> l.wf(),
    ensures
        w.wf(),
        w@ == scoped(
            global@,
            match local {
                Some(l) => Some(l@),
                None => None,
            },
        ),
        w.spec_file() == match local {
            Some(l) => if l@.active {
                l.spec_file()
            } else {
                global.spec_file()
            },
            None => global.spec_file(),
        },
{
    match local {
        Some(l) => if l.active() {
            l
        } else {
            global
        },
        None => global,
    }
}

/// The workspace that selections are read from: the global one, with an
/// active local one laid over it where that inherits, or the active local
/// one alone where it does not.
pub fn load_workspace_and_merge(global: Workspace, local: Option<Workspace>) -> (w: Workspace)
    requires
        global.wf(),
        local matches Some(l) ==> l.wf(),
    ensures
        w.wf(),
        w@ == merged(
            global@,
            match local {
                Some(l) => Some(l@),
                None => None,
            },
        ),
{
    let mut workspace = global;
    match local {
        Some(l) => {
            if l.active() {
                if l.inherit() {
                    workspace.merge(&l);
                    let mut name = String::from_str(l.name());
                    name.append(" + global");
                    workspace.set_name(name.as_str());
                } else {
                    workspace = l;
                }
            }
        },
        None => {},
    }
    workspace
}

} // verus!
