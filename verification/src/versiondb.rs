//! The registry of installed versions: for each target its kind, the name of
//! its file and, in installation order, its versions with the record of each.

use crate::ordered::{
    del, distinct_keys, has_key, key_index, key_seq, lemma_del, lemma_del_put, lemma_put,
    lemma_value_changed, lookup, put, OrderedMap,
};
use crate::text::{contains, contains_text, str_eq, texts, Pairs};
use crate::version::{agrees_with, components_agree, version_above, version_order};
use vstd::prelude::*;

verus! {

/// What an optional string holds.
pub open spec fn opt_text(o: Option<String>) -> Option<Seq<char>> {
    match o {
        Some(s) => Some(s@),
        None => None,
    }
}

/// What an optional name-to-text map holds.
pub open spec fn opt_entries(o: Option<OrderedMap<String>>) -> Option<Pairs> {
    match o {
        Some(m) => Some(m@),
        None => None,
    }
}

/// The record of one version of a target, as plain values.
pub struct VDataView {
    pub alias: Option<Seq<char>>,
    pub path: Seq<char>,
    pub icon: Option<Seq<char>>,
    pub envs: Option<Pairs>,
    pub bindings: Option<Pairs>,
}

/// The record of one version of a target: how to run it.
#[derive(Clone, Debug)]
pub struct VData {
    /// A command line to run in place of the target's own binary.
    pub alias: Option<String>,
    /// The directory the version is installed in.
    pub path: String,
    /// An icon for the version.
    pub icon: Option<String>,
    /// Environment variables to set, in order.
    pub envs: Option<OrderedMap<String>>,
    /// The versions of other targets that go with this one.
    pub bindings: Option<OrderedMap<String>>,
}

impl View for VData {
    type V = VDataView;

    open spec fn view(&self) -> VDataView {
        VDataView {
            alias: opt_text(self.alias),
            path: self.path@,
            icon: opt_text(self.icon),
            envs: opt_entries(self.envs),
            bindings: opt_entries(self.bindings),
        }
    }
}

/// Every record among `recs` is well formed.
pub open spec fn records_wf(recs: Seq<VData>) -> bool {
    forall|i: int| 0 <= i < recs.len() ==> #[trigger] recs[i].wf()
}

/// Everything held of each target among `infos` is well formed.
pub open spec fn infos_wf(infos: Seq<VInfo>) -> bool {
    forall|i: int| 0 <= i < infos.len() ==> #[trigger] infos[i].wf()
}

impl VData {
    /// Both maps of the record are well formed.
    pub open spec fn wf(&self) -> bool {
        &&& self.envs matches Some(m) ==> m.wf()
        &&& self.bindings matches Some(m) ==> m.wf()
    }
}

/// What the registry holds of one target, as plain values.
pub struct VInfoView {
    pub vtype: Option<Seq<char>>,
    pub filename: Option<Seq<char>>,
    pub versions: Seq<(Seq<char>, VDataView)>,
}

/// The registry as plain values: the targets in order, each with what is
/// held of it.
pub type Registry = Seq<(Seq<char>, VInfoView)>;

/// What the registry holds of one target.
#[derive(Clone, Debug)]
pub struct VInfo {
    /// The kind of the target: `direct` or `lib`.
    pub vtype: Option<String>,
    /// The name of the target's file, where it is not the target's name.
    pub filename: Option<String>,
    /// The versions, in installation order.
    pub vdata_list: OrderedMap<VData>,
}

impl View for VInfo {
    type V = VInfoView;

    open spec fn view(&self) -> VInfoView {
        VInfoView {
            vtype: opt_text(self.vtype),
            filename: opt_text(self.filename),
            versions: self.vdata_list@,
        }
    }
}

impl VInfo {
    /// The version map and every record in it are well formed.
    pub open spec fn wf(&self) -> bool {
        &&& self.vdata_list.wf()
        &&& records_wf(self.vdata_list.spec_values())
    }
}

/// Whether the registry has the target `name`.
pub open spec fn reg_has_target(db: Registry, name: Seq<char>) -> bool {
    has_key(db, name)
}

/// The versions of `name`, with their records, in installation order; none
/// where the registry has no such target.
pub open spec fn reg_versions(db: Registry, name: Seq<char>) -> Seq<
    (Seq<char>, VDataView),
> {
    match lookup(db, name) {
        Some(info) => info.versions,
        None => Seq::empty(),
    }
}

/// Whether the registry has the version `version` of the target `name`.
pub open spec fn reg_has_version(db: Registry, name: Seq<char>, version: Seq<char>) -> bool {
    has_key(reg_versions(db, name), version)
}

/// The record of the version `version` of the target `name`.
pub open spec fn reg_record(
    db: Registry,
    name: Seq<char>,
    version: Seq<char>,
) -> Option<VDataView> {
    lookup(reg_versions(db, name), version)
}

/// The bindings of the version `version` of the target `name`.
pub open spec fn reg_bindings(db: Registry, name: Seq<char>, version: Seq<char>) -> Option<Pairs> {
    match reg_record(db, name, version) {
        Some(rec) => rec.bindings,
        None => None,
    }
}

/// What a target that the registry does not have yet starts as.
pub open spec fn fresh_info() -> VInfoView {
    VInfoView { vtype: None, filename: None, versions: Seq::empty() }
}

/// What the registry holds of `name`, or what a new target starts as.
pub open spec fn info_or_fresh(db: Registry, name: Seq<char>) -> VInfoView {
    match lookup(db, name) {
        Some(info) => info,
        None => fresh_info(),
    }
}

/// The registry after the record of a version was set: the target is made
/// where it was missing, the version keeps its place where it was there and
/// goes last where it was not.
pub open spec fn reg_set_record(
    db: Registry,
    name: Seq<char>,
    version: Seq<char>,
    rec: VDataView,
) -> Registry {
    let info = info_or_fresh(db, name);
    put(db, name, VInfoView { versions: put(info.versions, version, rec), ..info })
}

/// The registry after one version was removed: a target left without a
/// version leaves the registry with it.
pub open spec fn reg_remove_record(db: Registry, name: Seq<char>, version: Seq<char>) -> Registry {
    match lookup(db, name) {
        Some(info) => {
            let rest = del(info.versions, version);
            if rest.len() == 0 {
                del(db, name)
            } else {
                put(db, name, VInfoView { versions: rest, ..info })
            }
        },
        None => db,
    }
}

/// The registry after the kind of a target was set.
pub open spec fn reg_set_type(db: Registry, name: Seq<char>, vtype: Seq<char>) -> Registry {
    put(db, name, VInfoView { vtype: Some(vtype), ..info_or_fresh(db, name) })
}

/// The registry after the file name of a target was set.
pub open spec fn reg_set_filename(db: Registry, name: Seq<char>, filename: Seq<char>) -> Registry {
    put(db, name, VInfoView { filename: Some(filename), ..info_or_fresh(db, name) })
}

/// The registry with new bindings for one version that it holds.
pub open spec fn reg_with_bindings(
    db: Registry,
    name: Seq<char>,
    version: Seq<char>,
    bindings: Option<Pairs>,
) -> Registry {
    match reg_record(db, name, version) {
        Some(rec) => reg_set_record(db, name, version, VDataView { bindings, ..rec }),
        None => db,
    }
}

/// The registry after an edge was added to a version's bindings; unchanged
/// where it does not hold that version.
pub open spec fn reg_add_binding(
    db: Registry,
    name: Seq<char>,
    version: Seq<char>,
    dep: Seq<char>,
    dep_version: Seq<char>,
) -> Registry {
    let held = match reg_bindings(db, name, version) {
        Some(b) => b,
        None => Seq::empty(),
    };
    reg_with_bindings(db, name, version, Some(put(held, dep, dep_version)))
}

/// The registry after the edge to `dep` was taken out of a version's
/// bindings: bindings left empty are dropped altogether.
pub open spec fn reg_remove_binding(
    db: Registry,
    name: Seq<char>,
    version: Seq<char>,
    dep: Seq<char>,
) -> Registry {
    match reg_bindings(db, name, version) {
        Some(b) => {
            let rest = del(b, dep);
            reg_with_bindings(
                db,
                name,
                version,
                if rest.len() == 0 {
                    None
                } else {
                    Some(rest)
                },
            )
        },
        None => db,
    }
}

/// What became of a request to take an edge out of a version's bindings.
#[derive(Clone, Copy, Debug, PartialEq, Eq)]
pub enum BindingRemoval {
    /// The version is there; the edge is gone, if it was there.
    Done,
    /// The target is there, the version is not.
    MissingVersion,
    /// The target is not there.
    MissingTarget,
}

/// Whether `versions[i]` is the match for `input`: its components agree
/// with those of `input`, no agreeing version is higher, and every agreeing
/// version before it is lower.
pub open spec fn is_best_match(versions: Seq<Seq<char>>, input: Seq<char>, i: int) -> bool {
    &&& 0 <= i < versions.len()
    &&& components_agree(input, versions[i])
    &&& forall|j: int|
        0 <= j < versions.len() && components_agree(input, #[trigger] versions[j]) ==> {
            &&& version_order(versions[j], versions[i]) <= 0
            &&& j < i ==> version_order(versions[j], versions[i]) < 0
        }
}

/// At most one version is the match for an input.
pub proof fn lemma_best_match_unique(versions: Seq<Seq<char>>, input: Seq<char>, i: int, j: int)
    requires
        is_best_match(versions, input, i),
        is_best_match(versions, input, j),
    ensures
        i == j,
{
    crate::version::lemma_order_antisymmetric(
        crate::version::version_numbers(versions[i]),
        crate::version::version_numbers(versions[j]),
    );
    if i < j {
        assert(version_order(versions[i], versions[j]) < 0);
        assert(version_order(versions[j], versions[i]) <= 0);
    } else if j < i {
        assert(version_order(versions[j], versions[i]) < 0);
        assert(version_order(versions[i], versions[j]) <= 0);
    }
}

/// The targets whose name holds `needle`, each with its versions, in the
/// registry's order.
pub open spec fn reg_match(db: Registry, needle: Seq<char>) -> Seq<
    (Seq<char>, Seq<Seq<char>>),
> {
    db.filter_map(
        |e: (Seq<char>, VInfoView)|
            if contains_text(e.0, needle) {
                Some((e.0, key_seq(e.1.versions)))
            } else {
                None
            },
    )
}

/// What a list of targets with their versions holds.
pub open spec fn listing(v: Seq<(String, Vec<String>)>) -> Seq<(Seq<char>, Seq<Seq<char>>)> {
    v.map_values(|e: (String, Vec<String>)| (e.0@, texts(e.1@)))
}

/// The registry that a file of the older layout stands for: each target with
/// its versions, and neither kind nor file name.
pub open spec fn reg_from_legacy(
    old_root: Seq<(Seq<char>, Seq<(Seq<char>, VDataView)>)>,
) -> Registry {
    old_root.map_values(
        |e: (Seq<char>, Seq<(Seq<char>, VDataView)>)|
            (e.0, VInfoView { vtype: None, filename: None, versions: e.1 }),
    )
}

/// No target occurs twice in the registry, and no version twice under one
/// target.
pub open spec fn reg_valid(db: Registry) -> bool {
    &&& distinct_keys(db)
    &&& forall|i: int| 0 <= i < db.len() ==> distinct_keys(#[trigger] db[i].1.versions)
}

/// The version that the version `version` of `name` binds the target `dep`
/// to.
pub open spec fn reg_binding(
    db: Registry,
    name: Seq<char>,
    version: Seq<char>,
    dep: Seq<char>,
) -> Option<Seq<char>> {
    match reg_bindings(db, name, version) {
        Some(b) => lookup(b, dep),
        None => None,
    }
}

/// No version binds a target twice.
pub open spec fn reg_bindings_valid(db: Registry) -> bool {
    forall|name: Seq<char>, version: Seq<char>|
        (#[trigger] reg_bindings(db, name, version)) matches Some(b) ==> distinct_keys(b)
}

/// In a valid registry the versions of every target are distinct.
pub proof fn lemma_versions_distinct(db: Registry, name: Seq<char>)
    requires
        reg_valid(db),
    ensures
        distinct_keys(reg_versions(db, name)),
{
    if has_key(db, name) {
        let i = key_index(db, name);
        assert(distinct_keys(db[i].1.versions));
    }
}

/// Changing what is held of one target keeps the registry valid and leaves
/// every other target as it was.
pub proof fn lemma_put_info(db: Registry, name: Seq<char>, info: VInfoView)
    requires
        reg_valid(db),
        distinct_keys(info.versions),
    ensures
        reg_valid(put(db, name, info)),
        reg_versions(put(db, name, info), name) == info.versions,
        forall|n2: Seq<char>|
            n2 != name ==> #[trigger] reg_versions(put(db, name, info), n2) == reg_versions(db, n2),
{
    lemma_put(db, name, info);
    let p = put(db, name, info);
    assert forall|i: int| 0 <= i < p.len() implies distinct_keys(#[trigger] p[i].1.versions) by {
        if has_key(db, name) {
            if i != key_index(db, name) {
                assert(p[i] == db[i]);
            }
        } else {
            if i < db.len() {
                assert(p[i] == db[i]);
            }
        }
    }
}

/// Setting a record keeps the registry valid, makes that record the one of
/// its version, and leaves every other version of every target as it was.
pub proof fn lemma_set_record(db: Registry, name: Seq<char>, version: Seq<char>, rec: VDataView)
    requires
        reg_valid(db),
    ensures
        reg_valid(reg_set_record(db, name, version, rec)),
        reg_record(reg_set_record(db, name, version, rec), name, version) == Some(rec),
        reg_has_target(reg_set_record(db, name, version, rec), name),
        forall|n2: Seq<char>, v2: Seq<char>|
            (n2 != name || v2 != version) ==> #[trigger] reg_record(
                reg_set_record(db, name, version, rec),
                n2,
                v2,
            ) == reg_record(db, n2, v2),
        forall|n2: Seq<char>|
            n2 != name ==> #[trigger] reg_has_target(reg_set_record(db, name, version, rec), n2)
                == reg_has_target(db, n2),
{
    let info = info_or_fresh(db, name);
    lemma_versions_distinct(db, name);
    lemma_put(info.versions, version, rec);
    let next = VInfoView { versions: put(info.versions, version, rec), ..info };
    lemma_put_info(db, name, next);
    lemma_put(db, name, next);
    let after = reg_set_record(db, name, version, rec);
    assert forall|n2: Seq<char>, v2: Seq<char>|
        (n2 != name || v2 != version) implies #[trigger] reg_record(after, n2, v2) == reg_record(
        db,
        n2,
        v2,
    ) by {
        if n2 != name {
            assert(reg_versions(after, n2) == reg_versions(db, n2));
        }
    }
}

/// After a version was removed the registry is valid and does not have that
/// version; it has the target exactly where it had it before and another of
/// its versions is left; every other version of every target is as it was.
pub proof fn lemma_remove_record(db: Registry, name: Seq<char>, version: Seq<char>)
    requires
        reg_valid(db),
    ensures
        reg_valid(reg_remove_record(db, name, version)),
        !reg_has_version(reg_remove_record(db, name, version), name, version),
        reg_has_target(reg_remove_record(db, name, version), name) <==> reg_has_target(db, name)
            && del(reg_versions(db, name), version).len() > 0,
        reg_versions(reg_remove_record(db, name, version), name) == del(
            reg_versions(db, name),
            version,
        ),
        forall|n2: Seq<char>|
            n2 != name ==> #[trigger] lookup(reg_remove_record(db, name, version), n2) == lookup(
                db,
                n2,
            ),
        forall|v2: Seq<char>|
            v2 != version ==> #[trigger] reg_record(reg_remove_record(db, name, version), name, v2)
                == reg_record(db, name, v2),
{
    let after = reg_remove_record(db, name, version);
    lemma_versions_distinct(db, name);
    lemma_del(reg_versions(db, name), version);
    if has_key(db, name) {
        let info = lookup(db, name)->0;
        let rest = del(info.versions, version);
        if rest.len() == 0 {
            lemma_del(db, name);
            assert forall|i: int| 0 <= i < after.len() implies distinct_keys(
                #[trigger] after[i].1.versions,
            ) by {
                let at = key_index(db, name);
                assert(after[i] == db[if i < at {
                    i
                } else {
                    i + 1
                }]);
            }
            assert(rest =~= Seq::empty());
            assert forall|v2: Seq<char>| v2 != version implies #[trigger] reg_record(
                after,
                name,
                v2,
            ) == reg_record(db, name, v2) by {
                assert(lookup(rest, v2) == lookup(info.versions, v2));
                if has_key(rest, v2) {
                    assert(rest.len() > 0);
                }
            }
        } else {
            let next = VInfoView { versions: rest, ..info };
            lemma_put_info(db, name, next);
            lemma_put(db, name, next);
        }
    } else {
        assert(reg_versions(db, name) =~= Seq::empty());
        assert(del(reg_versions(db, name), version) =~= Seq::empty());
    }
}

/// After the edge to `dep` was taken out of the bindings of one version, the
/// registry is valid, that version binds `dep` to nothing, it binds every
/// other target as before, and every other record is as it was.
pub proof fn lemma_remove_binding(db: Registry, name: Seq<char>, version: Seq<char>, dep: Seq<char>)
    requires
        reg_valid(db),
        reg_bindings(db, name, version) matches Some(b) ==> distinct_keys(b),
    ensures
        reg_valid(reg_remove_binding(db, name, version, dep)),
        reg_bindings_valid(db) ==> reg_bindings_valid(reg_remove_binding(db, name, version, dep)),
        reg_binding(reg_remove_binding(db, name, version, dep), name, version, dep) is None,
        forall|d2: Seq<char>|
            d2 != dep ==> #[trigger] reg_binding(
                reg_remove_binding(db, name, version, dep),
                name,
                version,
                d2,
            ) == reg_binding(db, name, version, d2),
        forall|n2: Seq<char>, v2: Seq<char>|
            (n2 != name || v2 != version) ==> #[trigger] reg_record(
                reg_remove_binding(db, name, version, dep),
                n2,
                v2,
            ) == reg_record(db, n2, v2),
        forall|n2: Seq<char>, v2: Seq<char>| #[trigger]
            reg_has_version(reg_remove_binding(db, name, version, dep), n2, v2) == reg_has_version(
                db,
                n2,
                v2,
            ),
{
    let after = reg_remove_binding(db, name, version, dep);
    match reg_bindings(db, name, version) {
        Some(b) => {
            let rec = reg_record(db, name, version)->0;
            let rest = del(b, dep);
            lemma_del(b, dep);
            let kept = if rest.len() == 0 {
                None
            } else {
                Some(rest)
            };
            let next = VDataView { bindings: kept, ..rec };
            lemma_set_record(db, name, version, next);
            assert forall|d2: Seq<char>| d2 != dep implies #[trigger] reg_binding(
                after,
                name,
                version,
                d2,
            ) == reg_binding(db, name, version, d2) by {
                if rest.len() == 0 && has_key(rest, d2) {
                    assert(rest.len() > 0);
                }
            }
            assert forall|n2: Seq<char>, v2: Seq<char>| #[trigger]
                reg_has_version(after, n2, v2) == reg_has_version(db, n2, v2) by {
                lemma_record_is_version(after, n2, v2);
                lemma_record_is_version(db, n2, v2);
                lemma_versions_distinct(db, name);
            }
            if reg_bindings_valid(db) {
                assert forall|n2: Seq<char>, v2: Seq<char>|
                    (#[trigger] reg_bindings(after, n2, v2)) is Some implies distinct_keys(
                    reg_bindings(after, n2, v2)->0,
                ) by {
                    if n2 != name || v2 != version {
                        assert(reg_record(after, n2, v2) == reg_record(db, n2, v2));
                        assert(reg_bindings(db, n2, v2) is Some);
                    }
                }
            }
        },
        None => {},
    }
}

/// A version is there exactly where it has a record.
pub proof fn lemma_record_is_version(db: Registry, name: Seq<char>, version: Seq<char>)
    ensures
        reg_has_version(db, name, version) <==> reg_record(db, name, version) is Some,
{
}

/// The registry: an ordered map from target names to what is held of each
/// target, bound to the file it is kept in.
#[derive(Clone, Debug)]
pub struct VersionDB {
    filename: String,
    root: OrderedMap<VInfo>,
}

impl View for VersionDB {
    type V = Registry;

    closed spec fn view(&self) -> Registry {
        self.root@
    }
}

impl VersionDB {
    /// The file the registry is kept in.
    pub closed spec fn file(&self) -> Seq<char> {
        self.filename@
    }

    /// The target map and everything in it are well formed.
    pub closed spec fn wf(&self) -> bool {
        &&& self.root.wf()
        &&& infos_wf(self.root.spec_values())
    }

    /// A well-formed registry names no target twice, and no version twice
    /// under one target.
    pub proof fn lemma_distinct(&self)
        requires
            self.wf(),
        ensures
            distinct_keys(self@),
            forall|name: Seq<char>| distinct_keys(#[trigger] reg_versions(self@, name)),
    {
        self.root.lemma_view();
        assert forall|name: Seq<char>| distinct_keys(#[trigger] reg_versions(self@, name)) by {
            if has_key(self@, name) {
                let i = key_index(self@, name);
                assert(self.root@[i] == (self.root.spec_keys()[i], self.root.spec_values()[i]@));
                assert(self.root.spec_values()[i].wf());
                self.root.spec_values()[i].vdata_list.lemma_view();
            }
        }
    }

    /// In a well-formed registry no target, no version of a target and no
    /// binding of a version occurs twice.
    pub proof fn lemma_valid(&self)
        requires
            self.wf(),
        ensures
            reg_valid(self@),
            reg_bindings_valid(self@),
    {
        self.root.lemma_view();
        assert forall|i: int| 0 <= i < self@.len() implies distinct_keys(
            #[trigger] self@[i].1.versions,
        ) by {
            assert(self.root@[i] == (self.root.spec_keys()[i], self.root.spec_values()[i]@));
            assert(self.root.spec_values()[i].wf());
            self.root.spec_values()[i].vdata_list.lemma_view();
        }
        assert forall|name: Seq<char>, version: Seq<char>|
            (#[trigger] reg_bindings(self@, name, version)) is Some implies distinct_keys(
            reg_bindings(self@, name, version)->0,
        ) by {
            let i = key_index(self@, name);
            assert(self.root@[i] == (self.root.spec_keys()[i], self.root.spec_values()[i]@));
            let info = self.root.spec_values()[i];
            assert(info.wf());
            info.vdata_list.lemma_view();
            let j = key_index(info.vdata_list@, version);
            assert(info.vdata_list@[j] == (
                info.vdata_list.spec_keys()[j],
                info.vdata_list.spec_values()[j]@,
            ));
            let rec = info.vdata_list.spec_values()[j];
            assert(rec.wf());
            rec.bindings->0.lemma_view();
        }
    }

    /// An empty registry bound to `yaml_file`.
    pub fn new(yaml_file: &str) -> (db: Self)
        ensures
            db.wf(),
            db@ == Seq::<(Seq<char>, VInfoView)>::empty(),
            db.file() == yaml_file@,
    {
        VersionDB { filename: String::from_str(yaml_file), root: OrderedMap::new() }
    }

    /// The name of the file the registry is kept in.
    pub fn filename(&self) -> (r: &str)
        ensures
            r@ == self.file(),
    {
        self.filename.as_str()
    }

    /// What the registry file is to hold.
    pub fn root(&self) -> (r: &OrderedMap<VInfo>)
        requires
            self.wf(),
        ensures
            r@ == self@,
            r.wf(),
            infos_wf(r.spec_values()),
    {
        &self.root
    }

    /// The number of targets.
    pub fn len(&self) -> (n: usize)
        requires
            self.wf(),
        ensures
            n == self@.len(),
    {
        self.root.len()
    }

    /// Whether the registry holds nothing of the target `name`.
    pub fn is_empty(&self, name: &str) -> (r: bool)
        requires
            self.wf(),
        ensures
            r == !reg_has_target(self@, name@),
    {
        !self.root.contains_key(name)
    }

    /// Whether the registry has the target `name`.
    pub fn has_target(&self, name: &str) -> (r: bool)
        requires
            self.wf(),
        ensures
            r == reg_has_target(self@, name@),
    {
        self.root.contains_key(name)
    }

    /// What the registry holds of the target `name`.
    pub fn get_info(&self, name: &str) -> (r: Option<&VInfo>)
        requires
            self.wf(),
        ensures
            match r {
                Some(info) => lookup(self@, name@) == Some(info@) && info.wf(),
                None => lookup(self@, name@) is None,
            },
    {
        let r = self.root.get(name);
        proof {
            if r is Some {
                let i = key_index(self@, name@);
                assert(self.root.spec_values()[i].wf());
            }
        }
        r
    }

    /// Whether the registry has the version `version` of the target `name`.
    pub fn has_version(&self, name: &str, version: &str) -> (r: bool)
        requires
            self.wf(),
        ensures
            r == reg_has_version(self@, name@, version@),
    {
        match self.get_info(name) {
            Some(info) => info.vdata_list.contains_key(version),
            None => false,
        }
    }

    /// The record of the version `version` of the target `name`.
    pub fn get_vdata(&self, name: &str, version: &str) -> (r: Option<&VData>)
        requires
            self.wf(),
        ensures
            match r {
                Some(rec) => reg_record(self@, name@, version@) == Some(rec@) && rec.wf(),
                None => reg_record(self@, name@, version@) is None,
            },
    {
        match self.get_info(name) {
            Some(info) => {
                let r = info.vdata_list.get(version);
                proof {
                    if r is Some {
                        let i = key_index(info.vdata_list@, version@);
                        assert(info.vdata_list.spec_values()[i].wf());
                    }
                }
                r
            },
            None => None,
        }
    }

    /// The bindings of the version `version` of the target `name`.
    pub fn get_bindings(&self, name: &str, version: &str) -> (r: Option<&OrderedMap<String>>)
        requires
            self.wf(),
        ensures
            match r {
                Some(b) => reg_bindings(self@, name@, version@) == Some(b@) && b.wf(),
                None => reg_bindings(self@, name@, version@) is None,
            },
    {
        match self.get_vdata(name, version) {
            Some(rec) => rec.bindings.as_ref(),
            None => None,
        }
    }

    /// The file name of the target `name`, where one was set.
    pub fn get_filename(&self, name: &str) -> (r: Option<&String>)
        requires
            self.wf(),
        ensures
            match r {
                Some(f) => lookup(self@, name@) is Some && lookup(self@, name@)->0.filename
                    == Some(f@),
                None => lookup(self@, name@) is None || lookup(self@, name@)->0.filename is None,
            },
    {
        match self.get_info(name) {
            Some(info) => info.filename.as_ref(),
            None => None,
        }
    }

    /// The kind of the target `name`, where one was set.
    pub fn get_type(&self, name: &str) -> (r: Option<&String>)
        requires
            self.wf(),
        ensures
            match r {
                Some(t) => lookup(self@, name@) is Some && lookup(self@, name@)->0.vtype == Some(
                    t@,
                ),
                None => lookup(self@, name@) is None || lookup(self@, name@)->0.vtype is None,
            },
    {
        match self.get_info(name) {
            Some(info) => info.vtype.as_ref(),
            None => None,
        }
    }

    /// Sets the record of the version `version` of the target `name`. A
    /// target the registry does not have yet is made; a version it has
    /// already keeps its place among the versions, a new one goes last.
    pub fn set_vdata(&mut self, name: &str, version: &str, vdata: VData)
        requires
            old(self).wf(),
            vdata.wf(),
        ensures
            final(self).wf(),
            final(self).file() == old(self).file(),
            final(self)@ == reg_set_record(old(self)@, name@, version@, vdata@),
            reg_record(final(self)@, name@, version@) == Some(vdata@),
            forall|n2: Seq<char>, v2: Seq<char>|
                (n2 != name@ || v2 != version@) ==> #[trigger] reg_record(final(self)@, n2, v2)
                    == reg_record(old(self)@, n2, v2),
    {
        let ghost before = self.root;
        proof {
            self.lemma_valid();
            lemma_set_record(self@, name@, version@, vdata@);
        }
        match self.root.index_of(name) {
            Some(i) => {
                assert(before.spec_values()[i as int].wf());
                let info = self.root.value_at_mut(i);
                info.vdata_list.insert(String::from_str(version), vdata);
                assert(info.wf());
                proof {
                    lemma_value_changed(before, self.root, i as int);
                    before.lemma_view();
                    assert(infos_wf(self.root.spec_values()));
                }
            },
            None => {
                let mut list: OrderedMap<VData> = OrderedMap::new();
                list.insert(String::from_str(version), vdata);
                assert(records_wf(list.spec_values()));
                self.root.insert(
                    String::from_str(name),
                    VInfo { vtype: None, filename: None, vdata_list: list },
                );
            },
        }
    }

    /// Removes the version `version` of the target `name`. A target left
    /// without a version leaves the registry too.
    pub fn remove_vdata(&mut self, name: &str, version: &str)
        requires
            old(self).wf(),
        ensures
            final(self).wf(),
            final(self).file() == old(self).file(),
            final(self)@ == reg_remove_record(old(self)@, name@, version@),
            !reg_has_version(final(self)@, name@, version@),
            reg_has_target(final(self)@, name@) <==> reg_has_target(old(self)@, name@) && del(
                reg_versions(old(self)@, name@),
                version@,
            ).len() > 0,
            forall|n2: Seq<char>, v2: Seq<char>|
                (n2 != name@ || v2 != version@) ==> #[trigger] reg_record(final(self)@, n2, v2)
                    == reg_record(old(self)@, n2, v2),
    {
        let ghost before = self.root;
        proof {
            self.lemma_valid();
            lemma_remove_record(self@, name@, version@);
        }
        match self.root.index_of(name) {
            Some(i) => {
                assert(before.spec_values()[i as int].wf());
                let info = self.root.value_at_mut(i);
                info.vdata_list.shift_remove(version);
                let emptied = info.vdata_list.is_empty();
                assert(info.wf());
                proof {
                    lemma_value_changed(before, self.root, i as int);
                    before.lemma_view();
                    assert(infos_wf(self.root.spec_values()));
                }
                if emptied {
                    let ghost changed = self.root@[i as int].1;
                    self.root.shift_remove(name);
                    proof {
                        lemma_del_put(before@, name@, changed);
                    }
                }
            },
            None => {},
        }
    }

    /// Removes the target `name` with all its versions.
    pub fn remove_all_vdata(&mut self, name: &str)
        requires
            old(self).wf(),
        ensures
            final(self).wf(),
            final(self).file() == old(self).file(),
            final(self)@ == del(old(self)@, name@),
            !reg_has_target(final(self)@, name@),
            forall|other: Seq<char>|
                other != name@ ==> #[trigger] lookup(final(self)@, other) == lookup(
                    old(self)@,
                    other,
                ),
    {
        self.root.shift_remove(name);
    }

    /// Sets the file name of the target `name`, making the target where the
    /// registry does not have it. Returns the file name that was set before
    /// where it differs from the new one: a change to be warned of.
    pub fn set_filename(&mut self, name: &str, filename: &str) -> (replaced: Option<String>)
        requires
            old(self).wf(),
        ensures
            final(self).wf(),
            final(self).file() == old(self).file(),
            final(self)@ == reg_set_filename(old(self)@, name@, filename@),
            opt_text(replaced) == match info_or_fresh(old(self)@, name@).filename {
                Some(f) => if f != filename@ {
                    Some(f)
                } else {
                    None
                },
                None => None,
            },
    {
        let ghost before = self.root;
        match self.root.index_of(name) {
            Some(i) => {
                assert(before.spec_values()[i as int].wf());
                let info = self.root.value_at_mut(i);
                let mut held: Option<String> = Some(String::from_str(filename));
                std::mem::swap(&mut info.filename, &mut held);
                assert(info.wf());
                proof {
                    lemma_value_changed(before, self.root, i as int);
                    before.lemma_view();
                    assert(infos_wf(self.root.spec_values()));
                }
                match held {
                    Some(f) => if str_eq(f.as_str(), filename) {
                        None
                    } else {
                        Some(f)
                    },
                    None => None,
                }
            },
            None => {
                self.root.insert(
                    String::from_str(name),
                    VInfo {
                        vtype: None,
                        filename: Some(String::from_str(filename)),
                        vdata_list: OrderedMap::new(),
                    },
                );
                None
            },
        }
    }

    /// Sets the kind of the target `name`, making the target where the
    /// registry does not have it. Returns the kind that was set before where
    /// it differs from the new one: a change to be warned of.
    pub fn set_type(&mut self, name: &str, vtype: &str) -> (replaced: Option<String>)
        requires
            old(self).wf(),
        ensures
            final(self).wf(),
            final(self).file() == old(self).file(),
            final(self)@ == reg_set_type(old(self)@, name@, vtype@),
            opt_text(replaced) == match info_or_fresh(old(self)@, name@).vtype {
                Some(t) => if t != vtype@ {
                    Some(t)
                } else {
                    None
                },
                None => None,
            },
    {
        let ghost before = self.root;
        match self.root.index_of(name) {
            Some(i) => {
                assert(before.spec_values()[i as int].wf());
                let info = self.root.value_at_mut(i);
                let mut held: Option<String> = Some(String::from_str(vtype));
                std::mem::swap(&mut info.vtype, &mut held);
                assert(info.wf());
                proof {
                    lemma_value_changed(before, self.root, i as int);
                    before.lemma_view();
                    assert(infos_wf(self.root.spec_values()));
                }
                match held {
                    Some(t) => if str_eq(t.as_str(), vtype) {
                        None
                    } else {
                        Some(t)
                    },
                    None => None,
                }
            },
            None => {
                self.root.insert(
                    String::from_str(name),
                    VInfo {
                        vtype: Some(String::from_str(vtype)),
                        filename: None,
                        vdata_list: OrderedMap::new(),
                    },
                );
                None
            },
        }
    }

    /// Adds the edge `binding` to the bindings of the version `version` of
    /// the target `name`, in place of an edge to the same target. Returns
    /// whether the registry has that version; where it has not, nothing
    /// changes.
    pub fn add_binding(&mut self, name: &str, version: &str, binding: (String, String)) -> (done:
        bool)
        requires
            old(self).wf(),
        ensures
            final(self).wf(),
            final(self).file() == old(self).file(),
            done == reg_has_version(old(self)@, name@, version@),
            final(self)@ == reg_add_binding(old(self)@, name@, version@, binding.0@, binding.1@),
    {
        let ghost before = self.root;
        let i = match self.root.index_of(name) {
            Some(i) => i,
            None => {
                return false;
            },
        };
        assert(before.spec_values()[i as int].wf());
        let j = match self.root.value_at(i).vdata_list.index_of(version) {
            Some(j) => j,
            None => {
                proof {
                    before.lemma_view();
                }
                return false;
            },
        };
        let info = self.root.value_at_mut(i);
        let ghost list = info.vdata_list;
        assert(list.spec_values()[j as int].wf());
        let rec = info.vdata_list.value_at_mut(j);
        let mut held: Option<OrderedMap<String>> = None;
        std::mem::swap(&mut rec.bindings, &mut held);
        let mut edges: OrderedMap<String> = match held {
            Some(b) => b,
            None => OrderedMap::new(),
        };
        edges.insert(binding.0, binding.1);
        rec.bindings = Some(edges);
        assert(rec.wf());
        proof {
            lemma_value_changed(list, info.vdata_list, j as int);
            list.lemma_view();
            assert(records_wf(info.vdata_list.spec_values()));
        }
        assert(info.wf());
        proof {
            lemma_value_changed(before, self.root, i as int);
            before.lemma_view();
            assert(infos_wf(self.root.spec_values()));
        }
        true
    }

    /// Takes the edge to `binding_target` out of the bindings of the version
    /// `version` of the target `name`; bindings left empty are dropped. Says
    /// whether the target and the version were there.
    pub fn remove_binding(&mut self, name: &str, version: &str, binding_target: &str) -> (r:
        BindingRemoval)
        requires
            old(self).wf(),
        ensures
            final(self).wf(),
            final(self).file() == old(self).file(),
            final(self)@ == reg_remove_binding(old(self)@, name@, version@, binding_target@),
            reg_binding(final(self)@, name@, version@, binding_target@) is None,
            forall|d2: Seq<char>|
                d2 != binding_target@ ==> #[trigger] reg_binding(final(self)@, name@, version@, d2)
                    == reg_binding(old(self)@, name@, version@, d2),
            forall|n2: Seq<char>, v2: Seq<char>|
                (n2 != name@ || v2 != version@) ==> #[trigger] reg_record(final(self)@, n2, v2)
                    == reg_record(old(self)@, n2, v2),
            match r {
                BindingRemoval::Done => reg_has_version(old(self)@, name@, version@),
                BindingRemoval::MissingVersion => reg_has_target(old(self)@, name@)
                    && !reg_has_version(old(self)@, name@, version@),
                BindingRemoval::MissingTarget => !reg_has_target(old(self)@, name@),
            },
    {
        let ghost before = self.root;
        proof {
            self.lemma_valid();
            lemma_remove_binding(self@, name@, version@, binding_target@);
        }
        let i = match self.root.index_of(name) {
            Some(i) => i,
            None => {
                return BindingRemoval::MissingTarget;
            },
        };
        assert(before.spec_values()[i as int].wf());
        let j = match self.root.value_at(i).vdata_list.index_of(version) {
            Some(j) => j,
            None => {
                proof {
                    before.lemma_view();
                }
                return BindingRemoval::MissingVersion;
            },
        };
        let info = self.root.value_at_mut(i);
        let ghost list = info.vdata_list;
        assert(list.spec_values()[j as int].wf());
        let rec = info.vdata_list.value_at_mut(j);
        let mut held: Option<OrderedMap<String>> = None;
        std::mem::swap(&mut rec.bindings, &mut held);
        let ghost had = held is Some;
        match held {
            Some(b) => {
                let mut edges = b;
                edges.shift_remove(binding_target);
                if !edges.is_empty() {
                    rec.bindings = Some(edges);
                }
            },
            None => {},
        }
        assert(rec.wf());
        proof {
            lemma_value_changed(list, info.vdata_list, j as int);
            list.lemma_view();
            assert(records_wf(info.vdata_list.spec_values()));
            if !had {
                assert(info.vdata_list@ =~= list@);
            }
        }
        let ghost same = info.vdata_list@ == list@;
        assert(info.wf());
        proof {
            lemma_value_changed(before, self.root, i as int);
            before.lemma_view();
            assert(infos_wf(self.root.spec_values()));
            if !had {
                assert(same);
                assert(self.root@ =~= before@);
            }
        }
        BindingRemoval::Done
    }

    /// The versions of the target `name`, in installation order.
    pub fn get_all_version(&self, name: &str) -> (r: Option<Vec<String>>)
        requires
            self.wf(),
        ensures
            match r {
                Some(v) => reg_has_target(self@, name@) && texts(v@) == key_seq(
                    reg_versions(self@, name@),
                ),
                None => !reg_has_target(self@, name@),
            },
    {
        match self.get_info(name) {
            Some(info) => Some(version_names(info)),
            None => None,
        }
    }

    /// The version of the target `name` that was installed first.
    pub fn get_first_version(&self, name: &str) -> (r: Option<&String>)
        requires
            self.wf(),
        ensures
            match r {
                Some(v) => reg_versions(self@, name@).len() > 0 && v@ == reg_versions(
                    self@,
                    name@,
                )[0].0,
                None => reg_versions(self@, name@).len() == 0,
            },
    {
        match self.get_info(name) {
            Some(info) => {
                if info.vdata_list.len() > 0 {
                    Some(info.vdata_list.key_at(0))
                } else {
                    None
                }
            },
            None => None,
        }
    }

    /// The targets whose name holds `name`, each with its versions.
    pub fn match_by(&self, name: &str) -> (r: Vec<(String, Vec<String>)>)
        requires
            self.wf(),
        ensures
            listing(r@) == reg_match(self@, name@),
    {
        let mut out: Vec<(String, Vec<String>)> = Vec::new();
        let mut i: usize = 0;
        proof {
            self.root.lemma_view();
        }
        assert(listing(out@) =~= reg_match(self@.take(0), name@));
        while i < self.root.len()
            invariant
                self.wf(),
                i <= self.root.spec_keys().len(),
                self@.len() == self.root.spec_keys().len(),
                listing(out@) == reg_match(self@.take(i as int), name@),
            decreases self.root.spec_keys().len() - i,
        {
            let key = self.root.key_at(i);
            let info = self.root.value_at(i);
            proof {
                self.root.lemma_view();
                assert(self@.take(i + 1).drop_last() == self@.take(i as int));
                assert(self@.take(i + 1).last() == self@[i as int]);
                assert(info.wf());
            }
            if contains(key.as_str(), name) {
                let ghost prev = out@;
                let names = version_names(info);
                out.push((key.clone(), names));
                assert(listing(out@) =~= listing(prev) + seq![(key@, texts(names@))]);
            }
            i += 1;
        }
        assert(self@.take(self@.len() as int) == self@);
        out
    }

    /// The version of the target `name` that `version` stands for: among the
    /// versions whose components agree with those of `version`, the highest,
    /// and of several that are equally high the one installed first.
    pub fn match_first_version(&self, name: &str, version: &str) -> (r: Option<&String>)
        requires
            self.wf(),
        ensures
            match r {
                Some(v) => exists|i: int|
                    is_best_match(key_seq(reg_versions(self@, name@)), version@, i) && v@
                        == #[trigger] key_seq(reg_versions(self@, name@))[i],
                None => forall|j: int|
                    0 <= j < reg_versions(self@, name@).len() ==> !components_agree(
                        version@,
                        #[trigger] key_seq(reg_versions(self@, name@))[j],
                    ),
            },
    {
        let info = match self.get_info(name) {
            Some(info) => info,
            None => {
                return None;
            },
        };
        let ghost names = key_seq(reg_versions(self@, name@));
        proof {
            info.vdata_list.lemma_view();
        }
        let mut best: Option<usize> = None;
        let mut i: usize = 0;
        while i < info.vdata_list.len()
            invariant
                info.wf(),
                i <= info.vdata_list.spec_keys().len(),
                names.len() == info.vdata_list.spec_keys().len(),
                forall|k: int|
                    0 <= k < names.len() ==> #[trigger] names[k] == info.vdata_list@[k].0,
                match best {
                    Some(b) => is_best_match(names.take(i as int), version@, b as int),
                    None => forall|j: int| 0 <= j < i ==> !components_agree(version@, names[j]),
                },
            decreases info.vdata_list.spec_keys().len() - i,
        {
            let candidate = info.vdata_list.key_at(i);
            if agrees_with(version, candidate.as_str()) {
                match best {
                    Some(b) => {
                        let held = info.vdata_list.key_at(b);
                        if version_above(candidate.as_str(), held.as_str()) {
                            proof {
                                lemma_new_best(names, version@, b as int, i as int);
                            }
                            best = Some(i);
                        } else {
                            proof {
                                lemma_best_stays(names, version@, b as int, i as int);
                            }
                        }
                    },
                    None => {
                        proof {
                            lemma_first_best(names, version@, i as int);
                        }
                        best = Some(i);
                    },
                }
            } else {
                proof {
                    if best is Some {
                        lemma_best_stays(names, version@, best->0 as int, i as int);
                    }
                }
            }
            i += 1;
        }
        assert(names.take(names.len() as int) == names);
        match best {
            Some(b) => Some(info.vdata_list.key_at(b)),
            None => None,
        }
    }

    /// The registry that `yaml_file` was found to hold: as it stands where
    /// the file has the current layout, with each target wrapped where it
    /// has the older one.
    pub fn from(yaml_file: &str, loaded: LoadedRegistry) -> (db: Self)
        requires
            loaded.wf(),
        ensures
            db.wf(),
            db.file() == yaml_file@,
            db@ == loaded.registry(),
    {
        match loaded {
            LoadedRegistry::Current(root) => VersionDB {
                filename: String::from_str(yaml_file),
                root,
            },
            LoadedRegistry::Legacy(old_root) => {
                let mut old_root = old_root;
                let mut root: OrderedMap<VInfo> = OrderedMap::new();
                let ghost all = old_root@;
                proof {
                    old_root.lemma_view();
                }
                assert(root@ =~= reg_from_legacy(all.take(0)));
                let n = old_root.len();
                let mut i: usize = 0;
                while i < n
                    invariant
                        i <= n,
                        n == all.len(),
                        distinct_keys(all),
                        old_root.wf(),
                        forall|k: int|
                            0 <= k < old_root.spec_values().len() ==> {
                                &&& (#[trigger] old_root.spec_values()[k]).wf()
                                &&& records_wf(old_root.spec_values()[k].spec_values())
                            },
                        old_root@ == all.skip(i as int),
                        root.wf(),
                        infos_wf(root.spec_values()),
                        root@ == reg_from_legacy(all.take(i as int)),
                    decreases n - i,
                {
                    proof {
                        old_root.lemma_view();
                        root.lemma_view();
                    }
                    let ghost held = old_root;
                    let key = old_root.key_at(0).clone();
                    let taken = old_root.shift_remove(key.as_str());
                    let list = match taken {
                        Some((_, list)) => list,
                        None => OrderedMap::new(),
                    };
                    proof {
                        assert(held@[0] == all[i as int]);
                        assert(key_index(held@, key@) == 0);
                        assert(old_root@ =~= all.skip(i + 1));
                        assert(list == held.spec_values()[0]);
                        assert(list@ == all[i as int].1);
                        assert(!has_key(root@, key@)) by {
                            if has_key(root@, key@) {
                                let k = key_index(root@, key@);
                                assert(root@[k].0 == all[k].0);
                            }
                        }
                    }
                    root.insert(key, VInfo { vtype: None, filename: None, vdata_list: list });
                    proof {
                        assert(root@ =~= reg_from_legacy(all.take(i + 1)));
                        assert(infos_wf(root.spec_values()));
                    }
                    i += 1;
                }
                assert(all.take(n as int) == all);
                VersionDB { filename: String::from_str(yaml_file), root }
            },
        }
    }
}

/// What was read from a registry file: the current layout, or the older one
/// in which a target is its versions alone.
#[derive(Clone, Debug)]
pub enum LoadedRegistry {
    /// Targets with kind, file name and versions.
    Current(OrderedMap<VInfo>),
    /// Targets with their versions alone.
    Legacy(OrderedMap<OrderedMap<VData>>),
}

impl LoadedRegistry {
    /// Every map that was read, and every record in it, is well formed.
    pub open spec fn wf(&self) -> bool {
        match self {
            LoadedRegistry::Current(root) => root.wf() && infos_wf(root.spec_values()),
            LoadedRegistry::Legacy(old_root) => {
                &&& old_root.wf()
                &&& forall|k: int|
                    0 <= k < old_root.spec_values().len() ==> {
                        &&& (#[trigger] old_root.spec_values()[k]).wf()
                        &&& records_wf(old_root.spec_values()[k].spec_values())
                    }
            },
        }
    }

    /// The registry that was read.
    pub open spec fn registry(&self) -> Registry {
        match self {
            LoadedRegistry::Current(root) => root@,
            LoadedRegistry::Legacy(old_root) => reg_from_legacy(old_root@),
        }
    }
}

/// The names of the versions held of one target, in installation order.
fn version_names(info: &VInfo) -> (r: Vec<String>)
    requires
        info.wf(),
    ensures
        texts(r@) == key_seq(info@.versions),
{
    let mut out: Vec<String> = Vec::new();
    let mut i: usize = 0;
    proof {
        info.vdata_list.lemma_view();
    }
    while i < info.vdata_list.len()
        invariant
            info.wf(),
            i <= info.vdata_list.spec_keys().len(),
            info.vdata_list@.len() == info.vdata_list.spec_keys().len(),
            texts(out@) == key_seq(info@.versions).take(i as int),
        decreases info.vdata_list.spec_keys().len() - i,
    {
        let ghost prev = out@;
        let key = info.vdata_list.key_at(i);
        out.push(key.clone());
        assert(texts(out@) =~= texts(prev).push(key@));
        assert(key_seq(info@.versions).take(i + 1) =~= key_seq(info@.versions).take(
            i as int,
        ).push(key@));
        i += 1;
    }
    assert(key_seq(info@.versions).take(info.vdata_list@.len() as int) == key_seq(info@.versions));
    out
}

/// A version that agrees and is higher than the match so far is the match
/// among one version more.
proof fn lemma_new_best(names: Seq<Seq<char>>, input: Seq<char>, b: int, i: int)
    requires
        0 <= i < names.len(),
        is_best_match(names.take(i), input, b),
        components_agree(input, names[i]),
        version_order(names[i], names[b]) > 0,
    ensures
        is_best_match(names.take(i + 1), input, i),
{
    let t = names.take(i + 1);
    assert forall|j: int| 0 <= j < t.len() && components_agree(input, #[trigger] t[j]) implies {
        &&& version_order(t[j], t[i]) <= 0
        &&& j < i ==> version_order(t[j], t[i]) < 0
    } by {
        if j < i {
            assert(names.take(i)[j] == names[j]);
            assert(version_order(names[j], names[b]) <= 0);
            crate::version::lemma_order_antisymmetric(
                crate::version::version_numbers(names[i]),
                crate::version::version_numbers(names[b]),
            );
            crate::version::lemma_order_transitive(
                crate::version::version_numbers(names[j]),
                crate::version::version_numbers(names[b]),
                crate::version::version_numbers(names[i]),
            );
        } else {
            crate::version::lemma_order_equal(
                crate::version::version_numbers(names[i]),
                crate::version::version_numbers(names[i]),
            );
        }
    }
}

/// The first version that agrees is the match among the versions up to it.
proof fn lemma_first_best(names: Seq<Seq<char>>, input: Seq<char>, i: int)
    requires
        0 <= i < names.len(),
        forall|j: int| 0 <= j < i ==> !components_agree(input, names[j]),
        components_agree(input, names[i]),
    ensures
        is_best_match(names.take(i + 1), input, i),
{
    let t = names.take(i + 1);
    assert forall|j: int| 0 <= j < t.len() && components_agree(input, #[trigger] t[j]) implies {
        &&& version_order(t[j], t[i]) <= 0
        &&& j < i ==> version_order(t[j], t[i]) < 0
    } by {
        assert(t[j] == names[j]);
        crate::version::lemma_order_equal(
            crate::version::version_numbers(names[i]),
            crate::version::version_numbers(names[i]),
        );
    }
}

/// A version that does not agree, or is not higher than the match so far,
/// leaves the match as it is among one version more.
proof fn lemma_best_stays(names: Seq<Seq<char>>, input: Seq<char>, b: int, i: int)
    requires
        0 <= i < names.len(),
        is_best_match(names.take(i), input, b),
        !components_agree(input, names[i]) || version_order(names[i], names[b]) <= 0,
    ensures
        is_best_match(names.take(i + 1), input, b),
{
    let t = names.take(i + 1);
    assert forall|j: int| 0 <= j < t.len() && components_agree(input, #[trigger] t[j]) implies {
        &&& version_order(t[j], t[b]) <= 0
        &&& j < b ==> version_order(t[j], t[b]) < 0
    } by {
        if j < i {
            assert(names.take(i)[j] == names[j]);
        }
    }
}

} // verus!
