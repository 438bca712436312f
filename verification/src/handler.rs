//! The manager's actions on a registry and a workspace that were loaded:
//! what each changes in them, and what is left to do on the file system.

use crate::ordered::{del, key_seq, lookup, put};
use crate::platform::Platform;
use crate::resolver::{
    apply, edge_views, is_lib, prune, pruned_registry, relinks, resolution, resolve, target_is_lib,
    Edge,
};
use crate::shims::{
    expanded_record, fresh_program, hydrated, record_of, with_envs, with_path, Program, ProgramView,
};
use crate::version::{split_on, split_text};
use crate::text::{pair_texts, str_eq, texts, Pairs};
use crate::versiondb::{
    is_best_match, lemma_remove_record, listing, opt_text, reg_add_binding, reg_has_target,
    reg_has_version, reg_match, reg_record, reg_remove_record, reg_set_filename, reg_set_record,
    reg_set_type, reg_versions, Registry, VDataView, VersionDB,
};
use crate::workspace::{overlay, selections_matching, Workspace, WorkspaceView};
use vstd::prelude::*;

verus! {

/// Why a version could not be selected.
#[derive(Clone, Copy, Debug, PartialEq, Eq, Structural)]
pub enum UseError {
    /// The registry does not have the target.
    TargetMissing,
    /// The registry has the target, but no version that the request stands
    /// for.
    VersionMissing,
}

/// What selecting a version has done and leaves to do.
#[derive(Debug)]
pub struct UseOutcome {
    /// The version that was selected.
    pub version: String,
    /// The edges that were taken out of the registry.
    pub pruned: Vec<Edge>,
    /// The libraries whose link is to be made anew, each with its version.
    pub relinks: Vec<(String, String)>,
}

/// Whether `found` is the version of `target` that the request `version`
/// stands for: `version` itself where the registry has it, else the match
/// among the versions whose components agree with it.
pub open spec fn stands_for(
    db: Registry,
    target: Seq<char>,
    version: Seq<char>,
    found: Seq<char>,
) -> bool {
    if reg_has_version(db, target, version) {
        found == version
    } else {
        exists|i: int|
            is_best_match(key_seq(reg_versions(db, target)), version, i) && found
                == #[trigger] key_seq(reg_versions(db, target))[i]
    }
}

/// Whether the request `version` stands for some version of `target`.
pub open spec fn can_select(db: Registry, target: Seq<char>, version: Seq<char>) -> bool {
    reg_has_version(db, target, version) || exists|j: int|
        0 <= j < reg_versions(db, target).len() && crate::version::components_agree(
            version,
            #[trigger] key_seq(reg_versions(db, target))[j],
        )
}

/// The version of `target` that the request `version` stands for.
pub fn select_version(db: &VersionDB, target: &str, version: &str) -> (r: Option<String>)
    requires
        db.wf(),
    ensures
        r is Some <==> can_select(db@, target@, version@),
        r matches Some(found) ==> stands_for(db@, target@, version@, found@) && reg_has_version(
            db@,
            target@,
            found@,
        ),
{
    if db.has_version(target, version) {
        return Some(String::from_str(version));
    }
    match db.match_first_version(target, version) {
        Some(found) => {
            proof {
                let names = key_seq(reg_versions(db@, target@));
                let i = choose|i: int|
                    is_best_match(names, version@, i) && found@ == #[trigger] names[i];
                assert(reg_versions(db@, target@)[i].0 == found@);
                assert(crate::version::components_agree(version@, names[i]));
            }
            Some(found.clone())
        },
        None => None,
    }
}

/// Selects a version of `target` in the workspace, and with it the versions
/// bound to it, and to those, and so on; takes out of the registry the edges
/// that were found to point at a version it does not have.
pub fn xvm_use(db: &mut VersionDB, ws: &mut Workspace, target: &str, version: &str) -> (r: Result<
    UseOutcome,
    UseError,
>)
    requires
        old(db).wf(),
        old(ws).wf(),
    ensures
        final(db).wf(),
        final(ws).wf(),
        final(db).file() == old(db).file(),
        final(ws).spec_file() == old(ws).spec_file(),
        r is Ok <==> reg_has_target(old(db)@, target@) && can_select(old(db)@, target@, version@),
        match r {
            Ok(out) => {
                &&& reg_has_target(old(db)@, target@)
                &&& stands_for(old(db)@, target@, version@, out.version@)
                &&& edge_views(out.pruned@) == resolution(old(db)@, target@, out.version@).pruned
                &&& final(db)@ == pruned_registry(old(db)@, edge_views(out.pruned@))
                &&& final(ws)@ == (WorkspaceView {
                    versions: overlay(
                        old(ws)@.versions,
                        resolution(old(db)@, target@, out.version@).resolved,
                    ),
                    ..old(ws)@
                })
                &&& pair_texts(out.relinks@) == relinks(
                    final(db)@,
                    old(ws)@.versions,
                    resolution(old(db)@, target@, out.version@).resolved,
                )
            },
            Err(e) => {
                &&& final(db)@ == old(db)@
                &&& final(ws)@ == old(ws)@
                &&& e == UseError::TargetMissing <==> !reg_has_target(old(db)@, target@)
            },
        },
{
    if !db.has_target(target) {
        return Err(UseError::TargetMissing);
    }
    let selected = match select_version(db, target, version) {
        Some(v) => v,
        None => {
            return Err(UseError::VersionMissing);
        },
    };
    let found = resolve(db, target, selected.as_str());
    prune(db, &found.pruned);
    let relinks = apply(db, ws, &found.resolved);
    Ok(UseOutcome { version: selected, pruned: found.pruned, relinks })
}

/// A program for the version `version` of `target` as the registry holds
/// it: with the target's kind and file name where `with_type` asks for the
/// kind, the file name alone where it does not, and the record taken over
/// with its placeholders replaced from `vars`.
pub open spec fn program_of(
    db: Registry,
    target: Seq<char>,
    version: Seq<char>,
    rec: VDataView,
    with_type: bool,
    platform: Platform,
    vars: Pairs,
) -> ProgramView {
    let base = fresh_program(target, version, platform);
    let named = match lookup(db, target) {
        Some(info) => ProgramView {
            filename: info.filename,
            vtype: if with_type {
                info.vtype
            } else {
                None
            },
            ..base
        },
        None => base,
    };
    hydrated(named, expanded_record(rec, vars))
}

/// A program for the version `version` of `target` as the registry holds it.
pub fn load_program(
    db: &VersionDB,
    target: &str,
    version: &str,
    with_type: bool,
    platform: Platform,
    vars: &Vec<(String, String)>,
) -> (r: Option<Program>)
    requires
        db.wf(),
    ensures
        match r {
            Some(p) => reg_record(db@, target@, version@) matches Some(rec) && p@ == program_of(
                db@,
                target@,
                version@,
                rec,
                with_type,
                platform,
                pair_texts(vars@),
            ),
            None => reg_record(db@, target@, version@) is None,
        },
{
    let rec = match db.get_vdata(target, version) {
        Some(rec) => rec,
        None => {
            return None;
        },
    };
    let mut program = Program::new(target, version, platform);
    match db.get_filename(target) {
        Some(f) => {
            program.set_filename(f.as_str());
        },
        None => {},
    }
    if with_type {
        match db.get_type(target) {
            Some(t) => {
                program.set_type(t.as_str());
            },
            None => {},
        }
    }
    program.hydrate(rec, vars);
    Some(program)
}

/// What is left to do on the file system after a removal, as plain values.
pub enum CleanupView {
    Nothing,
    RemoveLink { file: Seq<char> },
    DeleteShim,
    NewDefault { version: Seq<char>, relink: Option<ProgramView> },
}

/// What is left to do on the file system after a removal.
#[derive(Debug)]
pub enum Cleanup {
    /// Nothing.
    Nothing,
    /// The target is gone and was a library: remove its link, the file
    /// `file` in the lib directory.
    RemoveLink { file: String },
    /// The target is gone: delete its shim.
    DeleteShim,
    /// The selected version is gone and `version` is selected in its place;
    /// for a library `relink` is the program whose link is to be made anew.
    NewDefault { version: String, relink: Option<Program> },
}

impl View for Cleanup {
    type V = CleanupView;

    open spec fn view(&self) -> CleanupView {
        match self {
            Cleanup::Nothing => CleanupView::Nothing,
            Cleanup::RemoveLink { file } => CleanupView::RemoveLink { file: file@ },
            Cleanup::DeleteShim => CleanupView::DeleteShim,
            Cleanup::NewDefault { version, relink } => CleanupView::NewDefault {
                version: version@,
                relink: match relink {
                    Some(p) => Some(p@),
                    None => None,
                },
            },
        }
    }
}

/// What a removal came to.
#[derive(Debug)]
pub enum RemoveOutcome {
    /// The registry does not have the version: nothing was changed.
    NotFound,
    /// The removal was made.
    Removed(Cleanup),
}

/// The registry after the version `version` of `target` was removed, or all
/// of `target` where no version is given.
pub open spec fn registry_after_remove(
    db: Registry,
    target: Seq<char>,
    version: Option<Seq<char>>,
) -> Registry {
    match version {
        Some(v) => reg_remove_record(db, target, v),
        None => del(db, target),
    }
}

/// The file that links to the library `target` in the lib directory: its
/// file name, or its name with `.so` behind it.
pub open spec fn link_name(db: Registry, target: Seq<char>) -> Seq<char> {
    match lookup(db, target) {
        Some(info) => match info.filename {
            Some(f) => f,
            None => target + ".so"@,
        },
        None => target + ".so"@,
    }
}

/// Whether the removal takes away the version that the workspace selects.
pub open spec fn removes_selected(
    ws: WorkspaceView,
    target: Seq<char>,
    version: Option<Seq<char>>,
) -> bool {
    version matches Some(v) && lookup(ws.versions, target) == Some(v)
}

/// The workspace after a removal: a target that is gone is no longer
/// selected; where the selected version is gone and others are left, the
/// one installed first is selected.
pub open spec fn workspace_after_remove(
    db: Registry,
    ws: WorkspaceView,
    target: Seq<char>,
    version: Option<Seq<char>>,
) -> WorkspaceView {
    let after = registry_after_remove(db, target, version);
    if !reg_has_target(after, target) {
        WorkspaceView { versions: del(ws.versions, target), ..ws }
    } else if removes_selected(ws, target, version) {
        WorkspaceView {
            versions: put(ws.versions, target, reg_versions(after, target)[0].0),
            ..ws
        }
    } else {
        ws
    }
}

/// What is left to do on the file system after a removal.
pub open spec fn cleanup_of(
    db: Registry,
    ws: WorkspaceView,
    target: Seq<char>,
    version: Option<Seq<char>>,
    platform: Platform,
    vars: Pairs,
) -> CleanupView {
    let after = registry_after_remove(db, target, version);
    if !reg_has_target(after, target) {
        if is_lib(db, target) {
            CleanupView::RemoveLink { file: link_name(db, target) }
        } else {
            CleanupView::DeleteShim
        }
    } else if removes_selected(ws, target, version) {
        let first = reg_versions(after, target)[0];
        CleanupView::NewDefault {
            version: first.0,
            relink: if is_lib(db, target) {
                Some(program_of(after, target, first.0, first.1, false, platform, vars))
            } else {
                None
            },
        }
    } else {
        CleanupView::Nothing
    }
}

/// Removes the version `version` of `target` from the registry, or all of
/// `target` where no version is given, and brings the workspace in line.
pub fn xvm_remove(
    db: &mut VersionDB,
    ws: &mut Workspace,
    target: &str,
    version: Option<&str>,
    platform: Platform,
    vars: &Vec<(String, String)>,
) -> (r: RemoveOutcome)
    requires
        old(db).wf(),
        old(ws).wf(),
    ensures
        final(db).wf(),
        final(ws).wf(),
        final(db).file() == old(db).file(),
        final(ws).spec_file() == old(ws).spec_file(),
        match r {
            RemoveOutcome::NotFound => {
                &&& version matches Some(v) && !reg_has_version(old(db)@, target@, v@)
                &&& final(db)@ == old(db)@
                &&& final(ws)@ == old(ws)@
            },
            RemoveOutcome::Removed(cleanup) => {
                let asked = match version {
                    Some(v) => Some(v@),
                    None => None,
                };
                &&& version matches Some(v) ==> reg_has_version(old(db)@, target@, v@)
                &&& final(db)@ == registry_after_remove(old(db)@, target@, asked)
                &&& final(ws)@ == workspace_after_remove(old(db)@, old(ws)@, target@, asked)
                &&& cleanup@ == cleanup_of(
                    old(db)@,
                    old(ws)@,
                    target@,
                    asked,
                    platform,
                    pair_texts(vars@),
                )
            },
        },
{
    let was_lib = target_is_lib(db, target);
    let link = match db.get_filename(target) {
        Some(f) => f.clone(),
        None => {
            let mut name = String::from_str(target);
            name.append(".so");
            name
        },
    };
    let mut selected_removed = false;
    proof {
        db.lemma_valid();
    }
    match version {
        Some(v) => {
            if !db.has_version(target, v) {
                return RemoveOutcome::NotFound;
            }
            selected_removed = match ws.version(target) {
                Some(cur) => str_eq(cur.as_str(), v),
                None => false,
            };
            proof {
                lemma_remove_record(db@, target@, v@);
            }
            db.remove_vdata(target, v);
        },
        None => {
            db.remove_all_vdata(target);
        },
    }
    if db.is_empty(target) {
        ws.remove(target);
        if was_lib {
            RemoveOutcome::Removed(Cleanup::RemoveLink { file: link })
        } else {
            RemoveOutcome::Removed(Cleanup::DeleteShim)
        }
    } else if selected_removed {
        let first = match db.get_first_version(target) {
            Some(first) => first.clone(),
            None => {
                return RemoveOutcome::Removed(Cleanup::Nothing);
            },
        };
        ws.set_version(target, first.as_str());
        let relink = if was_lib {
            load_program(db, target, first.as_str(), false, platform, vars)
        } else {
            None
        };
        proof {
            db.lemma_valid();
            crate::versiondb::lemma_versions_distinct(db@, target@);
            crate::ordered::lemma_key_index(reg_versions(db@, target@), 0);
        }
        RemoveOutcome::Removed(Cleanup::NewDefault { version: first, relink })
    } else {
        RemoveOutcome::Removed(Cleanup::Nothing)
    }
}

/// Why a target could not be run.
#[derive(Clone, Copy, Debug, PartialEq, Eq, Structural)]
pub enum RunError {
    /// No version is asked for and the workspace selects none.
    NotSelected,
    /// The registry does not have the version.
    VersionMissing,
}

/// The version of `target` to run: the one asked for, else the one that the
/// workspace selects.
pub open spec fn version_to_run(
    ws: WorkspaceView,
    target: Seq<char>,
    version: Option<Seq<char>>,
) -> Option<Seq<char>> {
    match version {
        Some(v) => Some(v),
        None => lookup(ws.versions, target),
    }
}

/// The program to launch for `target`: the version asked for, or the one
/// that the workspace selects, as the registry holds it, with `args` to
/// pass on.
pub fn xvm_run(
    db: &VersionDB,
    ws: &Workspace,
    target: &str,
    version: Option<&str>,
    args: &Vec<String>,
    platform: Platform,
    vars: &Vec<(String, String)>,
) -> (r: Result<Program, RunError>)
    requires
        db.wf(),
        ws.wf(),
    ensures
        match r {
            Ok(p) => {
                let asked = match version {
                    Some(v) => Some(v@),
                    None => None,
                };
                &&& version_to_run(ws@, target@, asked) matches Some(v)
                &&& reg_record(db@, target@, v) matches Some(rec)
                &&& p@ == (ProgramView {
                    args: texts(args@),
                    ..hydrated(
                        fresh_program(target@, v, platform),
                        expanded_record(rec, pair_texts(vars@)),
                    )
                })
            },
            Err(RunError::NotSelected) => version is None && lookup(ws@.versions, target@) is None,
            Err(RunError::VersionMissing) => {
                let asked = match version {
                    Some(v) => Some(v@),
                    None => None,
                };
                version_to_run(ws@, target@, asked) matches Some(v) && reg_record(
                    db@,
                    target@,
                    v,
                ) is None
            },
        },
{
    let chosen: String = match version {
        Some(v) => String::from_str(v),
        None => match ws.version(target) {
            Some(v) => v.clone(),
            None => {
                return Err(RunError::NotSelected);
            },
        },
    };
    let rec = match db.get_vdata(target, chosen.as_str()) {
        Some(rec) => rec,
        None => {
            return Err(RunError::VersionMissing);
        },
    };
    let mut program = Program::new(target, chosen.as_str(), platform);
    program.hydrate(rec, vars);
    program.add_args(args);
    proof {
        crate::shims::lemma_hydrated(
            fresh_program(target@, chosen@, platform),
            expanded_record(rec@, pair_texts(vars@)),
        );
        assert(Seq::<Seq<char>>::empty() + texts(args@) =~= texts(args@));
    }
    Ok(program)
}

/// What is known of a target that information is asked of.
#[derive(Debug)]
pub enum InfoOutcome {
    /// The registry does not have the target.
    TargetMissing,
    /// No version is asked for and the workspace selects none.
    NoVersion,
    /// No version of the target agrees with the one asked for or selected.
    VersionMissing,
    /// The program of the version found.
    Found(Program),
}

/// The program of the version of `target` that information is asked of: the
/// match for the version asked for or, without one, for the version that
/// the workspace selects.
pub fn xvm_info(
    db: &VersionDB,
    ws: &Workspace,
    target: &str,
    version: Option<&str>,
    platform: Platform,
    vars: &Vec<(String, String)>,
) -> (r: InfoOutcome)
    requires
        db.wf(),
        ws.wf(),
    ensures
        ({
            let asked = version_to_run(
                ws@,
                target@,
                match version {
                    Some(v) => Some(v@),
                    None => None,
                },
            );
            let names = key_seq(reg_versions(db@, target@));
            match r {
                InfoOutcome::TargetMissing => !reg_has_target(db@, target@),
                InfoOutcome::NoVersion => reg_has_target(db@, target@) && asked is None,
                InfoOutcome::VersionMissing => {
                    &&& reg_has_target(db@, target@)
                    &&& asked matches Some(v)
                    &&& forall|j: int|
                        0 <= j < names.len() ==> !crate::version::components_agree(
                            v,
                            #[trigger] names[j],
                        )
                },
                InfoOutcome::Found(p) => {
                    &&& reg_has_target(db@, target@)
                    &&& asked matches Some(v)
                    &&& exists|i: int|
                        is_best_match(names, v, i) && p@ == program_of(
                            db@,
                            target@,
                            #[trigger] names[i],
                            reg_versions(db@, target@)[i].1,
                            true,
                            platform,
                            pair_texts(vars@),
                        )
                },
            }
        }),
{
    if !db.has_target(target) {
        return InfoOutcome::TargetMissing;
    }
    let asked: String = match version {
        Some(v) => String::from_str(v),
        None => match ws.version(target) {
            Some(v) => v.clone(),
            None => {
                return InfoOutcome::NoVersion;
            },
        },
    };
    let found = match db.match_first_version(target, asked.as_str()) {
        Some(found) => found,
        None => {
            return InfoOutcome::VersionMissing;
        },
    };
    proof {
        db.lemma_valid();
        crate::versiondb::lemma_versions_distinct(db@, target@);
        let names = key_seq(reg_versions(db@, target@));
        let i = choose|i: int| is_best_match(names, asked@, i) && found@ == #[trigger] names[i];
        crate::ordered::lemma_key_index(reg_versions(db@, target@), i);
    }
    match load_program(db, target, found.as_str(), true, platform, vars) {
        Some(p) => InfoOutcome::Found(p),
        None => InfoOutcome::VersionMissing,
    }
}

/// One selection of a workspace and what the registry holds of it, as
/// plain values.
pub struct CurrentRowView {
    pub name: Seq<char>,
    pub version: Seq<char>,
    pub installed: bool,
    pub alias: Option<Seq<char>>,
}

/// One selection of a workspace and what the registry holds of it.
#[derive(Clone, Debug)]
pub struct CurrentRow {
    /// The target.
    pub name: String,
    /// The version selected.
    pub version: String,
    /// Whether the registry has that version.
    pub installed: bool,
    /// The alias of that version, where it has one.
    pub alias: Option<String>,
}

impl View for CurrentRow {
    type V = CurrentRowView;

    open spec fn view(&self) -> CurrentRowView {
        CurrentRowView {
            name: self.name@,
            version: self.version@,
            installed: self.installed,
            alias: crate::versiondb::opt_text(self.alias),
        }
    }
}

/// What each of the rows holds.
pub open spec fn row_views(rows: Seq<CurrentRow>) -> Seq<CurrentRowView> {
    rows.map_values(|r: CurrentRow| r@)
}

/// The row of one selection.
pub open spec fn row_of(db: Registry, e: (Seq<char>, Seq<char>)) -> CurrentRowView {
    CurrentRowView {
        name: e.0,
        version: e.1,
        installed: reg_has_version(db, e.0, e.1),
        alias: match reg_record(db, e.0, e.1) {
            Some(rec) => rec.alias,
            None => None,
        },
    }
}

/// How many of the rows are of a version that the registry has.
pub open spec fn installed_count(rows: Seq<CurrentRowView>) -> nat {
    rows.filter(|r: CurrentRowView| r.installed).len()
}

/// The selections of the workspace whose target name holds `target`, each
/// with whether the registry has the version and with its alias, and how
/// many of them the registry has.
pub fn xvm_current(db: &VersionDB, ws: &Workspace, target: &str) -> (r: (Vec<CurrentRow>, usize))
    requires
        db.wf(),
        ws.wf(),
    ensures
        row_views(r.0@) == selections_matching(ws@.versions, target@).map_values(
            |e: (Seq<char>, Seq<char>)| row_of(db@, e),
        ),
        r.1 == installed_count(row_views(r.0@)),
{
    let found = ws.match_by(target);
    let ghost wanted = selections_matching(ws@.versions, target@).map_values(
        |e: (Seq<char>, Seq<char>)| row_of(db@, e),
    );
    let ghost installed = |r: CurrentRowView| r.installed;
    let mut rows: Vec<CurrentRow> = Vec::new();
    let mut count: usize = 0;
    let mut i: usize = 0;
    proof {
        reveal(Seq::filter);
        assert(row_views(rows@) =~= wanted.take(0));
    }
    while i < found.len()
        invariant
            i <= found.len(),
            db.wf(),
            crate::workspace::pairs(found@) == selections_matching(ws@.versions, target@),
            wanted == selections_matching(ws@.versions, target@).map_values(
                |e: (Seq<char>, Seq<char>)| row_of(db@, e),
            ),
            installed == |r: CurrentRowView| r.installed,
            row_views(rows@) == wanted.take(i as int),
            count == row_views(rows@).filter(installed).len(),
            count <= i,
        decreases found.len() - i,
    {
        let name = found[i].0;
        let version = found[i].1;
        let rec = db.get_vdata(name.as_str(), version.as_str());
        let row = match rec {
            Some(rec) => CurrentRow {
                name: name.clone(),
                version: version.clone(),
                installed: true,
                alias: rec.alias.clone(),
            },
            None => CurrentRow {
                name: name.clone(),
                version: version.clone(),
                installed: false,
                alias: None,
            },
        };
        let ghost prev = rows@;
        proof {
            reveal(Seq::filter);
            assert(crate::workspace::pairs(found@)[i as int] == (name@, version@));
            assert(wanted[i as int] == row@);
            assert(wanted.take(i + 1) =~= wanted.take(i as int).push(row@));
            assert(wanted.take(i + 1).drop_last() =~= wanted.take(i as int));
        }
        if row.installed {
            count += 1;
        }
        rows.push(row);
        assert(row_views(rows@) =~= row_views(prev).push(row@));
        i += 1;
    }
    assert(wanted.take(found.len() as int) == wanted);
    (rows, count)
}

/// What a listing shows, as plain values.
pub enum ListingView {
    Versions(Seq<Seq<char>>),
    Matches(Seq<(Seq<char>, Seq<Seq<char>>)>),
}

/// What a listing shows.
#[derive(Clone, Debug)]
pub enum Listing {
    /// The versions of the target asked for.
    Versions(Vec<String>),
    /// The targets whose name holds what was asked for, each with its
    /// versions.
    Matches(Vec<(String, Vec<String>)>),
}

impl View for Listing {
    type V = ListingView;

    open spec fn view(&self) -> ListingView {
        match self {
            Listing::Versions(v) => ListingView::Versions(texts(v@)),
            Listing::Matches(m) => ListingView::Matches(listing(m@)),
        }
    }
}

/// The versions of `target` where the registry has a target of that name,
/// else the targets whose name holds `target`, each with its versions.
pub fn xvm_list(db: &VersionDB, target: &str) -> (r: Listing)
    requires
        db.wf(),
    ensures
        r@ == if reg_has_target(db@, target@) {
            ListingView::Versions(key_seq(reg_versions(db@, target@)))
        } else {
            ListingView::Matches(reg_match(db@, target@))
        },
{
    match db.get_all_version(target) {
        Some(versions) => Listing::Versions(versions),
        None => Listing::Matches(db.match_by(target)),
    }
}

/// What is to be done about the shims after a workspace was switched on or
/// off, as plain values.
pub enum ShimSweepView {
    Nothing,
    Restore(Seq<Seq<char>>),
    Remove(Seq<Seq<char>>),
}

/// What is to be done about the shims after a workspace was switched on or
/// off.
#[derive(Clone, Debug)]
pub enum ShimSweep {
    /// Nothing.
    Nothing,
    /// Make the shim of each of the targets.
    Restore(Vec<String>),
    /// Delete the shim of each of the targets.
    Remove(Vec<String>),
}

impl View for ShimSweep {
    type V = ShimSweepView;

    open spec fn view(&self) -> ShimSweepView {
        match self {
            ShimSweep::Nothing => ShimSweepView::Nothing,
            ShimSweep::Restore(t) => ShimSweepView::Restore(texts(t@)),
            ShimSweep::Remove(t) => ShimSweepView::Remove(texts(t@)),
        }
    }
}

/// The workspace after its settings were changed as asked.
pub open spec fn workspace_after_settings(
    ws: WorkspaceView,
    name: Option<Seq<char>>,
    active: Option<bool>,
    inherit: Option<bool>,
) -> WorkspaceView {
    WorkspaceView {
        name: match name {
            Some(n) => n,
            None => ws.name,
        },
        active: match active {
            Some(a) => a,
            None => ws.active,
        },
        inherit: match inherit {
            Some(i) => i,
            None => ws.inherit,
        },
        ..ws
    }
}

/// What is to be done about the shims: where the workspace called `global`
/// is switched on, the shim of every target it selects is made; where it is
/// switched off, each is deleted.
pub open spec fn sweep_of(ws: WorkspaceView, active: Option<bool>) -> ShimSweepView {
    match active {
        Some(a) => if ws.name == "global"@ {
            if a {
                ShimSweepView::Restore(key_seq(ws.versions))
            } else {
                ShimSweepView::Remove(key_seq(ws.versions))
            }
        } else {
            ShimSweepView::Nothing
        },
        None => ShimSweepView::Nothing,
    }
}

/// Changes the settings of a workspace as asked: its name, whether it is
/// active, whether it inherits. Returns whether anything was asked for, so
/// that the workspace is to be saved, and what is to be done about the
/// shims.
pub fn xvm_workspace(
    ws: &mut Workspace,
    name: Option<&str>,
    active: Option<bool>,
    inherit: Option<bool>,
) -> (r: (bool, ShimSweep))
    requires
        old(ws).wf(),
    ensures
        final(ws).wf(),
        final(ws).spec_file() == old(ws).spec_file(),
        final(ws)@ == workspace_after_settings(
            old(ws)@,
            match name {
                Some(n) => Some(n@),
                None => None,
            },
            active,
            inherit,
        ),
        r.0 == (name is Some || active is Some || inherit is Some),
        r.1@ == sweep_of(final(ws)@, active),
{
    let mut need_save = false;
    let mut sweep = ShimSweep::Nothing;
    match name {
        Some(n) => {
            ws.set_name(n);
            need_save = true;
        },
        None => {},
    }
    match active {
        Some(a) => {
            ws.set_active(&a);
            need_save = true;
            if str_eq(ws.name(), "global") {
                let targets = selected_targets(ws);
                if a {
                    sweep = ShimSweep::Restore(targets);
                } else {
                    sweep = ShimSweep::Remove(targets);
                }
            }
        },
        None => {},
    }
    match inherit {
        Some(i) => {
            ws.set_inherit(&i);
            need_save = true;
        },
        None => {},
    }
    (need_save, sweep)
}

/// The targets that the workspace selects a version of, in order.
pub fn selected_targets(ws: &Workspace) -> (r: Vec<String>)
    requires
        ws.wf(),
    ensures
        texts(r@) == key_seq(ws@.versions),
{
    let all = ws.all_versions();
    let mut out: Vec<String> = Vec::new();
    let mut i: usize = 0;
    assert(texts(out@) =~= key_seq(ws@.versions).take(0));
    while i < all.len()
        invariant
            i <= all.len(),
            crate::workspace::pairs(all@) == ws@.versions,
            texts(out@) == key_seq(ws@.versions).take(i as int),
        decreases all.len() - i,
    {
        let ghost prev = out@;
        out.push(all[i].0.clone());
        proof {
            assert(crate::workspace::pairs(all@)[i as int] == (
                all@[i as int].0@,
                all@[i as int].1@,
            ));
            assert(texts(out@) =~= texts(prev).push(all@[i as int].0@));
            assert(key_seq(ws@.versions).take(i + 1) =~= key_seq(ws@.versions).take(
                i as int,
            ).push(all@[i as int].0@));
        }
        i += 1;
    }
    assert(key_seq(ws@.versions).take(all.len() as int) == key_seq(ws@.versions));
    out
}

/// What is asked for when a version is added, as plain values.
pub struct AddRequestView {
    pub target: Seq<char>,
    pub version: Seq<char>,
    pub path: Option<Seq<char>>,
    pub alias: Option<Seq<char>>,
    pub vtype: Option<Seq<char>>,
    pub filename: Option<Seq<char>>,
    pub binding: Option<Seq<char>>,
    pub env_vars: Seq<Seq<char>>,
}

/// What is asked for when a version is added.
#[derive(Clone, Debug)]
pub struct AddRequest {
    /// The target.
    pub target: String,
    /// The version.
    pub version: String,
    /// The installation directory.
    pub path: Option<String>,
    /// A command line to run in place of the target's binary.
    pub alias: Option<String>,
    /// The kind of the target.
    pub vtype: Option<String>,
    /// The name of the target's file.
    pub filename: Option<String>,
    /// A version of another target to bind to, written `target@version`.
    pub binding: Option<String>,
    /// Variables to declare, each written `name=value`.
    pub env_vars: Vec<String>,
}

impl View for AddRequest {
    type V = AddRequestView;

    open spec fn view(&self) -> AddRequestView {
        AddRequestView {
            target: self.target@,
            version: self.version@,
            path: opt_text(self.path),
            alias: opt_text(self.alias),
            vtype: opt_text(self.vtype),
            filename: opt_text(self.filename),
            binding: opt_text(self.binding),
            env_vars: texts(self.env_vars@),
        }
    }
}

/// Why a version could not be added.
#[derive(Clone, Copy, Debug, PartialEq, Eq, Structural)]
pub enum AddError {
    /// The binding is not written `target@version`.
    BadBinding,
    /// The registry does not have the version to bind to.
    BindingNotFound,
    /// A variable is not written `name=value`.
    BadEnv,
    /// The kind is neither `direct` nor `lib`.
    BadType,
}

/// What adding a version has done and leaves to do.
#[derive(Debug)]
pub struct AddOutcome {
    /// Whether the version was selected in the workspace, the target being
    /// new.
    pub made_default: bool,
    /// The kind of the target that was replaced by another.
    pub type_replaced: Option<String>,
    /// The file name of the target that was replaced by another.
    pub filename_replaced: Option<String>,
    /// Whether a library link is to be made; where not, a shim is.
    pub link: bool,
    /// The program that was added.
    pub program: Program,
}

/// The target and the version that a binding names: the two parts that one
/// `@` separates.
pub open spec fn parsed_binding(b: Seq<char>) -> Option<(Seq<char>, Seq<char>)> {
    let parts = split_on(b, '@');
    if parts.len() == 2 {
        Some((parts[0], parts[1]))
    } else {
        None
    }
}

/// The name and the value that a declaration gives: what stands before the
/// first `=`, and what stands between it and the next or the end.
pub open spec fn parsed_env(s: Seq<char>) -> Option<(Seq<char>, Seq<char>)> {
    let parts = split_on(s, '=');
    if parts.len() >= 2 {
        Some((parts[0], parts[1]))
    } else {
        None
    }
}

/// The names and values that the declarations give, where each of them
/// gives one.
pub open spec fn parsed_envs(list: Seq<Seq<char>>) -> Option<Pairs>
    decreases list.len(),
{
    if list.len() == 0 {
        Some(Seq::empty())
    } else {
        match (parsed_envs(list.drop_last()), parsed_env(list.last())) {
            (Some(head), Some(e)) => Some(head.push(e)),
            _ => None,
        }
    }
}

/// The target and the version that the binding `b` names.
pub fn parse_binding(b: &str) -> (r: Option<(String, String)>)
    ensures
        match r {
            Some(e) => parsed_binding(b@) == Some((e.0@, e.1@)),
            None => parsed_binding(b@) is None,
        },
{
    let parts = split_text(b, '@');
    if parts.len() == 2 {
        assert(texts(parts@)[0] == parts@[0]@ && texts(parts@)[1] == parts@[1]@);
        Some((parts[0].clone(), parts[1].clone()))
    } else {
        None
    }
}

/// The names and values that the declarations `list` give.
pub fn parse_envs(list: &Vec<String>) -> (r: Option<Vec<(String, String)>>)
    ensures
        match r {
            Some(envs) => parsed_envs(texts(list@)) == Some(pair_texts(envs@)),
            None => parsed_envs(texts(list@)) is None,
        },
{
    let mut out: Vec<(String, String)> = Vec::new();
    let mut i: usize = 0;
    assert(texts(list@).take(0) =~= Seq::empty());
    assert(pair_texts(out@) =~= Seq::empty());
    while i < list.len()
        invariant
            i <= list.len(),
            parsed_envs(texts(list@).take(i as int)) == Some(pair_texts(out@)),
        decreases list.len() - i,
    {
        let parts = split_text(list[i].as_str(), '=');
        proof {
            let all = texts(list@);
            assert(all.take(i + 1).drop_last() == all.take(i as int));
            assert(all.take(i + 1).last() == list@[i as int]@);
        }
        if parts.len() < 2 {
            proof {
                lemma_parsed_envs_prefix(texts(list@), i + 1);
            }
            return None;
        }
        assert(texts(parts@)[0] == parts@[0]@ && texts(parts@)[1] == parts@[1]@);
        let ghost prev = out@;
        out.push((parts[0].clone(), parts[1].clone()));
        assert(pair_texts(out@) =~= pair_texts(prev).push((parts@[0]@, parts@[1]@)));
        i += 1;
    }
    assert(texts(list@).take(list.len() as int) == texts(list@));
    Some(out)
}

/// Where the declarations up to some place give no list, all of them give
/// none.
proof fn lemma_parsed_envs_prefix(list: Seq<Seq<char>>, n: int)
    requires
        0 <= n <= list.len(),
        parsed_envs(list.take(n)) is None,
    ensures
        parsed_envs(list) is None,
    decreases list.len(),
{
    if n == list.len() {
        assert(list.take(n) == list);
    } else {
        assert(list.drop_last().take(n) == list.take(n));
        lemma_parsed_envs_prefix(list.drop_last(), n);
    }
}

/// The program that a request describes: bound as asked, with the kind and
/// the file name that the registry holds of the target unless the request
/// gives others, and with the directory, the alias and the variables of the
/// request.
pub open spec fn requested_program(
    db: Registry,
    req: AddRequestView,
    platform: Platform,
) -> ProgramView {
    let base = fresh_program(req.target, req.version, platform);
    let bound = match req.binding {
        Some(b) => ProgramView { bindings: seq![parsed_binding(b)->0], ..base },
        None => base,
    };
    let known = match lookup(db, req.target) {
        Some(info) => ProgramView {
            vtype: match req.vtype {
                Some(t) => Some(t),
                None => info.vtype,
            },
            filename: match req.filename {
                Some(f) => Some(f),
                None => info.filename,
            },
            ..bound
        },
        None => ProgramView { vtype: req.vtype, filename: req.filename, ..bound },
    };
    let placed = match req.path {
        Some(p) => with_path(known, p),
        None => known,
    };
    let named = match req.alias {
        Some(a) => ProgramView { alias: Some(a), ..placed },
        None => placed,
    };
    with_envs(named, parsed_envs(req.env_vars)->0)
}

/// The registry after a request was carried out: the version bound to gets
/// an edge to the new version, the kind and the file name of the target are
/// set where the request gives them, and the record of the new version is
/// set.
pub open spec fn registry_after_add(
    db: Registry,
    req: AddRequestView,
    platform: Platform,
) -> Registry {
    let bound = match req.binding {
        Some(b) => {
            let owner = parsed_binding(b)->0;
            reg_add_binding(db, owner.0, owner.1, req.target, req.version)
        },
        None => db,
    };
    let typed = match req.vtype {
        Some(t) => reg_set_type(bound, req.target, t),
        None => bound,
    };
    let named = match req.filename {
        Some(f) => reg_set_filename(typed, req.target, f),
        None => typed,
    };
    reg_set_record(named, req.target, req.version, record_of(requested_program(db, req, platform)))
}

/// Why a request cannot be carried out, where it cannot.
pub open spec fn add_error(db: Registry, req: AddRequestView) -> Option<AddError> {
    let unbound: Option<AddError> = match req.binding {
        Some(b) => match parsed_binding(b) {
            Some(owner) => if reg_has_version(db, owner.0, owner.1) {
                None
            } else {
                Some(AddError::BindingNotFound)
            },
            None => Some(AddError::BadBinding),
        },
        None => None,
    };
    if unbound is Some {
        unbound
    } else if parsed_envs(req.env_vars) is None {
        Some(AddError::BadEnv)
    } else if req.vtype matches Some(t) && t != "direct"@ && t != "lib"@ {
        Some(AddError::BadType)
    } else {
        None
    }
}

/// Adds a version of a target to the registry as the request describes it.
/// The first version of a target is selected in the workspace. A request
/// that cannot be carried out changes nothing.
pub fn xvm_add(db: &mut VersionDB, ws: &mut Workspace, req: &AddRequest, platform: Platform) -> (r:
    Result<AddOutcome, AddError>)
    requires
        old(db).wf(),
        old(ws).wf(),
    ensures
        final(db).wf(),
        final(ws).wf(),
        final(db).file() == old(db).file(),
        final(ws).spec_file() == old(ws).spec_file(),
        match r {
            Ok(out) => {
                &&& add_error(old(db)@, req@) is None
                &&& final(db)@ == registry_after_add(old(db)@, req@, platform)
                &&& out.program@ == requested_program(old(db)@, req@, platform)
                &&& out.made_default == !reg_has_target(old(db)@, req@.target)
                &&& final(ws)@ == if out.made_default {
                    WorkspaceView {
                        versions: put(old(ws)@.versions, req@.target, req@.version),
                        ..old(ws)@
                    }
                } else {
                    old(ws)@
                }
                &&& out.link == (req@.vtype == Some("lib"@))
            },
            Err(e) => {
                &&& add_error(old(db)@, req@) == Some(e)
                &&& final(db)@ == old(db)@
                &&& final(ws)@ == old(ws)@
            },
        },
{
    let target = req.target.as_str();
    let version = req.version.as_str();
    let owner: Option<(String, String)> = match &req.binding {
        Some(b) => {
            match parse_binding(b.as_str()) {
                Some(owner) => {
                    if !db.has_version(owner.0.as_str(), owner.1.as_str()) {
                        return Err(AddError::BindingNotFound);
                    }
                    Some(owner)
                },
                None => {
                    return Err(AddError::BadBinding);
                },
            }
        },
        None => None,
    };
    let envs = match parse_envs(&req.env_vars) {
        Some(envs) => envs,
        None => {
            return Err(AddError::BadEnv);
        },
    };
    match &req.vtype {
        Some(t) => {
            if !str_eq(t.as_str(), "direct") && !str_eq(t.as_str(), "lib") {
                return Err(AddError::BadType);
            }
        },
        None => {},
    }
    let mut program = Program::new(target, version, platform);
    match &owner {
        Some(o) => {
            program.add_binding(o.0.as_str(), o.1.as_str());
            assert(Seq::<(Seq<char>, Seq<char>)>::empty().push((o.0@, o.1@)) =~= seq![
                (o.0@, o.1@),
            ]);
        },
        None => {},
    }
    let made_default = db.is_empty(target);
    match db.get_type(target) {
        Some(t) => {
            program.set_type(t.as_str());
        },
        None => {},
    }
    match db.get_filename(target) {
        Some(f) => {
            program.set_filename(f.as_str());
        },
        None => {},
    }
    match &req.vtype {
        Some(t) => {
            program.set_type(t.as_str());
        },
        None => {},
    }
    match &req.filename {
        Some(f) => {
            program.set_filename(f.as_str());
        },
        None => {},
    }
    match &req.path {
        Some(p) => {
            program.set_path(p.as_str());
        },
        None => {},
    }
    match &req.alias {
        Some(a) => {
            program.set_alias(a.as_str());
        },
        None => {},
    }
    add_pairs(&mut program, &envs);
    match owner {
        Some(o) => {
            db.add_binding(
                o.0.as_str(),
                o.1.as_str(),
                (String::from_str(target), String::from_str(version)),
            );
        },
        None => {},
    }
    if made_default {
        ws.set_version(target, version);
    }
    let mut type_replaced: Option<String> = None;
    let mut link = false;
    match &req.vtype {
        Some(t) => {
            type_replaced = db.set_type(target, t.as_str());
            link = str_eq(t.as_str(), "lib");
        },
        None => {},
    }
    let mut filename_replaced: Option<String> = None;
    match &req.filename {
        Some(f) => {
            filename_replaced = db.set_filename(target, f.as_str());
        },
        None => {},
    }
    db.set_vdata(target, version, program.vdata());
    Ok(AddOutcome { made_default, type_replaced, filename_replaced, link, program })
}

/// Declares each of the variables for the program, in order.
fn add_pairs(program: &mut Program, envs: &Vec<(String, String)>)
    ensures
        final(program)@ == with_envs(old(program)@, pair_texts(envs@)),
{
    let mut i: usize = 0;
    assert(pair_texts(envs@).take(0) =~= Seq::empty());
    while i < envs.len()
        invariant
            i <= envs.len(),
            program@ == with_envs(old(program)@, pair_texts(envs@).take(i as int)),
        decreases envs.len() - i,
    {
        proof {
            let all = pair_texts(envs@);
            assert(all.take(i + 1).drop_last() == all.take(i as int));
            assert(all.take(i + 1).last() == (envs@[i as int].0@, envs@[i as int].1@));
        }
        program.add_env(envs[i].0.as_str(), envs[i].1.as_str());
        i += 1;
    }
    assert(pair_texts(envs@).take(envs.len() as int) == pair_texts(envs@));
}

} // verus!
