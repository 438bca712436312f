//! Shims and launching: the names of the dispatch files in the bin
//! directory, and the program that a selected version is launched as, with
//! the environment composed for it.

use crate::platform::{lib_path_var_text, separator_text, Platform};
use crate::text::{
    chars_of, env_value, expand_placeholders, expanded, join3, join_nonempty, joined, lookup_env,
    pair_texts, split_whitespace, str_eq, texts, words, Pairs,
};
use crate::versiondb::{VData, VDataView};
use crate::ordered::OrderedMap;
use crate::workspace::overlay;
use vstd::prelude::*;

verus! {

/// The name under which the alias wrapper stands in the bin directory.
pub const XVM_ALIAS_WRAPPER: &'static str = "xvm-alias";

/// The kinds of dispatch.
#[derive(Clone, Copy, Debug, PartialEq, Eq, Structural)]
pub enum Type {
    Direct,
    Shim,
    Alias,
}

/// The directories of one installation, as plain values.
pub struct ShimDirsView {
    pub workspace_dir: Seq<char>,
    pub bindir: Seq<char>,
    pub libdir: Seq<char>,
    pub shim_bin: Seq<char>,
    pub platform: Platform,
}

/// The directories of one installation: where the shims and the library
/// links are, and the dispatcher binary that every shim is a copy of.
#[derive(Clone, Debug)]
pub struct ShimDirs {
    pub workspace_dir: String,
    pub bindir: String,
    pub libdir: String,
    pub shim_bin: String,
    pub platform: Platform,
}

impl View for ShimDirs {
    type V = ShimDirsView;

    open spec fn view(&self) -> ShimDirsView {
        ShimDirsView {
            workspace_dir: self.workspace_dir@,
            bindir: self.bindir@,
            libdir: self.libdir@,
            shim_bin: self.shim_bin@,
            platform: self.platform,
        }
    }
}

/// The file of the shim of `target` in `dir`.
pub open spec fn shim_file_text(
    target: Seq<char>,
    dir: Seq<char>,
    platform: Platform,
) -> Seq<char> {
    match platform {
        Platform::Windows => dir + "/"@ + target + ".exe"@,
        _ => dir + "/"@ + target,
    }
}

/// The file of the shim of `target` in `dir`: the target's name, with `.exe`
/// behind it on Windows.
pub fn shim_file(target: &str, dir: &str, platform: Platform) -> (r: String)
    ensures
        r@ == shim_file_text(target@, dir@, platform),
{
    let mut r = join3(dir, "/", target);
    match platform {
        Platform::Windows => {
            r.append(".exe");
        },
        _ => {},
    }
    r
}

/// The file of a shim script, what stands in it for the arguments, and its
/// first line.
pub open spec fn shim_script_text(target: Seq<char>, dir: Seq<char>, platform: Platform) -> (
    Seq<char>,
    Seq<char>,
    Seq<char>,
) {
    match platform {
        Platform::Windows => (dir + "/"@ + target + ".bat"@, "%*"@, "@echo off"@),
        _ => (dir + "/"@ + target, "\"$@\""@, "#!/bin/sh"@),
    }
}

/// The file of the shim script of `target` in `dir`, what stands in the
/// script for the arguments it is called with, and the script's first line.
pub fn shim_script_file(target: &str, dir: &str, platform: Platform) -> (r: (
    String,
    &'static str,
    &'static str,
))
    ensures
        (r.0@, r.1@, r.2@) == shim_script_text(target@, dir@, platform),
{
    match platform {
        Platform::Windows => {
            let mut sfile = join3(dir, "/", target);
            sfile.append(".bat");
            (sfile, "%*", "@echo off")
        },
        _ => (join3(dir, "/", target), "\"$@\"", "#!/bin/sh"),
    }
}

/// What a shim script holds: its first line, then `content` and what stands
/// for the arguments.
pub fn shim_script_content(content: &str, platform: Platform) -> (r: String)
    ensures
        r@ == shim_script_text(Seq::empty(), Seq::empty(), platform).2 + "\n"@ + content@ + " "@
            + shim_script_text(Seq::empty(), Seq::empty(), platform).1,
{
    let (_, placeholder, header) = shim_script_file("", "", platform);
    let mut r = join3(header, "\n", content);
    r.append(" ");
    r.append(placeholder);
    r
}

/// The directories of the installation under `workspace_dir`.
pub fn init(workspace_dir: &str, platform: Platform) -> (r: ShimDirs)
    ensures
        r@ == (ShimDirsView {
            workspace_dir: workspace_dir@,
            bindir: workspace_dir@ + "/"@ + "bin"@,
            libdir: workspace_dir@ + "/"@ + "lib"@,
            shim_bin: shim_file_text("xvm-shim"@, workspace_dir@ + "/"@ + "bin"@, platform),
            platform,
        }),
{
    let bindir = join3(workspace_dir, "/", "bin");
    let libdir = join3(workspace_dir, "/", "lib");
    let shim_bin = shim_file("xvm-shim", bindir.as_str(), platform);
    ShimDirs { workspace_dir: String::from_str(workspace_dir), bindir, libdir, shim_bin, platform }
}

/// What is to be done for a shim to be there.
#[derive(Clone, Copy, Debug, PartialEq, Eq, Structural)]
pub enum ShimAction {
    /// The shim is there: nothing.
    Keep,
    /// Copy the dispatcher to the shim's file.
    Create,
    /// Make the directory, then copy the dispatcher to the shim's file.
    CreateWithDir,
}

/// What `try_create` does, given whether the shim's file and its directory
/// are there.
pub fn try_create(shim_exists: bool, dir_exists: bool) -> (r: ShimAction)
    ensures
        r == if shim_exists {
            ShimAction::Keep
        } else if dir_exists {
            ShimAction::Create
        } else {
            ShimAction::CreateWithDir
        },
{
    if shim_exists {
        ShimAction::Keep
    } else if dir_exists {
        ShimAction::Create
    } else {
        ShimAction::CreateWithDir
    }
}

/// A program to launch, as plain values.
pub struct ProgramView {
    pub name: Seq<char>,
    pub version: Seq<char>,
    pub vtype: Option<Seq<char>>,
    pub filename: Option<Seq<char>>,
    pub alias: Option<Seq<char>>,
    pub path: Seq<char>,
    pub path_env: Seq<char>,
    pub ld_library_path_env: Option<Seq<char>>,
    pub envs: Pairs,
    pub bindings: Pairs,
    pub args: Seq<Seq<char>>,
    pub platform: Platform,
}

/// What a list of borrowed name and value pairs holds.
pub open spec fn str_pair_views<'a>(v: Seq<(&'a str, &'a str)>) -> Pairs {
    v.map_values(|e: (&str, &str)| (e.0@, e.1@))
}

/// `head` with `value` behind it as one more entry of a search path.
pub open spec fn appended(head: Seq<char>, value: Seq<char>, platform: Platform) -> Seq<char> {
    head + separator_text(platform) + value
}

/// The program after a variable was declared for it. `PATH` adds an entry
/// to its search path, `LD_LIBRARY_PATH` and `DYLD_LIBRARY_PATH` add one to
/// its search path for libraries, and any other variable joins the list of
/// variables to set.
pub open spec fn with_env(p: ProgramView, key: Seq<char>, value: Seq<char>) -> ProgramView {
    if key == "PATH"@ {
        ProgramView {
            path_env: if p.path_env.len() == 0 {
                value
            } else {
                appended(p.path_env, value, p.platform)
            },
            ..p
        }
    } else if key == "LD_LIBRARY_PATH"@ || key == "DYLD_LIBRARY_PATH"@ {
        ProgramView {
            ld_library_path_env: Some(
                match p.ld_library_path_env {
                    Some(held) => appended(held, value, p.platform),
                    None => value,
                },
            ),
            ..p
        }
    } else {
        ProgramView { envs: p.envs.push((key, value)), ..p }
    }
}

/// The program after each of the variables was declared for it, in order.
pub open spec fn with_envs(p: ProgramView, envs: Pairs) -> ProgramView
    decreases envs.len(),
{
    if envs.len() == 0 {
        p
    } else {
        with_env(with_envs(p, envs.drop_last()), envs.last().0, envs.last().1)
    }
}

/// The program after its installation directory was set: the directory is
/// also an entry of its search path.
pub open spec fn with_path(p: ProgramView, path: Seq<char>) -> ProgramView {
    with_env(ProgramView { path, ..p }, "PATH"@, path)
}

/// The name under which a record keeps the search path for libraries.
pub open spec fn record_lib_var(platform: Platform) -> Seq<char> {
    match platform {
        Platform::Linux => "LD_LIBRARY_PATH"@,
        _ => "DYLD_LIBRARY_PATH"@,
    }
}

/// The variables that the record of the program keeps: those declared, then
/// the search path where it has an entry, then the search path for
/// libraries where one was declared.
pub open spec fn record_envs(p: ProgramView) -> Pairs {
    let with_path = if p.path_env.len() > 0 {
        p.envs.push(("PATH"@, p.path_env))
    } else {
        p.envs
    };
    match p.ld_library_path_env {
        Some(held) => with_path.push((record_lib_var(p.platform), held)),
        None => with_path,
    }
}

/// The map that a list of pairs makes: a name that comes again keeps its
/// place and takes the later value.
pub open spec fn collected(list: Pairs) -> Option<Pairs> {
    if list.len() == 0 {
        None
    } else {
        Some(overlay(Seq::empty(), list))
    }
}

/// The record that the program is kept as.
pub open spec fn record_of(p: ProgramView) -> VDataView {
    VDataView {
        alias: p.alias,
        path: p.path,
        icon: None,
        envs: collected(record_envs(p)),
        bindings: collected(p.bindings),
    }
}

/// The program after it took over a record: the installation directory and
/// the variables as if each were declared, and the alias and the bindings of
/// the record.
pub open spec fn hydrated(p: ProgramView, rec: VDataView) -> ProgramView {
    let placed = with_path(p, rec.path);
    let declared = match rec.envs {
        Some(envs) => with_envs(placed, envs),
        None => placed,
    };
    ProgramView {
        alias: rec.alias,
        bindings: match rec.bindings {
            Some(b) => b,
            None => Seq::empty(),
        },
        ..declared
    }
}

/// The entries with every placeholder in their values replaced.
pub open spec fn expanded_entries(entries: Pairs, vars: Pairs) -> Pairs {
    entries.map_values(|e: (Seq<char>, Seq<char>)| (e.0, expanded(e.1, vars)))
}

/// The record with every placeholder in its installation directory and in
/// the values of its variables replaced.
pub open spec fn expanded_record(rec: VDataView, vars: Pairs) -> VDataView {
    VDataView {
        path: expanded(rec.path, vars),
        envs: match rec.envs {
            Some(e) => Some(expanded_entries(e, vars)),
            None => None,
        },
        ..rec
    }
}

/// A copy of the entries; with `vars`, every placeholder in their values is
/// replaced.
fn copy_entries(m: &OrderedMap<String>, vars: Option<&Vec<(String, String)>>) -> (r: OrderedMap<
    String,
>)
    requires
        m.wf(),
    ensures
        r.wf(),
        r@ == match vars {
            Some(v) => expanded_entries(m@, pair_texts(v@)),
            None => m@,
        },
{
    let mut out: OrderedMap<String> = OrderedMap::new();
    let n = m.len();
    let mut i: usize = 0;
    let ghost want = match vars {
        Some(v) => expanded_entries(m@, pair_texts(v@)),
        None => m@,
    };
    proof {
        m.lemma_view();
        assert(out@ =~= want.take(0));
    }
    while i < n
        invariant
            i <= n,
            m.wf(),
            out.wf(),
            n == m@.len(),
            n == m.spec_keys().len(),
            crate::ordered::distinct_keys(m@),
            want == match vars {
                Some(v) => expanded_entries(m@, pair_texts(v@)),
                None => m@,
            },
            want.len() == n,
            out@ == want.take(i as int),
        decreases n - i,
    {
        let key = m.key_at(i);
        let value = match vars {
            Some(v) => expand_placeholders(m.value_at(i).as_str(), v),
            None => m.value_at(i).clone(),
        };
        proof {
            assert(want[i as int] == (key@, value@));
            assert(!crate::ordered::has_key(out@, key@)) by {
                if crate::ordered::has_key(out@, key@) {
                    let k = crate::ordered::key_index(out@, key@);
                    assert(want[k].0 == m@[k].0);
                    assert(m@[k].0 != m@[i as int].0);
                }
            }
            assert(want.take(i + 1) =~= want.take(i as int).push(want[i as int]));
        }
        out.insert(key.clone(), value);
        i += 1;
    }
    assert(want.take(n as int) == want);
    out
}

/// Declaring variables changes the search paths and the list of variables,
/// and nothing else of a program.
pub proof fn lemma_with_envs(p: ProgramView, envs: Pairs)
    ensures
        with_envs(p, envs).name == p.name,
        with_envs(p, envs).version == p.version,
        with_envs(p, envs).vtype == p.vtype,
        with_envs(p, envs).filename == p.filename,
        with_envs(p, envs).alias == p.alias,
        with_envs(p, envs).path == p.path,
        with_envs(p, envs).bindings == p.bindings,
        with_envs(p, envs).args == p.args,
        with_envs(p, envs).platform == p.platform,
    decreases envs.len(),
{
    if envs.len() > 0 {
        lemma_with_envs(p, envs.drop_last());
    }
}

/// Taking over a record sets the installation directory, the alias and the
/// bindings of a program, changes its search paths and its list of
/// variables, and nothing else.
pub proof fn lemma_hydrated(p: ProgramView, rec: VDataView)
    ensures
        hydrated(p, rec).name == p.name,
        hydrated(p, rec).version == p.version,
        hydrated(p, rec).vtype == p.vtype,
        hydrated(p, rec).filename == p.filename,
        hydrated(p, rec).args == p.args,
        hydrated(p, rec).platform == p.platform,
        hydrated(p, rec).path == rec.path,
        hydrated(p, rec).alias == rec.alias,
{
    if let Some(envs) = rec.envs {
        lemma_with_envs(with_path(p, rec.path), envs);
    }
}

/// The version `version` of the target `name`, with nothing declared.
pub open spec fn fresh_program(
    name: Seq<char>,
    version: Seq<char>,
    platform: Platform,
) -> ProgramView {
    ProgramView {
        name,
        version,
        vtype: None,
        filename: None,
        alias: None,
        path: Seq::empty(),
        path_env: Seq::empty(),
        ld_library_path_env: None,
        envs: Seq::empty(),
        bindings: Seq::empty(),
        args: Seq::empty(),
        platform,
    }
}

/// One version of a target as it is launched: where it is installed, what
/// it is run as, and the environment declared for it.
#[derive(Clone, Debug)]
pub struct Program {
    name: String,
    version: String,
    vtype: Option<String>,
    filename: Option<String>,
    alias: Option<String>,
    path: String,
    path_env: String,
    ld_library_path_env: Option<String>,
    envs: Vec<(String, String)>,
    bindings: Vec<(String, String)>,
    args: Vec<String>,
    platform: Platform,
}

impl View for Program {
    type V = ProgramView;

    closed spec fn view(&self) -> ProgramView {
        ProgramView {
            name: self.name@,
            version: self.version@,
            vtype: crate::versiondb::opt_text(self.vtype),
            filename: crate::versiondb::opt_text(self.filename),
            alias: crate::versiondb::opt_text(self.alias),
            path: self.path@,
            path_env: self.path_env@,
            ld_library_path_env: crate::versiondb::opt_text(self.ld_library_path_env),
            envs: pair_texts(self.envs@),
            bindings: pair_texts(self.bindings@),
            args: texts(self.args@),
            platform: self.platform,
        }
    }
}

/// A copy of a list of pairs.
fn copy_pairs(list: &Vec<(String, String)>) -> (r: Vec<(String, String)>)
    ensures
        pair_texts(r@) == pair_texts(list@),
{
    let mut out: Vec<(String, String)> = Vec::new();
    let mut i: usize = 0;
    assert(pair_texts(out@) =~= pair_texts(list@).take(0));
    while i < list.len()
        invariant
            i <= list.len(),
            pair_texts(out@) == pair_texts(list@).take(i as int),
        decreases list.len() - i,
    {
        let ghost prev = out@;
        out.push((list[i].0.clone(), list[i].1.clone()));
        assert(pair_texts(out@) =~= pair_texts(prev).push(
            (list@[i as int].0@, list@[i as int].1@),
        ));
        assert(pair_texts(list@).take(i + 1) =~= pair_texts(list@).take(i as int).push(
            (list@[i as int].0@, list@[i as int].1@),
        ));
        i += 1;
    }
    assert(pair_texts(list@).take(list.len() as int) == pair_texts(list@));
    out
}

/// The map that a list of pairs makes.
fn collect_pairs(list: &Vec<(String, String)>) -> (r: Option<OrderedMap<String>>)
    ensures
        crate::versiondb::opt_entries(r) == collected(pair_texts(list@)),
        r matches Some(m) ==> m.wf(),
{
    if list.len() == 0 {
        return None;
    }
    let mut m: OrderedMap<String> = OrderedMap::new();
    let mut i: usize = 0;
    while i < list.len()
        invariant
            i <= list.len(),
            m.wf(),
            m@ == overlay(Seq::empty(), pair_texts(list@).take(i as int)),
        decreases list.len() - i,
    {
        proof {
            let all = pair_texts(list@);
            assert(all.take(i + 1).drop_last() == all.take(i as int));
            assert(all.take(i + 1).last() == (list@[i as int].0@, list@[i as int].1@));
        }
        m.insert(list[i].0.clone(), list[i].1.clone());
        i += 1;
    }
    assert(pair_texts(list@).take(list.len() as int) == pair_texts(list@));
    Some(m)
}

impl Program {
    /// The version `version` of the target `name`, with nothing declared.
    pub fn new(name: &str, version: &str, platform: Platform) -> (p: Self)
        ensures
            p@ == fresh_program(name@, version@, platform),
    {
        let p = Program {
            name: String::from_str(name),
            version: String::from_str(version),
            vtype: None,
            filename: None,
            alias: None,
            path: String::new(),
            path_env: String::new(),
            ld_library_path_env: None,
            envs: Vec::new(),
            bindings: Vec::new(),
            args: Vec::new(),
            platform,
        };
        assert(p@.envs =~= Seq::empty());
        assert(p@.bindings =~= Seq::empty());
        assert(p@.args =~= Seq::empty());
        p
    }

    /// The name of the target.
    pub fn name(&self) -> (r: &str)
        ensures
            r@ == self@.name,
    {
        self.name.as_str()
    }

    /// The version.
    pub fn version(&self) -> (r: &str)
        ensures
            r@ == self@.version,
    {
        self.version.as_str()
    }

    /// The installation directory.
    pub fn path(&self) -> (r: &str)
        ensures
            r@ == self@.path,
    {
        self.path.as_str()
    }

    /// The variables to set, besides the search paths.
    pub fn envs(&self) -> (r: &Vec<(String, String)>)
        ensures
            pair_texts(r@) == self@.envs,
    {
        &self.envs
    }

    /// The arguments to pass on.
    pub fn args(&self) -> (r: &Vec<String>)
        ensures
            texts(r@) == self@.args,
    {
        &self.args
    }

    /// The system the program is launched on.
    pub fn platform(&self) -> (r: Platform)
        ensures
            r == self@.platform,
    {
        self.platform
    }

    /// Sets the kind of the target.
    pub fn set_type(&mut self, vtype: &str)
        ensures
            final(self)@ == (ProgramView { vtype: Some(vtype@), ..old(self)@ }),
    {
        self.vtype = Some(String::from_str(vtype));
    }

    /// Sets the name of the target's file.
    pub fn set_filename(&mut self, filename: &str)
        ensures
            final(self)@ == (ProgramView { filename: Some(filename@), ..old(self)@ }),
    {
        self.filename = Some(String::from_str(filename));
    }

    /// Sets the command line to run in place of the target's binary.
    pub fn set_alias(&mut self, alias: &str)
        ensures
            final(self)@ == (ProgramView { alias: Some(alias@), ..old(self)@ }),
    {
        self.alias = Some(String::from_str(alias));
    }

    /// Declares a variable for the program. `PATH` adds an entry to its
    /// search path, `LD_LIBRARY_PATH` and `DYLD_LIBRARY_PATH` add one to its
    /// search path for libraries; any other variable joins the list of
    /// variables to set.
    pub fn add_env(&mut self, key: &str, value: &str)
        ensures
            final(self)@ == with_env(old(self)@, key@, value@),
    {
        let sep = self.platform.separator();
        if str_eq(key, "PATH") {
            if self.path_env.as_str().is_empty() {
                self.path_env = String::from_str(value);
            } else {
                self.path_env.append(sep);
                self.path_env.append(value);
            }
        } else if str_eq(key, "LD_LIBRARY_PATH") || str_eq(key, "DYLD_LIBRARY_PATH") {
            let mut held: Option<String> = None;
            std::mem::swap(&mut self.ld_library_path_env, &mut held);
            let next = match held {
                Some(h) => {
                    let mut h = h;
                    h.append(sep);
                    h.append(value);
                    h
                },
                None => String::from_str(value),
            };
            self.ld_library_path_env = Some(next);
        } else {
            let ghost prev = self.envs@;
            self.envs.push((String::from_str(key), String::from_str(value)));
            assert(pair_texts(self.envs@) =~= pair_texts(prev).push((key@, value@)));
        }
    }

    /// Declares each of the variables, in order.
    pub fn add_envs(&mut self, envs: &[(&str, &str)])
        ensures
            final(self)@ == with_envs(old(self)@, str_pair_views(envs@)),
    {
        let mut i: usize = 0;
        while i < envs.len()
            invariant
                i <= envs.len(),
                self@ == with_envs(old(self)@, str_pair_views(envs@).take(i as int)),
            decreases envs.len() - i,
        {
            proof {
                let all = str_pair_views(envs@);
                assert(all.take(i + 1).drop_last() == all.take(i as int));
                assert(all.take(i + 1).last() == (envs@[i as int].0@, envs@[i as int].1@));
            }
            self.add_env(envs[i].0, envs[i].1);
            i += 1;
        }
        assert(str_pair_views(envs@).take(envs.len() as int) == str_pair_views(envs@));
    }

    /// Sets the installation directory, which is also an entry of the search
    /// path.
    pub fn set_path(&mut self, path: &str)
        ensures
            final(self)@ == with_path(old(self)@, path@),
    {
        self.path = String::from_str(path);
        self.add_env("PATH", path);
    }

    /// Adds an argument to pass on.
    pub fn add_arg(&mut self, arg: &str)
        ensures
            final(self)@ == (ProgramView { args: old(self)@.args.push(arg@), ..old(self)@ }),
    {
        let ghost prev = self.args@;
        self.args.push(String::from_str(arg));
        assert(texts(self.args@) =~= texts(prev).push(arg@));
    }

    /// Adds the arguments to pass on, in order.
    pub fn add_args(&mut self, args: &Vec<String>)
        ensures
            final(self)@ == (ProgramView {
                args: old(self)@.args + texts(args@),
                ..old(self)@
            }),
    {
        let mut i: usize = 0;
        assert(texts(args@).take(0) =~= Seq::empty());
        assert(old(self)@.args + Seq::<Seq<char>>::empty() =~= old(self)@.args);
        while i < args.len()
            invariant
                i <= args.len(),
                self@ == (ProgramView {
                    args: old(self)@.args + texts(args@).take(i as int),
                    ..old(self)@
                }),
            decreases args.len() - i,
        {
            let ghost held = self@.args;
            self.add_arg(args[i].as_str());
            proof {
                let all = texts(args@);
                assert(all.take(i + 1) =~= all.take(i as int).push(args@[i as int]@));
                assert(old(self)@.args + all.take(i + 1) =~= held.push(args@[i as int]@));
            }
            i += 1;
        }
        assert(texts(args@).take(args.len() as int) == texts(args@));
    }

    /// Binds the target `target` to its version `version`.
    pub fn add_binding(&mut self, target: &str, version: &str)
        ensures
            final(self)@ == (ProgramView {
                bindings: old(self)@.bindings.push((target@, version@)),
                ..old(self)@
            }),
    {
        let ghost prev = self.bindings@;
        self.bindings.push((String::from_str(target), String::from_str(version)));
        assert(pair_texts(self.bindings@) =~= pair_texts(prev).push((target@, version@)));
    }

    /// The record that the program is kept as in the registry.
    pub fn vdata(&self) -> (r: VData)
        ensures
            r.wf(),
            r@ == record_of(self@),
    {
        let mut envs_tmp = copy_pairs(&self.envs);
        if !self.path_env.as_str().is_empty() {
            let ghost prev = envs_tmp@;
            envs_tmp.push((String::from_str("PATH"), self.path_env.clone()));
            assert(pair_texts(envs_tmp@) =~= pair_texts(prev).push(("PATH"@, self.path_env@)));
        }
        match &self.ld_library_path_env {
            Some(held) => {
                let name = match self.platform {
                    Platform::Linux => "LD_LIBRARY_PATH",
                    _ => "DYLD_LIBRARY_PATH",
                };
                let ghost prev = envs_tmp@;
                envs_tmp.push((String::from_str(name), held.clone()));
                assert(pair_texts(envs_tmp@) =~= pair_texts(prev).push((name@, held@)));
            },
            None => {},
        }
        VData {
            alias: self.alias.clone(),
            path: self.path.clone(),
            icon: None,
            envs: collect_pairs(&envs_tmp),
            bindings: collect_pairs(&self.bindings),
        }
    }

    /// Takes over a record as `set_vdata` does, after every placeholder
    /// `${name}` whose name is among `vars` was replaced in the installation
    /// directory and in the values of the variables.
    pub fn hydrate(&mut self, vdata: &VData, vars: &Vec<(String, String)>)
        requires
            vdata.wf(),
        ensures
            final(self)@ == hydrated(old(self)@, expanded_record(vdata@, pair_texts(vars@))),
    {
        let filled = VData {
            alias: vdata.alias.clone(),
            path: expand_placeholders(vdata.path.as_str(), vars),
            icon: vdata.icon.clone(),
            envs: match &vdata.envs {
                Some(e) => Some(copy_entries(e, Some(vars))),
                None => None,
            },
            bindings: match &vdata.bindings {
                Some(b) => Some(copy_entries(b, None)),
                None => None,
            },
        };
        self.set_vdata(&filled);
    }

    /// Takes over a record: its installation directory and its variables as
    /// if each were declared, its alias and its bindings.
    pub fn set_vdata(&mut self, vdata: &VData)
        requires
            vdata.wf(),
        ensures
            final(self)@ == hydrated(old(self)@, vdata@),
    {
        self.set_path(vdata.path.as_str());
        match &vdata.envs {
            Some(envs) => {
                let n = envs.len();
                let mut i: usize = 0;
                let ghost placed = self@;
                proof {
                    envs.lemma_view();
                }
                while i < n
                    invariant
                        i <= n,
                        envs.wf(),
                        n == envs@.len(),
                        n == envs.spec_keys().len(),
                        self@ == with_envs(placed, envs@.take(i as int)),
                    decreases n - i,
                {
                    proof {
                        assert(envs@.take(i + 1).drop_last() == envs@.take(i as int));
                        assert(envs@.take(i + 1).last() == envs@[i as int]);
                    }
                    self.add_env(envs.key_at(i).as_str(), envs.value_at(i).as_str());
                    i += 1;
                }
                assert(envs@.take(n as int) == envs@);
            },
            None => {},
        }
        self.alias = vdata.alias.clone();
        let mut bindings: Vec<(String, String)> = Vec::new();
        match &vdata.bindings {
            Some(b) => {
                let n = b.len();
                let mut i: usize = 0;
                assert(pair_texts(bindings@) =~= b@.take(0));
                while i < n
                    invariant
                        i <= n,
                        b.wf(),
                        n == b@.len(),
                        n == b.spec_keys().len(),
                        pair_texts(bindings@) == b@.take(i as int),
                    decreases n - i,
                {
                    let ghost prev = bindings@;
                    proof {
                        b.lemma_view();
                    }
                    bindings.push((b.key_at(i).clone(), b.value_at(i).clone()));
                    assert(pair_texts(bindings@) =~= pair_texts(prev).push(b@[i as int]));
                    assert(b@.take(i + 1) =~= b@.take(i as int).push(b@[i as int]));
                    i += 1;
                }
                assert(b@.take(n as int) == b@);
            },
            None => {
                assert(pair_texts(bindings@) =~= Seq::empty());
            },
        }
        self.bindings = bindings;
    }

    /// What the program is run as.
    pub fn launch(&self, root: &str) -> (r: Launch)
        ensures
            r@ == launch_of(self@, root@),
    {
        match &self.alias {
            Some(alias) => {
                let mut program = String::from_str(XVM_ALIAS_WRAPPER);
                match self.platform {
                    Platform::Windows => {
                        program.append(".bat");
                    },
                    _ => {},
                }
                Launch::Alias { program, prefix: split_whitespace(alias.as_str()) }
            },
            None => {
                if !self.path.as_str().is_empty() {
                    Launch::Probe { dir: resolve_path(self.path.as_str(), root, self.platform) }
                } else {
                    Launch::Bare { program: self.name.clone() }
                }
            },
        }
    }

    /// The search path the program is launched with, as the variable `PATH`:
    /// the entries declared for the program, the directory of the binary
    /// where that is not the installation directory, the bin directory, on
    /// Windows the lib directory, and the search path inherited.
    pub fn get_path_env(
        &self,
        dirs: &ShimDirs,
        exe_parent: Option<&str>,
        env: &Vec<(String, String)>,
    ) -> (r: (String, String))
        ensures
            r.0@ == "PATH"@,
            r.1@ == joined(
                path_parts(
                    self@,
                    dirs@,
                    match exe_parent {
                        Some(d) => Some(d@),
                        None => None,
                    },
                    pair_texts(env@),
                ),
                separator_text(self@.platform),
            ),
    {
        let mut parts: Vec<String> = Vec::new();
        parts.push(self.path_env.clone());
        match exe_parent {
            Some(d) => {
                if !str_eq(d, self.path.as_str()) {
                    parts.push(String::from_str(d));
                }
            },
            None => {},
        }
        parts.push(dirs.bindir.clone());
        match self.platform {
            Platform::Windows => {
                parts.push(dirs.libdir.clone());
            },
            _ => {},
        }
        match lookup_env(env, "PATH") {
            Some(v) => {
                parts.push(v.clone());
            },
            None => {
                parts.push(String::new());
            },
        }
        assert(texts(parts@) =~= path_parts(
            self@,
            dirs@,
            match exe_parent {
                Some(d) => Some(d@),
                None => None,
            },
            pair_texts(env@),
        ));
        (String::from_str("PATH"), join_nonempty(&parts, self.platform.separator()))
    }

    /// The search path for libraries the program is launched with, under the
    /// name the system gives it: the entries declared for the program, the
    /// lib directory, and the search path inherited. On a system without
    /// such a variable, the empty value under the name `XVM_ENV_NULL`.
    pub fn get_ld_library_path_env(&self, dirs: &ShimDirs, env: &Vec<(String, String)>) -> (r: (
        String,
        String,
    ))
        ensures
            (r.0@, r.1@) == lib_path_entry(self@, dirs@, pair_texts(env@)),
    {
        match self.platform.lib_path_var() {
            Some(name) => {
                let mut parts: Vec<String> = Vec::new();
                match &self.ld_library_path_env {
                    Some(held) => {
                        parts.push(held.clone());
                    },
                    None => {
                        parts.push(String::new());
                    },
                }
                parts.push(dirs.libdir.clone());
                match lookup_env(env, name) {
                    Some(v) => {
                        parts.push(v.clone());
                    },
                    None => {
                        parts.push(String::new());
                    },
                }
                assert(texts(parts@) =~= lib_path_parts(self@, dirs@, pair_texts(env@)));
                (String::from_str(name), join_nonempty(&parts, ":"))
            },
            None => (String::from_str("XVM_ENV_NULL"), String::new()),
        }
    }

    /// Whether the program has an alias.
    pub fn has_alias(&self) -> (r: bool)
        ensures
            r == self@.alias is Some,
    {
        self.alias.is_some()
    }

    /// The link to make for a library in the directory `dir`, and what to do
    /// about a link that is there already: with `recover` it is replaced,
    /// without it is kept.
    pub fn link_to(&self, dir: &str, recover: bool, link_exists: bool) -> (r: LinkPlan)
        requires
            self@.alias is Some,
        ensures
            r@ == link_plan(self@, dir@, recover, link_exists),
    {
        let source = match &self.alias {
            Some(a) => a.as_str(),
            None => "",
        };
        let target = match &self.filename {
            Some(f) => f.as_str(),
            None => source,
        };
        LinkPlan {
            real_path: join3(self.path.as_str(), "/", source),
            link_path: join3(dir, "/", target),
            action: link_action(link_exists, recover),
        }
    }
}

/// What a program is run as, as plain values.
pub enum LaunchView {
    Alias { program: Seq<char>, prefix: Seq<Seq<char>> },
    Probe { dir: Seq<char> },
    Bare { program: Seq<char> },
}

/// What a program is run as.
#[derive(Clone, Debug)]
pub enum Launch {
    /// The alias wrapper, with the words of the alias before the arguments.
    Alias { program: String, prefix: Vec<String> },
    /// The binary found under the installation directory `dir`.
    Probe { dir: String },
    /// The target's name, found along the search path.
    Bare { program: String },
}

impl View for Launch {
    type V = LaunchView;

    open spec fn view(&self) -> LaunchView {
        match self {
            Launch::Alias { program, prefix } => LaunchView::Alias {
                program: program@,
                prefix: texts(prefix@),
            },
            Launch::Probe { dir } => LaunchView::Probe { dir: dir@ },
            Launch::Bare { program } => LaunchView::Bare { program: program@ },
        }
    }
}

/// Whether `path` names a place without regard to a directory to start
/// from: it begins with a slash or, on Windows, with a backslash or a
/// drive letter and a colon.
pub open spec fn is_absolute(path: Seq<char>, platform: Platform) -> bool {
    ||| path.len() > 0 && path[0] == '/'
    ||| platform == Platform::Windows && path.len() > 0 && path[0] == '\\'
    ||| platform == Platform::Windows && path.len() > 1 && path[1] == ':'
}

/// `path` as it stands where it is absolute, else under `root`.
pub open spec fn resolved_path(path: Seq<char>, root: Seq<char>, platform: Platform) -> Seq<char> {
    if is_absolute(path, platform) {
        path
    } else {
        root + "/"@ + path
    }
}

/// `path` as it stands where it is absolute, else under `root`.
pub fn resolve_path(path: &str, root: &str, platform: Platform) -> (r: String)
    ensures
        r@ == resolved_path(path@, root@, platform),
{
    let chars = chars_of(path);
    let windows = match platform {
        Platform::Windows => true,
        _ => false,
    };
    let absolute = (chars.len() > 0 && chars[0] == '/') || (windows && chars.len() > 0 && chars[0]
        == '\\') || (windows && chars.len() > 1 && chars[1] == ':');
    if absolute {
        String::from_str(path)
    } else {
        join3(root, "/", path)
    }
}

/// What a program is run as: with an alias the alias wrapper, before whose
/// arguments the words of the alias go; else, with an installation
/// directory, the binary to be found under it; else the target's name.
pub open spec fn launch_of(p: ProgramView, root: Seq<char>) -> LaunchView {
    match p.alias {
        Some(alias) => LaunchView::Alias {
            program: match p.platform {
                Platform::Windows => "xvm-alias"@ + ".bat"@,
                _ => "xvm-alias"@,
            },
            prefix: words(alias),
        },
        None => if p.path.len() > 0 {
            LaunchView::Probe { dir: resolved_path(p.path, root, p.platform) }
        } else {
            LaunchView::Bare { program: p.name }
        },
    }
}

/// The places where the binary of `name` is looked for under `dir`, in
/// order: the directory itself, then its `bin` directory; on Windows each
/// with the bare name, then with `.exe`, then with `.bat`.
pub open spec fn candidates_of(
    dir: Seq<char>,
    name: Seq<char>,
    platform: Platform,
) -> Seq<Seq<char>> {
    match platform {
        Platform::Windows => seq![
            dir + "/"@ + name,
            dir + "/"@ + name + ".exe"@,
            dir + "/"@ + name + ".bat"@,
            dir + "/bin/"@ + name,
            dir + "/bin/"@ + name + ".exe"@,
            dir + "/bin/"@ + name + ".bat"@,
        ],
        _ => seq![dir + "/"@ + name, dir + "/bin/"@ + name],
    }
}

/// The places where the binary of `name` is looked for under `dir`.
pub fn probe_candidates(dir: &str, name: &str, platform: Platform) -> (r: Vec<String>)
    ensures
        texts(r@) == candidates_of(dir@, name@, platform),
{
    let plain = join3(dir, "/", name);
    let in_bin = join3(dir, "/bin/", name);
    let mut out: Vec<String> = Vec::new();
    match platform {
        Platform::Windows => {
            let mut exe = plain.clone();
            exe.append(".exe");
            let mut bat = plain.clone();
            bat.append(".bat");
            let mut bin_exe = in_bin.clone();
            bin_exe.append(".exe");
            let mut bin_bat = in_bin.clone();
            bin_bat.append(".bat");
            out.push(plain);
            out.push(exe);
            out.push(bat);
            out.push(in_bin);
            out.push(bin_exe);
            out.push(bin_bat);
        },
        _ => {
            out.push(plain);
            out.push(in_bin);
        },
    }
    assert(texts(out@) =~= candidates_of(dir@, name@, platform));
    out
}

/// The places among `looked`, each with whether a file is there.
pub open spec fn places(looked: Seq<(String, bool)>) -> Seq<Seq<char>> {
    looked.map_values(|e: (String, bool)| e.0@)
}

/// The first of the places looked at where a file is; where there is none,
/// all the places looked at, to be named in the failure.
pub fn pick_executable(looked: &Vec<(String, bool)>) -> (r: Result<String, Vec<String>>)
    ensures
        match r {
            Ok(exe) => exists|i: int|
                0 <= i < looked.len() && (#[trigger] looked[i]).1 && exe@ == looked[i].0@ && forall|
                    k: int,
                |
                    0 <= k < i ==> !looked[k].1,
            Err(all) => {
                &&& forall|k: int| 0 <= k < looked.len() ==> !looked[k].1
                &&& texts(all@) == places(looked@)
            },
        },
{
    let mut all: Vec<String> = Vec::new();
    let mut i: usize = 0;
    assert(texts(all@) =~= places(looked@).take(0));
    while i < looked.len()
        invariant
            i <= looked.len(),
            forall|k: int| 0 <= k < i ==> !looked[k].1,
            texts(all@) == places(looked@).take(i as int),
        decreases looked.len() - i,
    {
        if looked[i].1 {
            return Ok(looked[i].0.clone());
        }
        let ghost prev = all@;
        all.push(looked[i].0.clone());
        proof {
            assert(texts(all@) =~= texts(prev).push(looked[i as int].0@));
            assert(places(looked@).take(i + 1) =~= places(looked@).take(i as int).push(
                looked[i as int].0@,
            ));
        }
        i += 1;
    }
    assert(places(looked@).take(looked.len() as int) == places(looked@));
    Err(all)
}

/// Whether `c` stands between the parts of a file path.
pub open spec fn is_joint(c: char, platform: Platform) -> bool {
    c == '/' || (platform == Platform::Windows && c == '\\')
}

/// Whether the part of `path` behind position `i` is the name of the file:
/// `i` holds a joint and no place behind it does.
pub open spec fn last_joint(path: Seq<char>, platform: Platform, i: int) -> bool {
    &&& 0 <= i < path.len()
    &&& is_joint(path[i], platform)
    &&& forall|k: int| i < k < path.len() ==> !is_joint(path[k], platform)
}

/// The directory of the file `path`: what stands before its last joint.
pub fn parent_dir(path: &str, platform: Platform) -> (r: Option<String>)
    ensures
        match r {
            Some(dir) => exists|i: int|
                #[trigger] last_joint(path@, platform, i) && dir@ == path@.subrange(0, i),
            None => forall|k: int| 0 <= k < path@.len() ==> !is_joint(path@[k], platform),
        },
{
    let chars = chars_of(path);
    let windows = match platform {
        Platform::Windows => true,
        _ => false,
    };
    let mut i: usize = chars.len();
    while i > 0
        invariant
            i <= chars.len(),
            chars@ == path@,
            windows == (platform == Platform::Windows),
            forall|k: int| i <= k < path@.len() ==> !is_joint(path@[k], platform),
        decreases i,
    {
        i -= 1;
        if chars[i] == '/' || (windows && chars[i] == '\\') {
            assert(last_joint(path@, platform, i as int));
            return Some(String::from_str(path.substring_char(0, i)));
        }
    }
    None
}

/// The entries of the search path a program is launched with, before those
/// that are empty are left out.
pub open spec fn path_parts(
    p: ProgramView,
    dirs: ShimDirsView,
    exe_parent: Option<Seq<char>>,
    env: Pairs,
) -> Seq<Seq<char>> {
    let declared = seq![p.path_env];
    let binary = match exe_parent {
        Some(d) => if d != p.path {
            seq![d]
        } else {
            Seq::empty()
        },
        None => Seq::empty(),
    };
    let lib = match p.platform {
        Platform::Windows => seq![dirs.libdir],
        _ => Seq::empty(),
    };
    let inherited = match env_value(env, "PATH"@) {
        Some(v) => v,
        None => Seq::empty(),
    };
    declared + binary + seq![dirs.bindir] + lib + seq![inherited]
}

/// On a system other than Windows, a program with entries declared for its
/// search path, launched by name or from its installation directory, gets a
/// search path that begins with those entries, goes on with the bin
/// directory, and ends with the search path inherited.
pub proof fn lemma_path_order(p: ProgramView, dirs: ShimDirsView, env: Pairs)
    requires
        p.platform != Platform::Windows,
        p.path_env.len() > 0,
        dirs.bindir.len() > 0,
        env_value(env, "PATH"@) matches Some(v) && v.len() > 0,
    ensures
        joined(path_parts(p, dirs, None, env), separator_text(p.platform)) == p.path_env
            + separator_text(p.platform) + dirs.bindir + separator_text(p.platform) + env_value(
            env,
            "PATH"@,
        )->0,
{
    let sep = separator_text(p.platform);
    let inherited = env_value(env, "PATH"@)->0;
    let parts = path_parts(p, dirs, None, env);
    assert(parts =~= seq![p.path_env, dirs.bindir, inherited]);
    let two = parts.drop_last();
    let one = two.drop_last();
    assert(one.drop_last() =~= Seq::<Seq<char>>::empty());
    assert(joined(one.drop_last(), sep) =~= Seq::<char>::empty());
    assert(one.last() == p.path_env);
    assert(joined(one, sep) == p.path_env);
    assert(two.last() == dirs.bindir);
    assert(joined(two, sep) == p.path_env + sep + dirs.bindir);
    assert(parts.last() == inherited);
}

/// The entries of the search path for libraries a program is launched with.
pub open spec fn lib_path_parts(p: ProgramView, dirs: ShimDirsView, env: Pairs) -> Seq<Seq<char>> {
    let declared = match p.ld_library_path_env {
        Some(held) => held,
        None => Seq::empty(),
    };
    let inherited = match lib_path_var_text(p.platform) {
        Some(name) => match env_value(env, name) {
            Some(v) => v,
            None => Seq::empty(),
        },
        None => Seq::empty(),
    };
    seq![declared, dirs.libdir, inherited]
}

/// The variable that carries the search path for libraries.
pub open spec fn lib_path_entry(
    p: ProgramView,
    dirs: ShimDirsView,
    env: Pairs,
) -> (Seq<char>, Seq<char>) {
    match lib_path_var_text(p.platform) {
        Some(name) => (name, joined(lib_path_parts(p, dirs, env), ":"@)),
        None => ("XVM_ENV_NULL"@, Seq::empty()),
    }
}

/// The variables declared for a program as they are set for its process:
/// the declared value goes before the value that the variable has in the
/// environment `env`, where it has one.
pub open spec fn extended_envs(envs: Pairs, env: Pairs, platform: Platform) -> Pairs {
    envs.map_values(
        |e: (Seq<char>, Seq<char>)|
            (
                e.0,
                match env_value(env, e.0) {
                    Some(held) => e.1 + separator_text(platform) + held,
                    None => e.1,
                },
            ),
    )
}

/// The variables `envs` as they are set for a process started in the
/// environment `env`.
pub fn build_extended_envs(
    envs: Vec<(String, String)>,
    env: &Vec<(String, String)>,
    platform: Platform,
) -> (r: Vec<(String, String)>)
    ensures
        pair_texts(r@) == extended_envs(pair_texts(envs@), pair_texts(env@), platform),
{
    let mut out: Vec<(String, String)> = Vec::new();
    let mut i: usize = 0;
    let ghost all = extended_envs(pair_texts(envs@), pair_texts(env@), platform);
    assert(pair_texts(out@) =~= all.take(0));
    while i < envs.len()
        invariant
            i <= envs.len(),
            all == extended_envs(pair_texts(envs@), pair_texts(env@), platform),
            pair_texts(out@) == all.take(i as int),
        decreases envs.len() - i,
    {
        let key = envs[i].0.clone();
        let mut value = envs[i].1.clone();
        match lookup_env(env, key.as_str()) {
            Some(held) => {
                value.append(platform.separator());
                value.append(held.as_str());
            },
            None => {},
        }
        let ghost prev = out@;
        out.push((key, value));
        proof {
            assert(pair_texts(envs@)[i as int] == (envs@[i as int].0@, envs@[i as int].1@));
            assert(pair_texts(out@) =~= pair_texts(prev).push((key@, value@)));
            assert(all.take(i + 1) =~= all.take(i as int).push(all[i as int]));
        }
        i += 1;
    }
    assert(all.take(envs.len() as int) == all);
    out
}

/// What is done about the link of a library.
#[derive(Clone, Copy, Debug, PartialEq, Eq, Structural)]
pub enum LinkAction {
    /// A link is there and stays as it is.
    Keep,
    /// No link is there: make it.
    Create,
    /// A link is there: remove it and make it anew.
    Replace,
}

/// What is done about a link, given whether one is there: none is made,
/// one that is there is replaced with `recover` and kept without.
pub fn link_action(link_exists: bool, recover: bool) -> (r: LinkAction)
    ensures
        r == if !link_exists {
            LinkAction::Create
        } else if recover {
            LinkAction::Replace
        } else {
            LinkAction::Keep
        },
{
    if !link_exists {
        LinkAction::Create
    } else if recover {
        LinkAction::Replace
    } else {
        LinkAction::Keep
    }
}

/// The link of a library, as plain values.
pub struct LinkPlanView {
    pub real_path: Seq<char>,
    pub link_path: Seq<char>,
    pub action: LinkAction,
}

/// The link of a library: the file it points at, the place it stands at,
/// and what is done about it.
#[derive(Clone, Debug)]
pub struct LinkPlan {
    pub real_path: String,
    pub link_path: String,
    pub action: LinkAction,
}

impl View for LinkPlan {
    type V = LinkPlanView;

    open spec fn view(&self) -> LinkPlanView {
        LinkPlanView {
            real_path: self.real_path@,
            link_path: self.link_path@,
            action: self.action,
        }
    }
}

/// The link of the library `p` in `dir`: it points at the file that the
/// alias names under the installation directory, and stands in `dir` under
/// the file name of the target or, without one, under the alias.
pub open spec fn link_plan(
    p: ProgramView,
    dir: Seq<char>,
    recover: bool,
    link_exists: bool,
) -> LinkPlanView {
    let source = p.alias->0;
    let target = match p.filename {
        Some(f) => f,
        None => source,
    };
    LinkPlanView {
        real_path: p.path + "/"@ + source,
        link_path: dir + "/"@ + target,
        action: if !link_exists {
            LinkAction::Create
        } else if recover {
            LinkAction::Replace
        } else {
            LinkAction::Keep
        },
    }
}

/// Why a process could not be started.
#[derive(Clone, Copy, Debug, PartialEq, Eq, Structural)]
pub enum SpawnFailure {
    /// The system found no file to start.
    NotFound,
    /// Anything else.
    Other,
}

/// What to do after a process could not be started.
#[derive(Clone, Copy, Debug, PartialEq, Eq, Structural)]
pub enum Recovery {
    /// Start the binary through the system's loader, once.
    TryLoader,
    /// Report the failure.
    GiveUp,
}

/// What to do after the first start failed: the loader is tried where the
/// system has that way out, a binary found under the installation directory
/// was started, and the system found no file.
pub fn after_spawn_failure(platform: Platform, probed: bool, failure: SpawnFailure) -> (r: Recovery)
    ensures
        r == if platform == Platform::Linux && probed && failure == SpawnFailure::NotFound {
            Recovery::TryLoader
        } else {
            Recovery::GiveUp
        },
{
    if platform.has_loader_fallback() && probed && failure == SpawnFailure::NotFound {
        Recovery::TryLoader
    } else {
        Recovery::GiveUp
    }
}

/// The places where the system's loader is commonly installed, in the order
/// in which they are tried.
pub open spec fn loader_places() -> Seq<Seq<char>> {
    seq![
        "/lib64/ld-linux-x86-64.so.2"@,
        "/lib/ld-linux-x86-64.so.2"@,
        "/lib/ld-linux-aarch64.so.1"@,
        "/lib/ld-musl-x86_64.so.1"@,
        "/lib/ld-musl-aarch64.so.1"@,
    ]
}

/// The places where the system's loader is looked for.
pub fn loader_candidates() -> (r: Vec<String>)
    ensures
        texts(r@) == loader_places(),
{
    let mut out: Vec<String> = Vec::new();
    out.push(String::from_str("/lib64/ld-linux-x86-64.so.2"));
    out.push(String::from_str("/lib/ld-linux-x86-64.so.2"));
    out.push(String::from_str("/lib/ld-linux-aarch64.so.1"));
    out.push(String::from_str("/lib/ld-musl-x86_64.so.1"));
    out.push(String::from_str("/lib/ld-musl-aarch64.so.1"));
    assert(texts(out@) =~= loader_places());
    out
}

/// The code a launch ends with: that of the process, or 1 where it gave
/// none.
pub fn exit_code(code: Option<i32>) -> (r: i32)
    ensures
        r == match code {
            Some(c) => c,
            None => 1,
        },
{
    match code {
        Some(c) => c,
        None => 1,
    }
}

} // verus!
