//! Checks made before an action is carried out.

use crate::platform::Platform;
use crate::text::{str_eq, texts};
use crate::version::{split_on, split_text};
use vstd::prelude::*;

verus! {

/// What holds for every action of one invocation.
#[derive(Clone, Copy, Debug)]
pub struct CommandState {
    /// Whether questions are taken as answered with yes.
    pub yes: bool,
}

impl CommandState {
    /// Whether the removal of a target is to be confirmed first: where no
    /// version is named, so that all of them go, unless questions are
    /// taken as answered.
    pub fn must_confirm_removal(&self, version_given: bool) -> (r: bool)
        ensures
            r == (!version_given && !self.yes),
    {
        !version_given && !self.yes
    }
}

/// The entries of a search path that are not empty, in order.
pub open spec fn path_entries(path_var: Seq<char>, sep: char) -> Seq<Seq<char>> {
    split_on(path_var, sep).filter(|p: Seq<char>| p.len() > 0)
}

/// The character that separates the entries of a search path.
pub open spec fn separator_char(platform: Platform) -> char {
    match platform {
        Platform::Windows => ';',
        _ => ':',
    }
}

/// Whether the search path `path_var` leads to the directory
/// `path_to_check`, and whether the user is to be told how to put the
/// directory first: that is so unless it is the first entry.
pub fn runtime_check_and_tips(path_var: &str, path_to_check: &str, platform: Platform) -> (r: (
    bool,
    bool,
))
    ensures
        r.0 == path_entries(path_var@, separator_char(platform)).contains(path_to_check@),
        r.1 == !(path_entries(path_var@, separator_char(platform)).len() > 0 && path_entries(
            path_var@,
            separator_char(platform),
        )[0] == path_to_check@),
{
    let sep = match platform {
        Platform::Windows => ';',
        _ => ':',
    };
    let parts = split_text(path_var, sep);
    let ghost all = split_on(path_var@, sep);
    let ghost keep = |p: Seq<char>| p.len() > 0;
    let mut seen: usize = 0;
    let mut found = false;
    let mut first = false;
    let mut i: usize = 0;
    proof {
        reveal(Seq::filter);
        assert(all.take(0).filter(keep) =~= Seq::empty());
    }
    while i < parts.len()
        invariant
            i <= parts.len(),
            texts(parts@) == all,
            keep == |p: Seq<char>| p.len() > 0,
            seen == all.take(i as int).filter(keep).len(),
            seen <= i,
            found == all.take(i as int).filter(keep).contains(path_to_check@),
            first == (seen > 0 && all.take(i as int).filter(keep)[0] == path_to_check@),
        decreases parts.len() - i,
    {
        let ghost before = all.take(i as int).filter(keep);
        proof {
            reveal(Seq::filter);
            assert(all.take(i + 1).drop_last() == all.take(i as int));
            assert(all.take(i + 1).last() == parts@[i as int]@);
        }
        if !parts[i].as_str().is_empty() {
            let same = str_eq(parts[i].as_str(), path_to_check);
            proof {
                let after = before.push(parts@[i as int]@);
                assert(all.take(i + 1).filter(keep) == after);
                if same {
                    assert(after[before.len() as int] == path_to_check@);
                }
                if after.contains(path_to_check@) && !same {
                    let k = choose|k: int| 0 <= k < after.len() && after[k] == path_to_check@;
                    assert(before[k] == path_to_check@);
                }
                if before.contains(path_to_check@) {
                    let k = choose|k: int| 0 <= k < before.len() && before[k] == path_to_check@;
                    assert(after[k] == path_to_check@);
                }
            }
            if same {
                found = true;
                if seen == 0 {
                    first = true;
                }
            }
            seen += 1;
        }
        i += 1;
    }
    assert(all.take(parts.len() as int) == all);
    (found, !first)
}

/// What a shim passes to the manager to have `target` run with `args`.
pub fn shim_arguments(target: &str, args: &Vec<String>) -> (r: Vec<String>)
    ensures
        texts(r@) == seq!["run"@, target@, "--args"@] + texts(args@),
{
    let mut out: Vec<String> = Vec::new();
    out.push(String::from_str("run"));
    out.push(String::from_str(target));
    out.push(String::from_str("--args"));
    assert(texts(out@) =~= seq!["run"@, target@, "--args"@]);
    append_all(&mut out, args);
    out
}

/// A reserved name, as plain values.
pub struct ReservedView {
    pub name: Seq<char>,
    pub front_end: Seq<char>,
    pub subcommand: Seq<char>,
}

/// A reserved name: a shim called `name` stands for the subcommand
/// `subcommand` of the program `front_end`, not for a target of its own.
#[derive(Clone, Debug)]
pub struct Reserved {
    pub name: String,
    pub front_end: String,
    pub subcommand: String,
}

impl View for Reserved {
    type V = ReservedView;

    open spec fn view(&self) -> ReservedView {
        ReservedView {
            name: self.name@,
            front_end: self.front_end@,
            subcommand: self.subcommand@,
        }
    }
}

/// What each entry of a table of reserved names holds.
pub open spec fn reserved_views(table: Seq<Reserved>) -> Seq<ReservedView> {
    table.map_values(|e: Reserved| e@)
}

/// The first entry of the table for the name `target`.
pub open spec fn reserved_for(table: Seq<ReservedView>, target: Seq<char>) -> Option<ReservedView>
    decreases table.len(),
{
    if table.len() == 0 {
        None
    } else if table[0].name == target {
        Some(table[0])
    } else {
        reserved_for(table.drop_first(), target)
    }
}

/// The program that a shim starts and the arguments it passes, as plain
/// values.
pub open spec fn dispatch_of(
    target: Seq<char>,
    args: Seq<Seq<char>>,
    table: Seq<ReservedView>,
) -> (Seq<char>, Seq<Seq<char>>) {
    match reserved_for(table, target) {
        Some(e) => (e.front_end, seq![e.subcommand] + args),
        None => ("xvm"@, seq!["run"@, target, "--args"@] + args),
    }
}

/// The program that the shim called `target` starts, and the arguments it
/// passes: for a reserved name the front end with its subcommand before the
/// arguments, for any other name the manager, asked to run the target with
/// the arguments.
pub fn shim_dispatch(target: &str, args: &Vec<String>, table: &Vec<Reserved>) -> (r: (
    String,
    Vec<String>,
))
    ensures
        (r.0@, texts(r.1@)) == dispatch_of(target@, texts(args@), reserved_views(table@)),
{
    let mut i: usize = 0;
    assert(reserved_views(table@).skip(0) =~= reserved_views(table@));
    while i < table.len()
        invariant
            i <= table.len(),
            reserved_for(reserved_views(table@), target@) == reserved_for(
                reserved_views(table@).skip(i as int),
                target@,
            ),
        decreases table.len() - i,
    {
        proof {
            let all = reserved_views(table@);
            assert(all.skip(i as int).drop_first() =~= all.skip(i + 1));
            assert(all.skip(i as int)[0] == table@[i as int]@);
        }
        if str_eq(table[i].name.as_str(), target) {
            let mut out: Vec<String> = Vec::new();
            out.push(table[i].subcommand.clone());
            let ghost head = texts(out@);
            assert(head =~= seq![table@[i as int].subcommand@]);
            append_all(&mut out, args);
            return (table[i].front_end.clone(), out);
        }
        i += 1;
    }
    (String::from_str("xvm"), shim_arguments(target, args))
}

/// Puts each of `more` behind what `out` holds.
fn append_all(out: &mut Vec<String>, more: &Vec<String>)
    ensures
        texts(final(out)@) == texts(old(out)@) + texts(more@),
{
    let ghost head = texts(out@);
    let mut i: usize = 0;
    assert(texts(more@).take(0) =~= Seq::empty());
    assert(head + Seq::<Seq<char>>::empty() =~= head);
    while i < more.len()
        invariant
            i <= more.len(),
            head == texts(old(out)@),
            texts(out@) == head + texts(more@).take(i as int),
        decreases more.len() - i,
    {
        let ghost prev = out@;
        out.push(more[i].clone());
        proof {
            assert(texts(out@) =~= texts(prev).push(more@[i as int]@));
            assert(texts(more@).take(i + 1) =~= texts(more@).take(i as int).push(more@[i as int]@));
            assert(head + texts(more@).take(i + 1) =~= (head + texts(more@).take(i as int)).push(
                more@[i as int]@,
            ));
        }
        i += 1;
    }
    assert(texts(more@).take(more.len() as int) == texts(more@));
}

} // verus!
