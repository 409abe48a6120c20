//! Where things are found: paths with `/` as separator, and the choices made among them.
use vstd::prelude::*;

use crate::text;

verus! {

/// A path without the separators at its end.
pub open spec fn trimmed(p: Seq<char>) -> Seq<char>
    decreases p.len(),
{
    if p.len() > 0 && p.last() == '/' {
        trimmed(p.drop_last())
    } else {
        p
    }
}

/// What is left of a path when its last component is taken off.
pub open spec fn without_last(p: Seq<char>) -> Seq<char>
    decreases p.len(),
{
    if p.len() == 0 || p.last() == '/' {
        p
    } else {
        without_last(p.drop_last())
    }
}

/// The directory that holds what a path names. The root and the empty path have none.
pub open spec fn parent(p: Seq<char>) -> Option<Seq<char>> {
    let body = trimmed(p);
    if body.len() == 0 {
        None
    } else {
        let head = without_last(body);
        if head.len() > 0 && trimmed(head).len() == 0 {
            Some(seq!['/'])
        } else {
            Some(trimmed(head))
        }
    }
}

/// A path below a directory. An absolute path stays as it is.
pub open spec fn join(base: Seq<char>, rel: Seq<char>) -> Seq<char> {
    if rel.len() > 0 && rel[0] == '/' {
        rel
    } else if base.len() == 0 || base.last() == '/' {
        base + rel
    } else {
        base.push('/') + rel
    }
}

proof fn lemma_trimmed(p: Seq<char>)
    ensures
        trimmed(p).len() <= p.len(),
        trimmed(p).len() > 0 ==> trimmed(p).last() != '/',
    decreases p.len(),
{
    if p.len() > 0 && p.last() == '/' {
        lemma_trimmed(p.drop_last());
    }
}

proof fn lemma_without_last(p: Seq<char>)
    ensures
        without_last(p).len() <= p.len(),
        p.len() > 0 && p.last() != '/' ==> without_last(p).len() < p.len(),
    decreases p.len(),
{
    if p.len() > 0 && p.last() != '/' {
        lemma_without_last(p.drop_last());
    }
}

/// The parent of a path is shorter, but for the root directory of a one-character path.
proof fn lemma_parent(p: Seq<char>)
    ensures
        parent(p) is Some ==> parent(p)->0.len() < p.len(),
{
    let body = trimmed(p);
    lemma_trimmed(p);
    if body.len() > 0 {
        lemma_without_last(body);
        lemma_trimmed(without_last(body));
    }
}

/// A directory and the directories above it, the nearest first.
pub open spec fn ancestors(p: Seq<char>) -> Seq<Seq<char>>
    decreases p.len(),
{
    match parent(p) {
        Some(q) => if q.len() < p.len() {
            seq![p] + ancestors(q)
        } else {
            seq![p]
        },
        None => seq![p],
    }
}

fn trim(chars: &mut Vec<char>)
    ensures
        final(chars)@ == trimmed(old(chars)@),
    decreases old(chars)@.len(),
{
    if chars.len() > 0 && chars[chars.len() - 1] == '/' {
        chars.pop();
        assert(chars@ =~= old(chars)@.drop_last());
        trim(chars);
    }
}

fn drop_component(chars: &mut Vec<char>)
    ensures
        final(chars)@ == without_last(old(chars)@),
    decreases old(chars)@.len(),
{
    if chars.len() > 0 && chars[chars.len() - 1] != '/' {
        chars.pop();
        assert(chars@ =~= old(chars)@.drop_last());
        drop_component(chars);
    }
}

/// The directory that holds what a path names.
pub fn parent_of(p: &str) -> (out: Option<String>)
    ensures
        text::opt_text(out) == parent(p@),
{
    let mut chars: Vec<char> = text::chars_of(p);
    trim(&mut chars);
    if chars.len() == 0 {
        return None;
    }
    drop_component(&mut chars);
    let rooted: bool = chars.len() > 0;
    trim(&mut chars);
    if rooted && chars.len() == 0 {
        chars.push('/');
        assert(chars@ =~= seq!['/']);
    }
    Some(text::string_of(&chars))
}

/// A path below a directory.
pub fn joined(base: &str, rel: &str) -> (out: String)
    ensures
        out@ == join(base@, rel@),
{
    let b: Vec<char> = text::chars_of(base);
    let r: Vec<char> = text::chars_of(rel);
    if r.len() > 0 && r[0] == '/' {
        return text::owned(rel);
    }
    let mut out: String = text::owned(base);
    if b.len() > 0 && b[b.len() - 1] != '/' {
        out.push('/');
    }
    out.append(rel);
    out
}

/// A directory and the directories above it, the nearest first.
pub fn ancestors_of(p: &str) -> (out: Vec<String>)
    ensures
        text::texts(out@) == ancestors(p@),
    decreases p@.len(),
{
    let mut out: Vec<String> = Vec::new();
    out.push(text::owned(p));
    assert(text::texts(out@) =~= seq![p@]);
    proof {
        lemma_parent(p@);
    }
    if let Some(q) = parent_of(p) {
        let mut rest: Vec<String> = ancestors_of(q.as_str());
        let ghost below = out@;
        let ghost above = rest@;
        out.append(&mut rest);
        assert(text::texts(out@) =~= text::texts(below) + text::texts(above));
    }
    out
}

/// The first of these paths that is on the list.
pub open spec fn first_listed(paths: Seq<Seq<char>>, list: Seq<Seq<char>>) -> Option<Seq<char>>
    decreases paths.len(),
{
    if paths.len() == 0 {
        None
    } else if list.contains(paths[0]) {
        Some(paths[0])
    } else {
        first_listed(paths.drop_first(), list)
    }
}

/// Whether a text is on a list.
pub fn listed(list: &Vec<String>, s: &str) -> (out: bool)
    ensures
        out == text::texts(list@).contains(s@),
{
    let ghost all = text::texts(list@);
    let mut i: usize = 0;
    while i < list.len()
        invariant
            i <= list.len(),
            all == text::texts(list@),
            forall|k: int| 0 <= k < i ==> all[k] != s@,
        decreases list.len() - i,
    {
        if text::same(list[i].as_str(), s) {
            assert(all[i as int] == s@);
            return true;
        }
        i += 1;
    }
    false
}

/// The first of these paths that is on the list.
pub(crate) fn find_listed(paths: &Vec<String>, list: &Vec<String>) -> (out: Option<String>)
    ensures
        text::opt_text(out) == first_listed(text::texts(paths@), text::texts(list@)),
{
    let ghost all = text::texts(paths@);
    let ghost l = text::texts(list@);
    let mut i: usize = 0;
    assert(all.skip(0) =~= all);
    while i < paths.len()
        invariant
            i <= paths.len(),
            all == text::texts(paths@),
            l == text::texts(list@),
            first_listed(all, l) == first_listed(all.skip(i as int), l),
        decreases paths.len() - i,
    {
        assert(all.skip(i as int)[0] == all[i as int]);
        if listed(list, paths[i].as_str()) {
            return Some(paths[i].clone());
        }
        assert(all.skip(i as int).drop_first() =~= all.skip(i + 1));
        i += 1;
    }
    None
}

/// The nearest directory at or above `start_dir` among those that hold a workspace marker.
pub fn find_workspace_marker_root(start_dir: &str, marked: &Vec<String>) -> (out: Option<String>)
    ensures
        text::opt_text(out) == first_listed(ancestors(start_dir@), text::texts(marked@)),
{
    let up: Vec<String> = ancestors_of(start_dir);
    find_listed(&up, marked)
}

/// The workspace of an invocation: the nearest marked directory, else the root of the repository,
/// else the directory itself.
pub open spec fn workspace_root(
    start: Seq<char>,
    marked: Seq<Seq<char>>,
    vcs_root: Option<Seq<char>>,
) -> Seq<char> {
    match first_listed(ancestors(start), marked) {
        Some(p) => p,
        None => match vcs_root {
            Some(r) => r,
            None => start,
        },
    }
}

/// The workspace of an invocation, given the directories that hold a marker and the root of the
/// repository around `start_dir`.
pub fn workspace_root_from_invocation_dir(
    start_dir: &str,
    marked: &Vec<String>,
    vcs_root: &Option<String>,
) -> (out: String)
    ensures
        out@ == workspace_root(start_dir@, text::texts(marked@), text::opt_text(*vcs_root)),
{
    match find_workspace_marker_root(start_dir, marked) {
        Some(p) => p,
        None => match vcs_root {
            Some(r) => r.clone(),
            None => text::owned(start_dir),
        },
    }
}

/// The database of a directory.
pub open spec fn db_in(dir: Seq<char>) -> Seq<char> {
    join(join(dir, ".overseer"@), "tasks.db"@)
}

/// The database to use: the one that the environment names, else the nearest existing one at or
/// above the directory, else one at the root of the repository or in the directory itself.
pub open spec fn default_db(
    base: Seq<char>,
    env: Option<Seq<char>>,
    existing: Seq<Seq<char>>,
    vcs_root: Option<Seq<char>>,
) -> Seq<char> {
    match env {
        Some(p) => p,
        None => match first_listed(ancestors(base), existing) {
            Some(dir) => db_in(dir),
            None => match vcs_root {
                Some(r) => db_in(r),
                None => db_in(base),
            },
        },
    }
}

fn db_path_in(dir: &str) -> (out: String)
    ensures
        out@ == db_in(dir@),
{
    let hidden: String = joined(dir, ".overseer");
    joined(hidden.as_str(), "tasks.db")
}

/// The database to use, given the path that the environment names, the directories that hold a
/// database and the root of the repository around `base_dir`.
pub fn default_db_path_from(
    base_dir: &str,
    env: &Option<String>,
    existing: &Vec<String>,
    vcs_root: &Option<String>,
) -> (out: String)
    ensures
        out@ == default_db(
            base_dir@,
            text::opt_text(*env),
            text::texts(existing@),
            text::opt_text(*vcs_root),
        ),
{
    if let Some(p) = env {
        return p.clone();
    }
    let up: Vec<String> = ancestors_of(base_dir);
    match find_listed(&up, existing) {
        Some(dir) => db_path_in(dir.as_str()),
        None => match vcs_root {
            Some(r) => db_path_in(r.as_str()),
            None => db_path_in(base_dir),
        },
    }
}

/// The places where the host script is looked for, relative to the program's directory.
pub open spec fn host_script_places() -> Seq<Seq<char>> {
    seq![
        "../../../host/dist/index.js"@,
        "../@dmmulroy/overseer/host/dist/index.js"@,
        "../overseer/host/dist/index.js"@,
        "../../@dmmulroy/overseer/host/dist/index.js"@,
        "../../../../host/dist/index.js"@,
    ]
}

/// The places where the files of the user interface are looked for, relative to the program's
/// directory.
pub open spec fn static_root_places() -> Seq<Seq<char>> {
    seq![
        "../../../ui/dist"@,
        "../@dmmulroy/overseer/ui/dist"@,
        "../overseer/ui/dist"@,
        "../../@dmmulroy/overseer/ui/dist"@,
        "../../../../ui/dist"@,
    ]
}

/// Places below the directory of the program; none where the program has no directory.
pub open spec fn candidates(exe: Seq<char>, places: Seq<Seq<char>>) -> Seq<Seq<char>> {
    match parent(exe) {
        Some(dir) => places.map_values(|p: Seq<char>| join(dir, p)),
        None => Seq::empty(),
    }
}

fn candidate_paths(exe_path: &str, places: &Vec<String>) -> (out: Vec<String>)
    ensures
        text::texts(out@) == candidates(exe_path@, text::texts(places@)),
{
    let mut out: Vec<String> = Vec::new();
    match parent_of(exe_path) {
        None => {
            assert(text::texts(out@) =~= Seq::<Seq<char>>::empty());
        },
        Some(dir) => {
            let ghost all = text::texts(places@);
            let ghost f = |p: Seq<char>| join(dir@, p);
            let mut i: usize = 0;
            while i < places.len()
                invariant
                    i <= places.len(),
                    all == text::texts(places@),
                    f == (|p: Seq<char>| join(dir@, p)),
                    text::texts(out@) == all.take(i as int).map_values(f),
                decreases places.len() - i,
            {
                let ghost before = out@;
                let path: String = joined(dir.as_str(), places[i].as_str());
                let ghost v = path@;
                out.push(path);
                i += 1;
                assert(text::texts(out@) =~= text::texts(before).push(v));
                assert(text::texts(out@) =~= all.take(i as int).map_values(f));
            }
            assert(all.take(all.len() as int) =~= all);
        },
    }
    out
}

/// Where the host script is looked for.
pub fn host_script_candidates(exe_path: &str) -> (out: Vec<String>)
    ensures
        text::texts(out@) == candidates(exe_path@, host_script_places()),
{
    let mut places: Vec<String> = Vec::new();
    places.push(text::owned("../../../host/dist/index.js"));
    places.push(text::owned("../@dmmulroy/overseer/host/dist/index.js"));
    places.push(text::owned("../overseer/host/dist/index.js"));
    places.push(text::owned("../../@dmmulroy/overseer/host/dist/index.js"));
    places.push(text::owned("../../../../host/dist/index.js"));
    assert(text::texts(places@) =~= host_script_places());
    candidate_paths(exe_path, &places)
}

/// Where the files of the user interface are looked for.
pub fn static_root_candidates(exe_path: &str) -> (out: Vec<String>)
    ensures
        text::texts(out@) == candidates(exe_path@, static_root_places()),
{
    let mut places: Vec<String> = Vec::new();
    places.push(text::owned("../../../ui/dist"));
    places.push(text::owned("../@dmmulroy/overseer/ui/dist"));
    places.push(text::owned("../overseer/ui/dist"));
    places.push(text::owned("../../@dmmulroy/overseer/ui/dist"));
    places.push(text::owned("../../../../ui/dist"));
    assert(text::texts(places@) =~= static_root_places());
    candidate_paths(exe_path, &places)
}

/// The first place that exists, where `resolved` gives the real path of each place that does.
pub open spec fn first_found(resolved: Seq<Option<String>>) -> Option<Seq<char>>
    decreases resolved.len(),
{
    if resolved.len() == 0 {
        None
    } else if resolved[0] is Some {
        text::opt_text(resolved[0])
    } else {
        first_found(resolved.drop_first())
    }
}

fn pick_found(resolved: &Vec<Option<String>>) -> (out: Option<String>)
    ensures
        text::opt_text(out) == first_found(resolved@),
{
    let mut i: usize = 0;
    assert(resolved@.skip(0) =~= resolved@);
    while i < resolved.len()
        invariant
            i <= resolved.len(),
            first_found(resolved@) == first_found(resolved@.skip(i as int)),
        decreases resolved.len() - i,
    {
        assert(resolved@.skip(i as int)[0] == resolved@[i as int]);
        if let Some(p) = &resolved[i] {
            return Some(p.clone());
        }
        assert(resolved@.skip(i as int).drop_first() =~= resolved@.skip(i + 1));
        i += 1;
    }
    None
}

/// The host script: the first candidate that exists. `resolved` gives, for each candidate in
/// order, its real path where the file is there.
pub fn find_host_script(resolved: &Vec<Option<String>>) -> (out: Option<String>)
    ensures
        text::opt_text(out) == first_found(resolved@),
{
    pick_found(resolved)
}

/// The files of the user interface: the first candidate that exists and has an index page.
/// `resolved` gives, for each candidate in order, its real path where both are there.
pub fn find_static_root(resolved: &Vec<Option<String>>) -> (out: Option<String>)
    ensures
        text::opt_text(out) == first_found(resolved@),
{
    pick_found(resolved)
}

/// The arguments for the host server.
pub open spec fn host_arguments(
    script: Seq<char>,
    mode: Seq<char>,
    cli_path: Seq<char>,
    cwd: Seq<char>,
    db_path: Seq<char>,
    static_root: Seq<char>,
    port: u16,
) -> Seq<Seq<char>> {
    let common = seq![script, mode, "--cli-path"@, cli_path, "--cwd"@, cwd, "--db-path"@, db_path];
    if mode == "ui"@ {
        common + seq!["--static-root"@, static_root, "--port"@, text::nat_text(port as nat)]
    } else {
        common
    }
}

/// The arguments for the host server.
pub fn host_args(
    script: &str,
    mode: &str,
    cli_path: &str,
    cwd: &str,
    db_path: &str,
    static_root: &str,
    port: u16,
) -> (out: Vec<String>)
    ensures
        text::texts(out@) == host_arguments(
            script@,
            mode@,
            cli_path@,
            cwd@,
            db_path@,
            static_root@,
            port,
        ),
{
    let mut args: Vec<String> = Vec::new();
    args.push(text::owned(script));
    args.push(text::owned(mode));
    args.push(text::owned("--cli-path"));
    args.push(text::owned(cli_path));
    args.push(text::owned("--cwd"));
    args.push(text::owned(cwd));
    args.push(text::owned("--db-path"));
    args.push(text::owned(db_path));
    if text::same(mode, "ui") {
        args.push(text::owned("--static-root"));
        args.push(text::owned(static_root));
        args.push(text::owned("--port"));
        args.push(text::format_u64(port as u64));
    }
    assert(text::texts(args@) =~= host_arguments(
        script@,
        mode@,
        cli_path@,
        cwd@,
        db_path@,
        static_root@,
        port,
    ));
    args
}

/// A database path given on the command line, taken from the directory of the command.
pub fn resolve_db_path(base_dir: &str, db: &str) -> (out: String)
    ensures
        out@ == join(base_dir@, db@),
{
    joined(base_dir, db)
}

} // verus!
