//! What is found where, for paths.
use vstd::prelude::*;

use crate::paths;
use crate::text;

verus! {

/// Whether a text is one component of a path.
pub open spec fn component(name: Seq<char>) -> bool {
    name.len() > 0 && !name.contains('/')
}

/// What a path below a directory names is held by that directory. An absolute path stays as it is.
pub proof fn law_joined_paths(base: Seq<char>, name: Seq<char>)
    requires
        component(name),
    ensures
        base.len() > 0 && base.last() != '/' ==> {
            &&& paths::join(base, name) == base + seq!['/'] + name
            &&& paths::parent(paths::join(base, name)) == Some(base)
        },
        paths::join(seq!['/'], name) == seq!['/'] + name,
        paths::parent(paths::join(seq!['/'], name)) == Some(seq!['/']),
        paths::join(Seq::empty(), name) == name,
        paths::parent(name) == Some(Seq::<char>::empty()),
        paths::join(base, seq!['/'] + name) == seq!['/'] + name,
        paths::parent(seq!['/']) is None,
        paths::parent(Seq::empty()) is None,
{
    let root = seq!['/'];
    let empty = Seq::<char>::empty();
    reveal_with_fuel(paths::trimmed, 2);
    assert(name.last() != '/') by {
        assert(name.contains(name.last()));
    }
    assert(name[0] != '/') by {
        assert(name.contains(name[0]));
    }
    lemma_last_taken_off(empty, name);
    assert(empty + name =~= name);
    assert(paths::join(empty, name) =~= name);
    lemma_last_taken_off(root, name);
    assert(root.drop_last() =~= empty);
    assert(paths::join(root, name) =~= root + name);
    if base.len() > 0 && base.last() != '/' {
        let head = base.push('/');
        assert(paths::join(base, name) =~= base + root + name);
        assert(head + name =~= base + root + name);
        lemma_last_taken_off(head, name);
        assert(head.drop_last() =~= base);
        assert(paths::trimmed(head) == base);
    }
}

proof fn lemma_last_taken_off(head: Seq<char>, name: Seq<char>)
    requires
        head.len() == 0 || head.last() == '/',
        !name.contains('/'),
    ensures
        paths::without_last(head + name) == head,
    decreases name.len(),
{
    let p = head + name;
    if name.len() == 0 {
        assert(p =~= head);
    } else {
        let rest = name.drop_last();
        assert(name.contains(name.last()));
        assert(p.drop_last() =~= head + rest);
        assert(!rest.contains('/')) by {
            if rest.contains('/') {
                let i = choose|i: int| 0 <= i < rest.len() && rest[i] == '/';
                assert(name[i] == '/');
            }
        }
        lemma_last_taken_off(head, rest);
    }
}

/// The directories at and above a path begin with the path itself; behind each one stands the one
/// that holds it, until there is none.
pub proof fn law_directories_above(p: Seq<char>, i: int)
    requires
        0 <= i < paths::ancestors(p).len(),
    ensures
        paths::ancestors(p)[0] == p,
        i + 1 < paths::ancestors(p).len() ==> paths::parent(paths::ancestors(p)[i]) == Some(
            paths::ancestors(p)[i + 1],
        ),
        i + 1 == paths::ancestors(p).len() ==> match paths::parent(paths::ancestors(p)[i]) {
            Some(q) => q.len() >= paths::ancestors(p)[i].len(),
            None => true,
        },
    decreases p.len(),
{
    match paths::parent(p) {
        Some(q) => {
            if q.len() < p.len() {
                let rest = paths::ancestors(q);
                assert(rest.len() > 0);
                law_directories_above(q, 0);
                if i > 0 {
                    law_directories_above(q, i - 1);
                    assert(paths::ancestors(p)[i] == rest[i - 1]);
                }
                if i + 1 < paths::ancestors(p).len() {
                    assert(paths::ancestors(p)[i + 1] == rest[i]);
                }
            }
        },
        None => {},
    }
}

/// Whether an element is the first that is on a list.
pub open spec fn first_on(all: Seq<Seq<char>>, list: Seq<Seq<char>>, i: int) -> bool {
    &&& 0 <= i < all.len()
    &&& list.contains(all[i])
    &&& forall|j: int| 0 <= j < i ==> !list.contains(#[trigger] all[j])
}

pub proof fn lemma_first_listed(all: Seq<Seq<char>>, list: Seq<Seq<char>>)
    ensures
        match paths::first_listed(all, list) {
            Some(p) => exists|i: int| #[trigger] first_on(all, list, i) && all[i] == p,
            None => forall|j: int| 0 <= j < all.len() ==> !list.contains(#[trigger] all[j]),
        },
    decreases all.len(),
{
    if all.len() > 0 {
        if list.contains(all[0]) {
            assert(first_on(all, list, 0));
        } else {
            let rest = all.drop_first();
            lemma_first_listed(rest, list);
            match paths::first_listed(rest, list) {
                Some(p) => {
                    let i = choose|i: int| #[trigger] first_on(rest, list, i) && rest[i] == p;
                    assert forall|j: int| 0 <= j < i + 1 implies !list.contains(
                        #[trigger] all[j],
                    ) by {
                        if j > 0 {
                            assert(rest[j - 1] == all[j]);
                        }
                    }
                    assert(all[i + 1] == rest[i]);
                    assert(first_on(all, list, i + 1));
                },
                None => {
                    assert forall|j: int| 0 <= j < all.len() implies !list.contains(
                        #[trigger] all[j],
                    ) by {
                        if j > 0 {
                            assert(rest[j - 1] == all[j]);
                        }
                    }
                },
            }
        }
    }
}

/// The workspace is the nearest directory, at or above the one of the invocation, that is marked;
/// where none is, the root of the repository, and without one the directory itself.
pub proof fn law_workspace(
    start: Seq<char>,
    marked: Seq<Seq<char>>,
    vcs_root: Option<Seq<char>>,
)
    ensures
        ({
            let dirs = paths::ancestors(start);
            let w = paths::workspace_root(start, marked, vcs_root);
            &&& (exists|j: int| 0 <= j < dirs.len() && marked.contains(#[trigger] dirs[j]))
                ==> exists|i: int| #[trigger] first_on(dirs, marked, i) && w == dirs[i]
            &&& (forall|j: int| 0 <= j < dirs.len() ==> !marked.contains(#[trigger] dirs[j]))
                ==> w == (if vcs_root is Some {
                vcs_root->0
            } else {
                start
            })
        }),
{
    lemma_first_listed(paths::ancestors(start), marked);
}

/// The database is the one that the environment names; else that of the nearest directory, at or
/// above the current one, that has one; else that of the repository, and without one that of the
/// current directory.
pub proof fn law_database(
    base: Seq<char>,
    env: Option<Seq<char>>,
    existing: Seq<Seq<char>>,
    vcs_root: Option<Seq<char>>,
)
    ensures
        ({
            let dirs = paths::ancestors(base);
            let p = paths::default_db(base, env, existing, vcs_root);
            &&& env is Some ==> p == env->0
            &&& env is None && (exists|j: int|
                0 <= j < dirs.len() && existing.contains(#[trigger] dirs[j])) ==> exists|i: int| #[trigger]
                first_on(dirs, existing, i) && database_of(p, dirs[i])
            &&& env is None && (forall|j: int|
                0 <= j < dirs.len() ==> !existing.contains(#[trigger] dirs[j])) ==> database_of(
                p,
                if vcs_root is Some {
                    vcs_root->0
                } else {
                    base
                },
            )
        }),
{
    let dirs = paths::ancestors(base);
    lemma_first_listed(dirs, existing);
    lemma_database_of(base);
    match vcs_root {
        Some(r) => lemma_database_of(r),
        None => {},
    }
    match paths::first_listed(dirs, existing) {
        Some(q) => lemma_database_of(q),
        None => {},
    }
}

/// Whether a path names the database of a directory: `.overseer/tasks.db` below it.
pub open spec fn database_of(p: Seq<char>, dir: Seq<char>) -> bool {
    let tail = ".overseer/tasks.db"@;
    if dir.len() == 0 || dir.last() == '/' {
        p == dir + tail
    } else {
        p == dir + seq!['/'] + tail
    }
}

proof fn lemma_database_of(dir: Seq<char>)
    ensures
        database_of(paths::db_in(dir), dir),
{
    reveal_strlit(".overseer/tasks.db");
    reveal_strlit(".overseer");
    reveal_strlit("tasks.db");
    let p = paths::db_in(dir);
    let tail = ".overseer/tasks.db"@;
    assert(".overseer"@.push('/') + "tasks.db"@ =~= tail);
    if dir.len() == 0 || dir.last() == '/' {
        assert(p =~= dir + tail);
    } else {
        assert(p =~= dir + seq!['/'] + tail);
    }
}

/// A file that belongs to the program is looked for at each place below the program's directory, in
/// the order of the places, and the first one that exists is taken.
pub proof fn law_places_in_turn(
    dir: Seq<char>,
    name: Seq<char>,
    places: Seq<Seq<char>>,
    i: int,
    resolved: Seq<Option<String>>,
)
    requires
        component(name),
        dir.len() > 0,
        dir.last() != '/',
        0 <= i < places.len(),
        places[i].len() > 0,
        places[i][0] != '/',
    ensures
        paths::candidates(dir + seq!['/'] + name, places).len() == places.len(),
        paths::candidates(dir + seq!['/'] + name, places)[i] == dir + seq!['/'] + places[i],
        match paths::first_found(resolved) {
            Some(p) => exists|j: int|
                {
                    &&& 0 <= j < resolved.len() && (#[trigger] resolved[j]) is Some
                    &&& resolved[j]->0@ == p
                    &&& forall|k: int| 0 <= k < j ==> (#[trigger] resolved[k]) is None
                },
            None => forall|k: int| 0 <= k < resolved.len() ==> (#[trigger] resolved[k]) is None,
        },
{
    law_joined_paths(dir, name);
    lemma_first_found(resolved);
    assert(paths::join(dir, places[i]) =~= dir + seq!['/'] + places[i]);
}

proof fn lemma_first_found(resolved: Seq<Option<String>>)
    ensures
        match paths::first_found(resolved) {
            Some(p) => exists|j: int|
                {
                    &&& 0 <= j < resolved.len() && (#[trigger] resolved[j]) is Some
                    &&& resolved[j]->0@ == p
                    &&& forall|k: int| 0 <= k < j ==> (#[trigger] resolved[k]) is None
                },
            None => forall|k: int| 0 <= k < resolved.len() ==> (#[trigger] resolved[k]) is None,
        },
    decreases resolved.len(),
{
    if resolved.len() > 0 && resolved[0] is None {
        let rest = resolved.drop_first();
        lemma_first_found(rest);
        match paths::first_found(rest) {
            Some(p) => {
                let j = choose|j: int|
                    {
                        &&& 0 <= j < rest.len() && (#[trigger] rest[j]) is Some
                        &&& rest[j]->0@ == p
                        &&& forall|k: int| 0 <= k < j ==> (#[trigger] rest[k]) is None
                    };
                assert(resolved[j + 1] == rest[j]);
                assert forall|k: int| 0 <= k < j + 1 implies (#[trigger] resolved[k]) is None by {
                    if k > 0 {
                        assert(rest[k - 1] == resolved[k]);
                    }
                }
            },
            None => {
                assert forall|k: int| 0 <= k < resolved.len() implies (
                #[trigger] resolved[k]) is None by {
                    if k > 0 {
                        assert(rest[k - 1] == resolved[k]);
                    }
                }
            },
        }
    }
}

/// Whether a value stands behind its flag.
pub open spec fn given(args: Seq<Seq<char>>, flag: Seq<char>, value: Seq<char>) -> bool {
    exists|i: int| #[trigger] given_at(args, flag, value, i)
}

/// Whether a value stands behind its flag at a place.
pub open spec fn given_at(args: Seq<Seq<char>>, flag: Seq<char>, value: Seq<char>, i: int) -> bool {
    0 <= i && i + 1 < args.len() && args[i] == flag && args[i + 1] == value
}

/// The host server is run with the script and the mode first and then each setting behind its flag;
/// the files of the user interface and the port are handed over for the user interface only.
pub proof fn law_host_arguments(
    script: Seq<char>,
    mode: Seq<char>,
    cli: Seq<char>,
    cwd: Seq<char>,
    db: Seq<char>,
    files: Seq<char>,
    port: u16,
)
    ensures
        ({
            let args = paths::host_arguments(script, mode, cli, cwd, db, files, port);
            &&& args[0] == script && args[1] == mode
            &&& given(args, "--cli-path"@, cli)
            &&& given(args, "--cwd"@, cwd)
            &&& given(args, "--db-path"@, db)
            &&& mode == "ui"@ ==> args.len() == 12 && given(args, "--static-root"@, files) && given(
                args,
                "--port"@,
                text::nat_text(port as nat),
            )
            &&& mode != "ui"@ ==> args.len() == 8
        }),
{
    let args = paths::host_arguments(script, mode, cli, cwd, db, files, port);
    assert(given_at(args, "--cli-path"@, cli, 2));
    assert(given_at(args, "--cwd"@, cwd, 4));
    assert(given_at(args, "--db-path"@, db, 6));
    if mode == "ui"@ {
        assert(given_at(args, "--static-root"@, files, 8));
        assert(given_at(args, "--port"@, text::nat_text(port as nat), 10));
    }
}

} // verus!
