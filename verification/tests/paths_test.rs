//! Where the workspace, the database and the host server are.
use overseer::paths;

fn list(items: &[&str]) -> Vec<String> {
    items.iter().map(|s| s.to_string()).collect()
}

#[test]
fn workspace_root_prefers_overseer_marker_ancestor() {
    let resolved = paths::workspace_root_from_invocation_dir(
        "/tmp/app/frontend/src",
        &list(&["/tmp/app"]),
        &None,
    );
    assert_eq!(resolved, "/tmp/app");
}

#[test]
fn workspace_root_falls_back_to_vcs_root_without_marker() {
    let resolved = paths::workspace_root_from_invocation_dir(
        "/tmp/repo/src/lib",
        &list(&[]),
        &Some("/tmp/repo".to_string()),
    );
    assert_eq!(resolved, "/tmp/repo");
}

#[test]
fn workspace_root_falls_back_to_start_dir_when_no_marker_or_vcs() {
    let resolved =
        paths::workspace_root_from_invocation_dir("/tmp/plain/dir", &list(&[]), &None);
    assert_eq!(resolved, "/tmp/plain/dir");
}

#[test]
fn the_nearest_marker_wins() {
    assert_eq!(
        paths::find_workspace_marker_root("/a/b/c", &list(&["/", "/a", "/a/b"])),
        Some("/a/b".to_string())
    );
    assert_eq!(paths::find_workspace_marker_root("/a/b/c", &list(&["/x"])), None);
}

#[test]
fn paths_go_up_to_the_root() {
    assert_eq!(paths::ancestors_of("/a/b"), list(&["/a/b", "/a", "/"]));
    assert_eq!(paths::parent_of("/a/b"), Some("/a".to_string()));
    assert_eq!(paths::parent_of("/"), None);
    assert_eq!(paths::joined("/a", "b"), "/a/b");
    assert_eq!(paths::joined("/a/", "b"), "/a/b");
    assert_eq!(paths::joined("/a", "/b"), "/b");
}

#[test]
fn the_database_is_looked_for_in_order() {
    let env = Some("/elsewhere/t.db".to_string());
    assert_eq!(
        paths::default_db_path_from("/w/sub", &env, &list(&["/w"]), &None),
        "/elsewhere/t.db"
    );
    assert_eq!(
        paths::default_db_path_from(
            "/w/sub",
            &None,
            &list(&["/w"]),
            &Some("/w/sub".to_string())
        ),
        "/w/.overseer/tasks.db"
    );
    assert_eq!(
        paths::default_db_path_from("/w/sub", &None, &list(&[]), &Some("/w".to_string())),
        "/w/.overseer/tasks.db"
    );
    assert_eq!(
        paths::default_db_path_from("/w/sub", &None, &list(&[]), &None),
        "/w/sub/.overseer/tasks.db"
    );
    assert_eq!(paths::resolve_db_path("/w", "x.db"), "/w/x.db");
    assert_eq!(paths::resolve_db_path("/w", "/y.db"), "/y.db");
}

#[test]
fn the_host_server_is_looked_for_beside_the_program() {
    let c = paths::host_script_candidates("/opt/os/bin/os");
    assert_eq!(c.len(), 5);
    assert_eq!(c[0], "/opt/os/bin/../../../host/dist/index.js");
    assert_eq!(c[4], "/opt/os/bin/../../../../host/dist/index.js");
    let s = paths::static_root_candidates("/opt/os/bin/os");
    assert_eq!(s[1], "/opt/os/bin/../@dmmulroy/overseer/ui/dist");
    assert_eq!(
        paths::find_host_script(&vec![None, Some("/b".to_string()), Some("/c".to_string())]),
        Some("/b".to_string())
    );
    assert_eq!(paths::find_static_root(&vec![None, None]), None);
}

#[test]
fn the_host_server_gets_its_arguments() {
    let ui = paths::host_args("/h.js", "ui", "/bin/os", "/w", "/w/t.db", "/ui", 6969);
    assert_eq!(
        ui,
        list(&[
            "/h.js", "ui", "--cli-path", "/bin/os", "--cwd", "/w", "--db-path", "/w/t.db",
            "--static-root", "/ui", "--port", "6969"
        ])
    );
    let mcp = paths::host_args("/h.js", "mcp", "/bin/os", "/w", "/w/t.db", "", 0);
    assert_eq!(mcp.len(), 8);
}
