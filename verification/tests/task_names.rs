use oxproc::task::{display_task_name, normalize_task_query, resolve_child_name};

#[test]
fn normalizes_colon_to_dot() {
    assert_eq!(normalize_task_query("frontend:build"), "frontend.build");
    assert_eq!(normalize_task_query("api:migrate"), "api.migrate");
}

#[test]
fn displays_dot_as_colon() {
    assert_eq!(display_task_name("frontend.build"), "frontend:build");
    assert_eq!(display_task_name("a.b.c"), "a:b:c");
}

#[test]
fn round_trip() {
    let original = "frontend.build.assets";
    let shown = display_task_name(original);
    let back = normalize_task_query(&shown);
    assert_eq!(back, original);
}

#[test]
fn resolves_child_names() {
    assert_eq!(resolve_child_name("build", "frontend"), "build.frontend");
    assert_eq!(
        resolve_child_name("build", "frontend.build"),
        "frontend.build"
    );
    assert_eq!(resolve_child_name("", "api.migrate"), "api.migrate");
    assert_eq!(resolve_child_name("group.sub", "task"), "group.sub.task");
    assert_eq!(resolve_child_name("group.sub", "api:deploy"), "api.deploy");
}

#[test]
fn normalize_trims_whitespace() {
    assert_eq!(normalize_task_query("  build:all \n"), "build.all");
    assert_eq!(normalize_task_query(""), "");
}
