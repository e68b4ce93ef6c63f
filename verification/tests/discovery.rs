use dev_prune_core::config::Registry;
use dev_prune_core::discovery::{
    conventional_roots, dedupe_nested, is_scannable_root, neighbourhood_roots, note_repo,
    parent_path, sorted_finds, workspace_root, Discovery,
};
use dev_prune_core::order::{ancestors, lexical_components, render};

#[test]
fn the_home_directory_is_never_a_scan_root() {
    let Some(home) = dirs::home_dir() else {
        return;
    };
    let home = home.to_string_lossy().into_owned();
    assert!(!is_scannable_root(&home, true, Some(&home)));
    assert!(!is_scannable_root(&format!("{home}/"), true, Some(&home)));
}

#[test]
fn a_directory_too_close_to_the_filesystem_root_is_refused() {
    assert!(!is_scannable_root("/", true, None));
    assert!(!is_scannable_root("/home", true, None));
    assert!(is_scannable_root("/home/dev", true, None));
    assert!(!is_scannable_root("/home/dev", false, None));
}

#[test]
fn a_root_inside_another_root_is_not_walked_twice() {
    let outer = "/t/a/b/outer";
    let mut registry = Registry::default();
    registry.add_repo(&format!("{outer}/one"), 0);
    registry.add_repo(&format!("{outer}/nested/deeper/two"), 0);

    let roots = dedupe_nested(&neighbourhood_roots(&registry));
    let under_outer: Vec<&String> = roots.iter().filter(|r| r.starts_with(outer)).collect();
    assert_eq!(under_outer.len(), 1, "{roots:?}");
    assert_eq!(roots, vec![outer.to_string()]);
}

#[test]
fn roots_are_walked_in_path_order_and_duplicates_once() {
    let roots = vec![
        "/w/b".to_string(),
        "/w/a/x".to_string(),
        "/w/a".to_string(),
        "/w/a/".to_string(),
        "/w/a-b".to_string(),
    ];
    assert_eq!(
        dedupe_nested(&roots),
        vec!["/w/a".to_string(), "/w/a-b".to_string(), "/w/b".to_string()]
    );
    assert!(dedupe_nested(&vec![]).is_empty());
}

#[test]
fn the_neighbourhood_is_the_parents_of_what_is_registered() {
    let mut registry = Registry::default();
    registry.add_repo("/home/dev/code/api", 0);
    registry.add_repo("/", 0);
    assert_eq!(neighbourhood_roots(&registry), vec!["/home/dev/code".to_string()]);
    assert_eq!(parent_path("/a/b/").as_deref(), Some("/a"));
    assert_eq!(parent_path("a").as_deref(), Some(""));
    assert_eq!(parent_path("/"), None);
    assert_eq!(workspace_root("/w/repo", true).as_deref(), Some("/w"));
    assert_eq!(workspace_root("/w", false).as_deref(), Some("/w"));
    let conv = conventional_roots("/home/dev");
    assert_eq!(conv.len(), 15);
    assert_eq!(conv[0], "/home/dev/Code");
    assert_eq!(conv[12], "/home/dev/Documents/GitHub");
}

#[test]
fn each_find_is_counted_once_and_an_opt_out_is_never_offered() {
    let mut d = Discovery { found: vec![], opted_out: 0, throwaway: 0, roots: vec![] };
    let mut seen: Vec<String> = Vec::new();
    note_repo(&mut d, &mut seen, "/w/known", true, false, false);
    note_repo(&mut d, &mut seen, "/w/sibling", false, false, false);
    note_repo(&mut d, &mut seen, "/w/sibling/", false, false, false);
    note_repo(&mut d, &mut seen, "/w/declined", false, false, true);
    note_repo(&mut d, &mut seen, "/w/node_modules/pkg", false, true, false);
    assert_eq!(d.found, vec!["/w/sibling".to_string()]);
    assert_eq!(d.opted_out, 1);
    assert_eq!(d.throwaway, 1);
    assert_eq!(seen.len(), 4);
    let sorted = sorted_finds(&vec!["/w/b".to_string(), "/w/a".to_string()]);
    assert_eq!(sorted, vec!["/w/a".to_string(), "/w/b".to_string()]);
}

#[test]
fn a_path_that_no_longer_exists_is_resolved_lexically() {
    let c = lexical_components("../x/./y", "/home/u/code");
    assert_eq!(render(&c), "/home/u/x/y");
    assert_eq!(render(&lexical_components("/a/../../b", "/ignored")), "/b");
    assert_eq!(render(&lexical_components("a/b", "")), "a/b");
    let a = ancestors(&lexical_components("/a/b", "/"));
    assert_eq!(
        a,
        vec![
            ("/a/b".to_string(), "".to_string()),
            ("/a".to_string(), "b".to_string()),
            ("/".to_string(), "a/b".to_string()),
        ]
    );
}
