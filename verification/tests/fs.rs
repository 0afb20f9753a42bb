use native_tauri_surface::fs::{visible_subdirectories, DirCandidate};

fn candidate(name: &str, is_dir: bool) -> DirCandidate {
    DirCandidate {
        name: name.to_string(),
        path: format!("/home/user/{name}"),
        is_dir,
    }
}

#[test]
fn lists_only_visible_directories_sorted_by_name() {
    let candidates = vec![
        candidate("src", true),
        candidate(".git", true),
        candidate("README.md", false),
        candidate("Cargo.toml", false),
        candidate("assets", true),
        candidate(".cache", true),
        candidate("Zeta", true),
        candidate("docs", true),
    ];
    let listed = visible_subdirectories(&candidates);
    let names: Vec<&str> = listed.iter().map(|e| e.name.as_str()).collect();
    assert_eq!(names, vec!["Zeta", "assets", "docs", "src"]);
    let paths: Vec<&str> = listed.iter().map(|e| e.path.as_str()).collect();
    assert_eq!(
        paths,
        vec!["/home/user/Zeta", "/home/user/assets", "/home/user/docs", "/home/user/src"]
    );
}

#[test]
fn empty_directory_lists_nothing() {
    assert!(visible_subdirectories(&Vec::new()).is_empty());
}

#[test]
fn hidden_and_plain_files_are_left_out() {
    let candidates = vec![candidate(".hidden", true), candidate("file.txt", false)];
    assert!(visible_subdirectories(&candidates).is_empty());
}

#[test]
fn order_is_the_order_of_str() {
    let candidates = vec![
        candidate("b", true),
        candidate("ab", true),
        candidate("a", true),
        candidate("é", true),
        candidate("B", true),
        candidate("a.b", true),
    ];
    let names: Vec<String> = visible_subdirectories(&candidates)
        .into_iter()
        .map(|e| e.name)
        .collect();
    let mut expected: Vec<String> = candidates.iter().map(|c| c.name.clone()).collect();
    expected.sort();
    assert_eq!(names, expected);
}

#[test]
fn a_name_that_only_contains_a_dot_later_is_listed() {
    let candidates = vec![candidate("v1.0", true), candidate("x.", true)];
    assert_eq!(visible_subdirectories(&candidates).len(), 2);
}
