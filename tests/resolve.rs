use project_utils::fallback::abbreviate_path;
use project_utils::markers::{
    marker_kind, name_from_entry, name_in_directory, DirectoryScan, FileEntry, MarkerKind,
};
use project_utils::resolve::{resolve_project_name, WALK_DEPTH};
use project_utils::text::trim;

fn file(name: &str) -> FileEntry {
    FileEntry { name: name.to_string(), content: None }
}

fn file_with(name: &str, text: &str) -> FileEntry {
    FileEntry { name: name.to_string(), content: Some(text.to_string()) }
}

fn dir(files: Vec<FileEntry>) -> DirectoryScan {
    DirectoryScan { idea_name: None, files }
}

fn idea_dir(text: &str, files: Vec<FileEntry>) -> DirectoryScan {
    DirectoryScan { idea_name: Some(text.to_string()), files }
}

#[test]
fn trim_removes_white_space_at_both_ends() {
    assert_eq!(trim("  MyProj\n"), "MyProj");
    assert_eq!(trim("\t a b \u{3000}"), "a b");
    assert_eq!(trim("   "), "");
    assert_eq!(trim(""), "");
}

#[test]
fn abbreviate_five_segments() {
    assert_eq!(abbreviate_path("a/b/c/d/e"), "a/b/c/d/e");
    assert_eq!(abbreviate_path("alpha/beta/gamma/delta/epsilon"), "a/b/g/delta/epsilon");
}

#[test]
fn abbreviate_mixed_separators() {
    assert_eq!(abbreviate_path("/Users/alice/projects/my app"), "U/a/projects/my app");
    assert_eq!(abbreviate_path("C:\\Users\\bob//work\\tool"), "C/U/b/work/tool");
}

#[test]
fn abbreviate_short_paths() {
    assert_eq!(abbreviate_path("/home/me"), "me");
    assert_eq!(abbreviate_path("solo"), "solo");
    assert_eq!(abbreviate_path("/"), "Unknown");
    assert_eq!(abbreviate_path(""), "Unknown");
}

#[test]
fn abbreviate_takes_first_character_not_byte() {
    assert_eq!(abbreviate_path("/ünï/ßtrasse/x/y"), "ü/ß/x/y");
}

#[test]
fn marker_kinds_by_name() {
    assert_eq!(marker_kind("build.sln"), MarkerKind::Solution);
    assert_eq!(marker_kind("a.b.sln"), MarkerKind::Solution);
    assert_eq!(marker_kind("stats.Rproj"), MarkerKind::RProject);
    assert_eq!(marker_kind("team.code-workspace"), MarkerKind::CodeWorkspace);
    assert_eq!(marker_kind("package.json"), MarkerKind::PackageJson);
    assert_eq!(marker_kind("pyproject.toml"), MarkerKind::PyProject);
    assert_eq!(marker_kind(".sln"), MarkerKind::Other);
    assert_eq!(marker_kind("build.SLN"), MarkerKind::Other);
    assert_eq!(marker_kind("README.md"), MarkerKind::Other);
    assert!(MarkerKind::PackageJson.reads_content());
    assert!(!MarkerKind::Solution.reads_content());
}

#[test]
fn entry_names() {
    assert_eq!(name_from_entry(&file("build.sln")), Some("build".to_string()));
    assert_eq!(name_from_entry(&file("my.app.Rproj")), Some("my.app".to_string()));
    assert_eq!(
        name_from_entry(&file_with("package.json", "{\"name\": \"widget\"}")),
        Some("widget".to_string())
    );
    assert_eq!(
        name_from_entry(&file_with("x.code-workspace", "{\"folders\": [], \"name\": \"ws\"}")),
        Some("ws".to_string())
    );
    assert_eq!(
        name_from_entry(&file_with("pyproject.toml", "[project]\nname = \"snake\"\n")),
        Some("snake".to_string())
    );
}

#[test]
fn entry_names_missing_or_malformed() {
    assert_eq!(name_from_entry(&file("package.json")), None);
    assert_eq!(name_from_entry(&file_with("package.json", "{not json")), None);
    assert_eq!(name_from_entry(&file_with("package.json", "{\"name\": 7}")), None);
    assert_eq!(name_from_entry(&file_with("package.json", "[\"name\"]")), None);
    assert_eq!(name_from_entry(&file_with("x.code-workspace", "{\"folders\": []}")), None);
    assert_eq!(name_from_entry(&file_with("pyproject.toml", "name = \"top\"\n")), None);
    assert_eq!(name_from_entry(&file_with("pyproject.toml", "[project\n")), None);
    assert_eq!(name_from_entry(&file_with("notes.txt", "{\"name\": \"x\"}")), None);
}

#[test]
fn directory_idea_name_comes_first() {
    let d = idea_dir(" MyProj \n", vec![file("build.sln")]);
    assert_eq!(name_in_directory(&d), Some("MyProj".to_string()));
}

#[test]
fn directory_first_naming_file_wins() {
    let d = dir(vec![
        file("README.md"),
        file_with("package.json", "{}"),
        file("second.sln"),
        file("third.Rproj"),
    ]);
    assert_eq!(name_in_directory(&d), Some("second".to_string()));
}

#[test]
fn resolve_idea_name_with_white_space() {
    let levels = vec![
        dir(vec![file("README.md")]),
        idea_dir("  MyProj\n", vec![file("other.sln"), file_with("package.json", "{\"name\": \"w\"}")]),
    ];
    assert_eq!(resolve_project_name(&levels, "/home/u/work/proj/src"), "MyProj");
}

#[test]
fn resolve_solution_stem() {
    let levels = vec![dir(vec![file("notes.txt"), file("build.sln")]), dir(vec![])];
    assert_eq!(resolve_project_name(&levels, "/x/y/z"), "build");
}

#[test]
fn resolve_package_json_name() {
    let levels = vec![
        dir(vec![]),
        dir(vec![file_with("package.json", "{\"name\": \"widget\"}")]),
    ];
    assert_eq!(resolve_project_name(&levels, "/srv/app/web"), "widget");
}

#[test]
fn resolve_nearer_directory_wins() {
    let levels = vec![
        dir(vec![file_with("pyproject.toml", "[project]\nname = \"inner\"\n")]),
        idea_dir("Outer", vec![]),
    ];
    assert_eq!(resolve_project_name(&levels, "/a/b"), "inner");
}

#[test]
fn resolve_falls_back_to_path() {
    let levels = vec![dir(vec![]), dir(vec![]), dir(vec![]), dir(vec![])];
    assert_eq!(
        resolve_project_name(&levels, "alpha/beta/gamma/delta/epsilon"),
        "a/b/g/delta/epsilon"
    );
    assert_eq!(resolve_project_name(&levels, "a/b/c/d/e"), "a/b/c/d/e");
    assert_eq!(resolve_project_name(&vec![], "/"), "Unknown");
}

#[test]
fn resolve_looks_at_four_directories_only() {
    assert_eq!(WALK_DEPTH, 4);
    let levels = vec![dir(vec![]), dir(vec![]), dir(vec![]), dir(vec![]), dir(vec![file("far.sln")])];
    assert_eq!(resolve_project_name(&levels, "/p/q/r/s/t"), "p/q/r/s/t");
    let levels = vec![dir(vec![]), dir(vec![]), dir(vec![]), dir(vec![file("near.sln")])];
    assert_eq!(resolve_project_name(&levels, "/p/q/r/s/t"), "near");
}

#[test]
fn resolve_is_never_empty() {
    let levels = vec![dir(vec![file("x.txt")])];
    for p in ["", "/", "a", "a/b", "a/b/c", "\\\\server\\share\\dir"] {
        assert!(!resolve_project_name(&levels, p).is_empty());
    }
}

#[test]
fn resolve_twice_gives_same_name() {
    let levels = vec![dir(vec![file("one.Rproj"), file("two.sln")])];
    let first = resolve_project_name(&levels, "/w/x");
    let second = resolve_project_name(&levels, "/w/x");
    assert_eq!(first, second);
    assert_eq!(first, "one");
}
