use mdv::app::DirEntry;
use mdv::dir::{is_markdown_extension, scans_depth, size_allowed, skips_directory, sort_newest_first, MAX_FILE_SIZE};

fn entry(name: &str, modified: u64) -> DirEntry {
    DirEntry { path: format!("/docs/{name}"), display_name: name.to_string(), depth: 0, modified }
}

#[test]
fn markdown_files_are_recognised_by_extension() {
    assert!(is_markdown_extension("md"));
    assert!(is_markdown_extension("markdown"));
    assert!(!is_markdown_extension("MD"));
    assert!(!is_markdown_extension("txt"));
}

#[test]
fn hidden_and_build_folders_are_skipped() {
    assert!(skips_directory(".git"));
    assert!(skips_directory("target"));
    assert!(!skips_directory("docs"));
    assert!(!skips_directory(""));
}

#[test]
fn files_are_listed_newest_first() {
    let sorted = sort_newest_first(vec![entry("a.md", 10), entry("b.md", 30), entry("c.md", 20), entry("d.md", 30)]);
    let names: Vec<&str> = sorted.iter().map(|e| e.display_name.as_str()).collect();
    assert_eq!(names, vec!["b.md", "d.md", "c.md", "a.md"]);
}

#[test]
fn files_modified_together_keep_their_order() {
    let sorted = sort_newest_first(vec![
        entry("z.md", 5),
        entry("y.md", 7),
        entry("x.md", 5),
        entry("w.md", 7),
        entry("v.md", 5),
    ]);
    let names: Vec<&str> = sorted.iter().map(|e| e.display_name.as_str()).collect();
    assert_eq!(names, vec!["y.md", "w.md", "z.md", "x.md", "v.md"]);
}

#[test]
fn files_over_fifty_megabytes_are_refused() {
    assert!(size_allowed(0));
    assert!(size_allowed(50 * 1024 * 1024));
    assert!(!size_allowed(50 * 1024 * 1024 + 1));
    assert_eq!(MAX_FILE_SIZE, 52_428_800);
}

#[test]
fn scan_stops_below_twenty_levels() {
    assert!(scans_depth(0));
    assert!(scans_depth(20));
    assert!(!scans_depth(21));
}
