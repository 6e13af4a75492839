use rdrillog::file_mgmt::save_file;

fn strs(v: &[&str]) -> Vec<String> {
    v.iter().map(|s| s.to_string()).collect()
}

#[test]
fn erased_file_gets_new_entries_only() {
    let content = save_file(&strs(&["old"]), strs(&["a", "\n", "b", "\n"]), true, true);
    assert_eq!(content, "a\nb\n");
}

#[test]
fn kept_file_gets_new_entries_appended() {
    let content = save_file(&strs(&["old 1", "old 2"]), strs(&["a", "\n"]), false, true);
    assert_eq!(content, "old 1\nold 2\na\n");
}

#[test]
fn kept_file_without_duplicates_writes_each_entry_once() {
    let content = save_file(&strs(&["a", "x"]), strs(&["a", "\n", "b", "\n", "b", "\n"]), false, false);
    assert_eq!(content, "a\nx\nb\n");
}

#[test]
fn saving_again_without_duplicates_changes_nothing() {
    let text = strs(&["a", "\n", "b", "\n"]);
    let first = save_file(&strs(&["z", "a"]), text.clone(), false, false);
    let back: Vec<String> = first.lines().map(|s| s.to_string()).collect();
    let second = save_file(&back, text, false, false);
    assert_eq!(first, second);
}

#[test]
fn empty_everything_gives_empty_content() {
    assert_eq!(save_file(&Vec::new(), Vec::new(), false, false), "");
    assert_eq!(save_file(&Vec::new(), Vec::new(), true, true), "");
}
