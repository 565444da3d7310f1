use shibuichi::origin::remote_name_of;
use shibuichi::status::{summarize_status, StatusEntry};

fn clean_entry() -> StatusEntry {
    StatusEntry {
        wt_new: false,
        wt_modified: false,
        wt_renamed: false,
        wt_typechange: false,
        index_new: false,
        index_modified: false,
        index_deleted: false,
        index_renamed: false,
        index_typechange: false,
    }
}

#[test]
fn status_empty_is_clean() {
    assert_eq!(summarize_status(&vec![]), (false, false, false));
}

#[test]
fn status_any_entry_is_dirty() {
    assert_eq!(summarize_status(&vec![clean_entry()]), (true, false, false));
}

#[test]
fn status_worktree_and_index_flags() {
    let mut modified = clean_entry();
    modified.wt_modified = true;
    let mut staged = clean_entry();
    staged.index_new = true;
    assert_eq!(
        summarize_status(&vec![clean_entry(), modified, clean_entry()]),
        (true, true, false)
    );
    assert_eq!(
        summarize_status(&vec![staged]),
        (true, false, true)
    );
    assert_eq!(
        summarize_status(&vec![modified, staged, clean_entry()]),
        (true, true, true)
    );
}

#[test]
fn remote_names() {
    assert_eq!(remote_name_of("origin/main"), "origin");
    assert_eq!(remote_name_of("upstream/feature/x"), "upstream");
    assert_eq!(remote_name_of("detached"), "detached");
    assert_eq!(remote_name_of(""), "");
}
