use agit::diff::{assemble_patch, PatchLine};

#[test]
fn rename_is_one_entry_not_delete_and_add() {
    let odb = git2::Odb::new().unwrap();
    odb.add_new_mempack_backend(1000).unwrap();
    let repo = git2::Repository::from_odb(odb).unwrap();
    let content = "a line of text\n".repeat(40);
    let blob = repo.blob(content.as_bytes()).unwrap();
    let mut before = repo.treebuilder(None).unwrap();
    before.insert("a.txt", blob, 0o100644).unwrap();
    let old_tree = repo.find_tree(before.write().unwrap()).unwrap();
    let mut after = repo.treebuilder(None).unwrap();
    after.insert("b.txt", blob, 0o100644).unwrap();
    let new_tree = repo.find_tree(after.write().unwrap()).unwrap();

    let mut diff = repo.diff_tree_to_tree(Some(&old_tree), Some(&new_tree), None).unwrap();
    let mut find_options = git2::DiffFindOptions::new();
    find_options.all(true);
    diff.find_similar(Some(&mut find_options)).unwrap();

    let statuses: Vec<git2::Delta> = diff.deltas().map(|d| d.status()).collect();
    assert_eq!(statuses, vec![git2::Delta::Renamed]);

    let mut lines = Vec::new();
    diff.print(git2::DiffFormat::Patch, |_delta, _hunk, line| {
        lines.push(PatchLine {
            origin: line.origin(),
            content: std::str::from_utf8(line.content()).ok().map(|s| s.to_string()),
        });
        true
    })
    .unwrap();
    let patch = assemble_patch(&lines);
    assert!(patch.contains("rename from a.txt"));
    assert!(patch.contains("rename to b.txt"));
    assert!(!patch.contains("deleted file"));
}
