use agit::diff::{assemble_patch, commit_badges, BranchTip, PatchLine};
use agit::refs::{feed_gate, list_tags, normalize_tag, sort_tags, tag_redirect, FeedError, RawTag, TagRecord, TagTarget};

fn rec(name: &str, time: i64) -> TagRecord {
    TagRecord { link: String::new(), name: name.to_string(), time, message: String::new() }
}

#[test]
fn annotated_tag_uses_tagger_time() {
    let r = normalize_tag(RawTag {
        ref_name: "refs/tags/v1".to_string(),
        target: TagTarget::Annotated { tagger_time: Some(10), target_time: 5, message: Some("msg".to_string()) },
    });
    assert_eq!(r.name, "v1");
    assert_eq!(r.link, "refs/v1");
    assert_eq!(r.time, 10);
    assert_eq!(r.message, "msg");
}

#[test]
fn annotated_tag_without_tagger_uses_commit_time() {
    let r = normalize_tag(RawTag {
        ref_name: "refs/tags/old".to_string(),
        target: TagTarget::Annotated { tagger_time: None, target_time: 5, message: None },
    });
    assert_eq!(r.time, 5);
    assert_eq!(r.message, "");
}

#[test]
fn lightweight_tag_links_to_commit() {
    let r = normalize_tag(RawTag {
        ref_name: "refs/tags/light".to_string(),
        target: TagTarget::Lightweight { commit_time: 7 },
    });
    assert_eq!(r.link, "commit/light");
    assert_eq!(r.name, "light");
    assert_eq!(r.time, 7);
}

#[test]
fn newer_lightweight_tag_listed_first() {
    let tags = list_tags(vec![
        RawTag {
            ref_name: "refs/tags/annotated".to_string(),
            target: TagTarget::Annotated { tagger_time: Some(100), target_time: 50, message: None },
        },
        RawTag { ref_name: "refs/tags/light".to_string(), target: TagTarget::Lightweight { commit_time: 200 } },
    ]);
    let names: Vec<&str> = tags.iter().map(|t| t.name.as_str()).collect();
    assert_eq!(names, vec!["light", "annotated"]);
}

#[test]
fn sort_is_newest_first_and_stable() {
    let sorted = sort_tags(vec![rec("a", 1), rec("b", 3), rec("c", 1), rec("d", 2)]);
    let names: Vec<&str> = sorted.iter().map(|t| t.name.as_str()).collect();
    assert_eq!(names, vec!["b", "d", "a", "c"]);
    assert!(sort_tags(vec![]).is_empty());
}

#[test]
fn feed_of_empty_repository_is_unavailable() {
    assert_eq!(feed_gate(true), Err(FeedError::Unavailable));
    assert_eq!(FeedError::Unavailable.status(), 503);
    assert_eq!(feed_gate(false), Ok(()));
}

#[test]
fn lightweight_tag_redirects_to_commit() {
    assert_eq!(tag_redirect("proj", "v2"), "/proj/commit/v2");
}

#[test]
fn patch_lines_keep_markers_but_not_headers() {
    let lines = vec![
        PatchLine { origin: 'F', content: Some("diff --git a/x b/x\n".to_string()) },
        PatchLine { origin: 'H', content: Some("@@ -1 +1 @@\n".to_string()) },
        PatchLine { origin: '-', content: Some("old\n".to_string()) },
        PatchLine { origin: '+', content: Some("new\n".to_string()) },
        PatchLine { origin: ' ', content: Some("same\n".to_string()) },
    ];
    assert_eq!(assemble_patch(&lines), "diff --git a/x b/x\n@@ -1 +1 @@\n-old\n+new\n same\n");
}

#[test]
fn binary_file_body_replaced_and_diff_continues() {
    let lines = vec![
        PatchLine { origin: 'F', content: Some("diff bin\n".to_string()) },
        PatchLine { origin: '+', content: None },
        PatchLine { origin: '+', content: Some("ignored\n".to_string()) },
        PatchLine { origin: 'F', content: Some("diff txt\n".to_string()) },
        PatchLine { origin: '+', content: Some("kept\n".to_string()) },
    ];
    assert_eq!(
        assemble_patch(&lines),
        "diff bin\nCannot display diff for binary file.\ndiff txt\n+kept\n"
    );
}

#[test]
fn badges_for_tag_and_branch_tips() {
    let branches = vec![
        BranchTip { name: "main".to_string(), tip: "abc".to_string() },
        BranchTip { name: "dev".to_string(), tip: "def".to_string() },
    ];
    assert_eq!(
        commit_badges("proj", Some("v1"), &branches, "abc"),
        "<a href=\"/proj/refs/v1\" class=\"badge tag\">v1</a> <a href=\"/proj/log/main\" class=\"badge branch\">main</a>"
    );
    assert_eq!(commit_badges("proj", None, &branches, "zzz"), "");
}

#[test]
fn equal_time_tags_keep_enumeration_order() {
    let raw = |n: &str| RawTag { ref_name: format!("refs/tags/{}", n), target: TagTarget::Lightweight { commit_time: 5 } };
    let first = list_tags(vec![raw("x"), raw("y"), raw("z")]);
    let names: Vec<&str> = first.iter().map(|t| t.name.as_str()).collect();
    assert_eq!(names, vec!["x", "y", "z"]);
}
