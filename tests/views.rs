use agit::blob::{binary_presentation, extension_of, raw_content_type, split_lines, text_view};
use agit::gateway::{admit_raw_file, admit_repository, decode_repo_name, is_within, raw_request_path, GatewayError, RawFileError};
use agit::gitweb::gitweb_redirect;
use agit::readme::{find_code_blocks, readme_candidates, render_readme, select_readme, splice_blocks, ReadmeFormat};

#[test]
fn unexported_and_missing_look_the_same() {
    let missing = admit_repository("/srv/repos", None, false, false);
    let hidden = admit_repository("/srv/repos", Some("/srv/repos/secret"), true, false);
    assert_eq!(missing, hidden);
    assert_eq!(missing, Err(GatewayError::NotFound));
    let e = missing.unwrap_err();
    assert_eq!(e.status(), 404);
    assert_eq!(e.message(), "This repository does not exist.");
    assert_eq!(admit_repository("/srv/repos", Some("/srv/repos/open"), true, true), Ok(()));
    assert_eq!(admit_repository("/srv/repos", Some("/srv/other"), true, true), Err(GatewayError::NotFound));
    assert_eq!(admit_repository("", Some("/srv/repos/open"), true, true), Err(GatewayError::NotFound));
}

#[test]
fn traversal_outside_repository_is_forbidden() {
    let r = admit_raw_file("/srv/repos/p.git", Some("/etc/passwd"), true);
    assert_eq!(r, Err(RawFileError::Forbidden));
    assert_eq!(RawFileError::Forbidden.status(), 403);
    assert_eq!(admit_raw_file("/srv/repos/p.git", Some("/srv/repos/p.gitx/HEAD"), true), Err(RawFileError::Forbidden));
    assert_eq!(admit_raw_file("/srv/repos/p.git", Some("/srv/repos/p.git/objects"), false), Err(RawFileError::NotFound));
    assert_eq!(admit_raw_file("/srv/repos/p.git", None, false), Err(RawFileError::NotFound));
    assert_eq!(admit_raw_file("", Some("/srv/repos/p.git/HEAD"), true), Err(RawFileError::Forbidden));
    assert_eq!(RawFileError::NotFound.message(), "This page does not exist.");
    assert_eq!(admit_raw_file("/srv/repos/p.git", Some("/srv/repos/p.git/HEAD"), true), Ok(()));
}

#[test]
fn within_compares_components() {
    assert!(is_within("/a/b", "/a/b"));
    assert!(is_within("/a/b", "/a/b/c"));
    assert!(!is_within("/a/b", "/a/bc"));
    assert!(is_within("/", "/x"));
}

#[test]
fn request_path_after_repository() {
    assert_eq!(raw_request_path("/proj/objects/ab/cd", "proj"), "objects/ab/cd");
    assert_eq!(raw_request_path("/other/HEAD", "proj"), "");
}

#[test]
fn repository_names_are_percent_decoded() {
    assert_eq!(decode_repo_name("my%20repo"), "my repo");
    assert_eq!(decode_repo_name("plain"), "plain");
}

#[test]
fn plain_readme_wins_over_markdown() {
    let names = readme_candidates();
    assert_eq!(names[0], "README");
    assert_eq!(names[2], "README.md");
    let present = vec![true, false, true, false, false, false, false];
    let (i, format) = select_readme(&present).unwrap();
    assert_eq!(i, 0);
    assert_eq!(format, ReadmeFormat::Plaintext);
    assert_eq!(render_readme(format, "# a <b>"), "<pre># a &lt;b&gt;</pre>");
    assert_eq!(render_readme(format, "&"), "<pre>&amp;</pre>");
}

#[test]
fn readme_formats_by_name() {
    assert_eq!(select_readme(&vec![false, false, false, true, false, false, false]), Some((3, ReadmeFormat::Markdown)));
    assert_eq!(select_readme(&vec![false, false, false, false, false, false, true]), Some((6, ReadmeFormat::Html)));
    assert_eq!(select_readme(&vec![false; 7]), None);
}

#[test]
fn markdown_and_html_rendering() {
    assert_eq!(render_readme(ReadmeFormat::Markdown, "# hi"), "<h1>hi</h1>\n");
    assert_eq!(render_readme(ReadmeFormat::Markdown, "`\"x\"`"), "<p><code>&quot;x&quot;</code></p>\n");
    assert_eq!(render_readme(ReadmeFormat::Html, "<b>x</b>"), "<b>x</b>");
}

#[test]
fn code_blocks_replaced_by_position() {
    let html = "<p>a</p>\n<pre><code class=\"language-rust\">x\n</code></pre>\n<pre><code class=\"language-rust\">x\n</code></pre>\n";
    let blocks = find_code_blocks(html);
    assert_eq!(blocks.len(), 2);
    assert_eq!(blocks[0].lang, "rust");
    assert_eq!(blocks[0].code, "x\n");
    let out = splice_blocks(html, &blocks, &vec!["ONE".to_string(), "TWO".to_string()]).unwrap();
    assert_eq!(out, "<p>a</p>\nONE\nTWO\n");
    assert_eq!(splice_blocks(html, &blocks, &vec![]), None);
}

#[test]
fn extensions() {
    assert_eq!(extension_of("src/main.rs"), "rs");
    assert_eq!(extension_of("a.b/file"), "");
    assert_eq!(extension_of(".bashrc"), "");
    assert_eq!(extension_of("x.tar.gz"), "gz");
}

#[test]
fn raw_mime_types() {
    assert_eq!(raw_content_type("index.html", false), "text/html;charset=utf-8");
    assert_eq!(raw_content_type("data.json", false), "application/json");
    assert_eq!(raw_content_type("data.bin", true), "application/octet-stream");
    assert_eq!(raw_content_type("notes", false), "text/plain;charset=utf-8");
}

#[test]
fn binary_files_are_never_shown_as_text() {
    assert_eq!(binary_presentation("p", "main", "logo.svg"), "<img src=\"/p/tree/main/raw/logo.svg\" />");
    assert_eq!(binary_presentation("p", "main", "a.bin"), "Cannot display binary file.");
}

#[test]
fn lines_split_like_std() {
    assert_eq!(split_lines("a\r\nb\n\nc"), vec!["a", "b", "", "c"]);
    assert_eq!(split_lines("a\n"), vec!["a"]);
    assert!(split_lines("").is_empty());
}

#[test]
fn text_view_uses_commit_permalinks() {
    assert_eq!(
        text_view("x\ny\n", "p", "abc123", "f.rs"),
        "<pre>\n<a href='/p/tree/abc123/item/f.rs#L1' id='L1' class='line'>1</a>x\n<a href='/p/tree/abc123/item/f.rs#L2' id='L2' class='line'>2</a>y\n</pre>\n"
    );
}

#[test]
fn gitweb_links_redirect() {
    assert_eq!(gitweb_redirect("p=proj;a=commit;h=abc").unwrap(), "/proj/commit/abc");
    assert_eq!(gitweb_redirect("p=proj").unwrap(), "/proj/");
    assert_eq!(gitweb_redirect("p=proj;a=log").unwrap(), "/proj/log/");
    assert_eq!(gitweb_redirect("p=proj;a=blame").unwrap(), "/");
    assert_eq!(gitweb_redirect("a=log"), None);
}

#[test]
fn code_block_language_ends_at_first_quote() {
    let html = "<pre><code class=\"language-sh\">echo \">\"\n</code></pre>";
    let blocks = find_code_blocks(html);
    assert_eq!(blocks.len(), 1);
    assert_eq!(blocks[0].lang, "sh");
    assert_eq!(blocks[0].code, "echo \">\"\n");
}
