use agit::config::{export_ok, log_per_page, port, repo_directory, site_name, walk_limit};
use agit::cursor::next_page_spec;
use agit::history::{shallow_page, touches, HistoryWalk};

#[test]
fn defaults() {
    assert_eq!(port(), 80);
    assert_eq!(log_per_page(), 100);
    assert_eq!(repo_directory(), "repos");
    assert_eq!(site_name(), "agit");
    assert_eq!(export_ok(), "git-daemon-export-ok");
    assert_eq!(walk_limit(), 100000);
}

#[test]
fn cursor_without_suffix_appends_page_size() {
    assert_eq!(next_page_spec("HEAD", 100).unwrap(), "HEAD~100");
    assert_eq!(next_page_spec("v1.2", 3).unwrap(), "v1.2~3");
}

#[test]
fn cursor_with_suffix_adds_page_size() {
    assert_eq!(next_page_spec("main~100", 100).unwrap(), "main~200");
    assert_eq!(next_page_spec("a~b~7", 5).unwrap(), "a~b~12");
}

#[test]
fn cursor_tilde_without_digits_is_no_suffix() {
    assert_eq!(next_page_spec("main~", 10).unwrap(), "main~~10");
    assert_eq!(next_page_spec("12", 10).unwrap(), "12~10");
}

#[test]
fn cursor_overflow_gives_none() {
    assert_eq!(next_page_spec("main~18446744073709551615", 1), None);
    assert_eq!(next_page_spec("main~99999999999999999999999", 1), None);
    assert_eq!(next_page_spec("main~18446744073709551614", 1).unwrap(), "main~18446744073709551615");
}

#[test]
fn touches_any_parent() {
    assert!(!touches(&vec![]));
    assert!(!touches(&vec![0, 0]));
    assert!(touches(&vec![0, 2]));
    assert!(touches(&vec![1]));
}

fn walk_ids(w: &mut HistoryWalk, ids: &[&str], changed: &[Vec<usize>]) {
    for (id, c) in ids.iter().zip(changed.iter()) {
        if w.is_full() {
            break;
        }
        w.offer(id.to_string(), c);
    }
}

#[test]
fn root_commit_is_last_touching() {
    let mut w = HistoryWalk::new(0, true, 1000);
    walk_ids(&mut w, &["root"], &[vec![1]]);
    assert!(w.is_full());
    assert_eq!(w.kept, vec!["root".to_string()]);
}

#[test]
fn last_touching_skips_unrelated_commits() {
    let mut w = HistoryWalk::new(0, true, 1000);
    walk_ids(
        &mut w,
        &["c4", "c3", "c2", "c1"],
        &[vec![0], vec![0, 0], vec![0, 3], vec![1]],
    );
    assert_eq!(w.kept, vec!["c2".to_string()]);
}

#[test]
fn unfiltered_pages_concatenate_to_history() {
    let history: Vec<String> = (0..7).map(|i| format!("c{}", i)).collect();
    let mut spec = "HEAD".to_string();
    let mut skip = 0usize;
    let mut all: Vec<String> = Vec::new();
    loop {
        let mut w = HistoryWalk::new(3, false, 1000);
        for id in history.iter().skip(skip) {
            if w.is_full() {
                break;
            }
            w.offer(id.clone(), &vec![]);
        }
        let page = w.finish(&spec);
        all.extend(page.commits.iter().cloned());
        match page.next {
            Some(n) => {
                skip += 3;
                assert_eq!(n, format!("HEAD~{}", skip));
                spec = n;
            }
            None => break,
        }
    }
    assert_eq!(all, history);
}

#[test]
fn exact_page_has_no_next() {
    let mut w = HistoryWalk::new(2, false, 1000);
    walk_ids(&mut w, &["a", "b"], &[vec![], vec![]]);
    let page = w.finish("HEAD");
    assert_eq!(page.commits.len(), 2);
    assert_eq!(page.next, None);
}

#[test]
fn filtered_log_keeps_touching_commits() {
    let mut w = HistoryWalk::new(1, true, 1000);
    walk_ids(&mut w, &["a", "b", "c", "d"], &[vec![0], vec![2], vec![0], vec![1]]);
    let page = w.finish("main");
    assert_eq!(page.commits, vec!["b".to_string()]);
    assert_eq!(page.next.unwrap(), "main~1");
}

#[test]
fn shallow_clone_shows_tip_only() {
    let page = shallow_page("tip".to_string());
    assert_eq!(page.commits, vec!["tip".to_string()]);
    assert_eq!(page.next, None);
    assert!(page.shallow);
}

#[test]
fn walk_stops_at_its_bound() {
    let mut w = HistoryWalk::new(5, true, 2);
    walk_ids(&mut w, &["a", "b", "c"], &[vec![0], vec![0], vec![4]]);
    assert!(w.is_full());
    assert!(w.kept.is_empty());
    let page = w.finish("HEAD");
    assert!(page.commits.is_empty());
    assert_eq!(page.next, None);
}
