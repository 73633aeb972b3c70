use vstd::prelude::*;
use crate::text::{append_str, chars_of, string_of};

verus! {

/// One line of a unified patch as the diff printer hands it out: its origin marker
/// (`F` file header, `H` hunk header, ` ` context, `+` added, `-` removed, `=`, `<`,
/// `>` end-of-file notes) and its content, `None` when it is not valid UTF-8.
pub struct PatchLine {
    pub origin: char,
    pub content: Option<String>,
}

/// The marker shown in place of the body of a file whose content cannot be shown.
pub open spec fn binary_marker() -> Seq<char> {
    "Cannot display diff for binary file.\n"@
}

/// Whether a line's origin marker is written before its content.
pub open spec fn shows_origin(c: char) -> bool {
    c == ' ' || c == '+' || c == '-' || c == '=' || c == '<' || c == '>'
}

/// The patch text after one more line, with whether the rest of the current file
/// is skipped. Header lines carry no marker; a line that is not valid UTF-8 puts the
/// binary marker in place of the rest of its file, up to the next file header.
pub open spec fn patch_step(state: (Seq<char>, bool), line: PatchLine) -> (Seq<char>, bool) {
    let skipping = state.1 && line.origin != 'F';
    if skipping {
        (state.0, true)
    } else {
        match line.content {
            None => (state.0 + binary_marker(), true),
            Some(c) => if shows_origin(line.origin) {
                (state.0.push(line.origin) + c@, false)
            } else {
                (state.0 + c@, false)
            },
        }
    }
}

/// The patch text of `lines`, with whether the last file's body is being skipped.
pub open spec fn patch_text(lines: Seq<PatchLine>) -> (Seq<char>, bool)
    decreases lines.len(),
{
    if lines.len() == 0 {
        (Seq::empty(), false)
    } else {
        patch_step(patch_text(lines.drop_last()), lines.last())
    }
}

/// The text of a patch, ready for highlighting with a diff grammar.
pub fn assemble_patch(lines: &Vec<PatchLine>) -> (r: String)
    ensures
        r@ == patch_text(lines@).0,
{
    let mut out: Vec<char> = Vec::new();
    let mut skipping = false;
    let mut i: usize = 0;
    while i < lines.len()
        invariant
            i <= lines@.len(),
            (out@, skipping) == patch_text(lines@.take(i as int)),
        decreases lines@.len() - i,
    {
        assert(lines@.take(i + 1).drop_last() =~= lines@.take(i as int));
        let line = &lines[i];
        if skipping && line.origin != 'F' {
        } else {
            match &line.content {
                None => {
                    append_str(&mut out, "Cannot display diff for binary file.\n");
                    skipping = true;
                },
                Some(c) => {
                    let o = line.origin;
                    if o == ' ' || o == '+' || o == '-' || o == '=' || o == '<' || o == '>' {
                        out.push(o);
                    }
                    append_str(&mut out, c.as_str());
                    skipping = false;
                },
            }
        }
        i = i + 1;
    }
    assert(lines@.take(lines@.len() as int) =~= lines@);
    string_of(&out)
}

/// A branch and the commit id at its tip.
pub struct BranchTip {
    pub name: String,
    pub tip: String,
}

/// The badges of the branches whose tip is `commit`, in the order given.
pub open spec fn branch_badges(repo: Seq<char>, branches: Seq<BranchTip>, commit: Seq<char>) -> Seq<char>
    decreases branches.len(),
{
    if branches.len() == 0 {
        Seq::empty()
    } else {
        let b = branches.last();
        let rest = branch_badges(repo, branches.drop_last(), commit);
        if b.tip@ == commit {
            rest + " <a href=\"/"@ + repo + "/log/"@ + b.name@ + "\" class=\"badge branch\">"@ + b.name@ + "</a>"@
        } else {
            rest
        }
    }
}

/// The badges of a commit view: the tag that points exactly at the commit, if
/// any, then each local branch whose tip it is.
pub open spec fn commit_badges_html(repo: Seq<char>, tag: Option<Seq<char>>, branches: Seq<BranchTip>, commit: Seq<char>) -> Seq<char> {
    let t = match tag {
        Some(t) => "<a href=\"/"@ + repo + "/refs/"@ + t + "\" class=\"badge tag\">"@ + t + "</a>"@,
        None => Seq::empty(),
    };
    t + branch_badges(repo, branches, commit)
}

fn append_string(out: &mut Vec<char>, s: &String)
    ensures
        final(out)@ == old(out)@ + s@,
{
    append_str(out, s.as_str());
}

/// The badges shown on the view of `commit`.
pub fn commit_badges(repo: &str, tag: Option<&str>, branches: &Vec<BranchTip>, commit: &str) -> (r:
    String)
    ensures
        r@ == commit_badges_html(
            repo@,
            match tag {
                Some(t) => Some(t@),
                None => None,
            },
            branches@,
            commit@,
        ),
{
    let mut out: Vec<char> = Vec::new();
    match tag {
        Some(t) => {
            append_str(&mut out, "<a href=\"/");
            append_str(&mut out, repo);
            append_str(&mut out, "/refs/");
            append_str(&mut out, t);
            append_str(&mut out, "\" class=\"badge tag\">");
            append_str(&mut out, t);
            append_str(&mut out, "</a>");
        },
        None => {},
    }
    let ghost head = out@;
    let c = chars_of(commit);
    let mut i: usize = 0;
    while i < branches.len()
        invariant
            i <= branches@.len(),
            c@ == commit@,
            out@ == head + branch_badges(repo@, branches@.take(i as int), commit@),
        decreases branches@.len() - i,
    {
        assert(branches@.take(i + 1).drop_last() =~= branches@.take(i as int));
        let b = &branches[i];
        let tip = chars_of(b.tip.as_str());
        let mut same = tip.len() == c.len();
        let mut k: usize = 0;
        while k < tip.len() && same
            invariant
                k <= tip@.len(),
                same ==> tip@.len() == c@.len(),
                same ==> forall|m: int| 0 <= m < k ==> tip@[m] == c@[m],
                !same ==> tip@ != c@,
            decreases tip@.len() - k, same as int,
        {
            if tip[k] != c[k] {
                same = false;
            } else {
                k = k + 1;
            }
        }
        if same {
            assert(tip@ =~= c@);
        }
        let ghost before = out@;
        if same {
            append_str(&mut out, " <a href=\"/");
            append_str(&mut out, repo);
            append_str(&mut out, "/log/");
            append_string(&mut out, &b.name);
            append_str(&mut out, "\" class=\"badge branch\">");
            append_string(&mut out, &b.name);
            append_str(&mut out, "</a>");
        }
        i = i + 1;
    }
    assert(branches@.take(branches@.len() as int) =~= branches@);
    string_of(&out)
}

} // verus!
