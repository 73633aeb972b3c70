use vstd::prelude::*;
use crate::text::{
    append_chars, append_decimal, append_str, chars_from, chars_of, decimal, starts_with,
    string_of,
};

verus! {

/// The MIME type, with its charset where it has one, that `http_types` assigns to
/// a file extension.
pub open spec fn mime_table(ext: Seq<char>) -> Option<Seq<char>> {
    if ext == "html"@ {
        Some("text/html;charset=utf-8"@)
    } else if ext == "js"@ || ext == "mjs"@ || ext == "jsonp"@ {
        Some("application/javascript;charset=utf-8"@)
    } else if ext == "json"@ {
        Some("application/json"@)
    } else if ext == "css"@ {
        Some("text/css;charset=utf-8"@)
    } else if ext == "svg"@ {
        Some("image/svg+xml"@)
    } else if ext == "xml"@ {
        Some("application/xml;charset=utf-8"@)
    } else {
        None
    }
}

pub open spec fn opt_string_view(o: Option<String>) -> Option<Seq<char>> {
    match o {
        Some(s) => Some(s@),
        None => None,
    }
}

/// Relies on `http_types::Mime::from_extension` and the `Display` of `Mime`: a
/// fixed table of extensions, written with `;charset=utf-8` for the UTF-8 types.
#[verifier::external_body]
fn mime_from_extension(ext: &str) -> (r: Option<String>)
    ensures
        opt_string_view(r) == mime_table(ext@),
{
    http_types::Mime::from_extension(ext).map(|m| m.to_string())
}

/// The index of the last `c` in `s`, or -1.
pub open spec fn last_index_of(s: Seq<char>, c: char) -> int
    decreases s.len(),
{
    if s.len() == 0 {
        -1
    } else if s.last() == c {
        s.len() - 1
    } else {
        last_index_of(s.drop_last(), c)
    }
}

/// The last component of a `/`-separated path.
pub open spec fn file_name(path: Seq<char>) -> Seq<char> {
    path.skip(last_index_of(path, '/') + 1)
}

/// The extension of a path: what follows the last `.` of its file name, where that
/// dot is not the name's first character; empty otherwise.
pub open spec fn extension(path: Seq<char>) -> Seq<char> {
    let name = file_name(path);
    let d = last_index_of(name, '.');
    if d > 0 {
        name.skip(d + 1)
    } else {
        Seq::empty()
    }
}

proof fn lemma_last_index_bounds(s: Seq<char>, c: char)
    ensures
        -1 <= last_index_of(s, c) < s.len(),
        last_index_of(s, c) >= 0 ==> s[last_index_of(s, c)] == c,
    decreases s.len(),
{
    if s.len() > 0 && s.last() != c {
        lemma_last_index_bounds(s.drop_last(), c);
    }
}

fn last_index(v: &Vec<char>, c: char) -> (r: Option<usize>)
    ensures
        r matches Some(i) ==> i as int == last_index_of(v@, c) && i < v@.len(),
        r is None ==> last_index_of(v@, c) == -1,
{
    let mut i: usize = v.len();
    assert(v@.take(i as int) =~= v@);
    while i > 0
        invariant
            i <= v@.len(),
            last_index_of(v@, c) == last_index_of(v@.take(i as int), c),
        decreases i,
    {
        assert(v@.take(i as int).drop_last() =~= v@.take(i - 1));
        if v[i - 1] == c {
            return Some(i - 1);
        }
        i = i - 1;
    }
    assert(v@.take(0) =~= Seq::<char>::empty());
    None
}

/// The extension of `path`, see [`extension`].
pub fn extension_of(path: &str) -> (r: String)
    ensures
        r@ == extension(path@),
{
    let p = chars_of(path);
    let plen = p.len();
    proof {
        lemma_last_index_bounds(p@, '/');
    }
    let name = match last_index(&p, '/') {
        Some(i) => {
            assert(i < plen);
            chars_from(&p, i + 1)
        },
        None => {
            assert(p@.skip(0) =~= p@);
            p
        },
    };
    proof {
        lemma_last_index_bounds(name@, '.');
    }
    match last_index(&name, '.') {
        Some(d) => {
            if d > 0 {
                string_of(&chars_from(&name, d + 1))
            } else {
                String::new()
            }
        },
        None => String::new(),
    }
}

/// The MIME type a raw download of the file is served with: the one known for its
/// extension, else a byte stream for binary content and UTF-8 plain text otherwise.
pub open spec fn raw_mime(ext: Seq<char>, binary: bool) -> Seq<char> {
    match mime_table(ext) {
        Some(m) => m,
        None => if binary {
            "application/octet-stream"@
        } else {
            "text/plain;charset=utf-8"@
        },
    }
}

/// The MIME type a raw download of a file at `path` is served with.
pub fn raw_content_type(path: &str, binary: bool) -> (r: String)
    ensures
        r@ == raw_mime(extension(path@), binary),
{
    let ext = extension_of(path);
    match mime_from_extension(ext.as_str()) {
        Some(m) => m,
        None => if binary {
            String::from_str("application/octet-stream")
        } else {
            String::from_str("text/plain;charset=utf-8")
        },
    }
}

/// The path that serves the raw content of `path` at revision `spec`.
pub open spec fn raw_link(repo: Seq<char>, spec: Seq<char>, path: Seq<char>) -> Seq<char> {
    "/"@ + repo + "/tree/"@ + spec + "/raw/"@ + path
}

/// How a binary file of the given MIME type is shown: images and audio or video
/// embed the raw content, anything else is a notice that it cannot be shown.
pub open spec fn binary_html(mime: Seq<char>, repo: Seq<char>, spec: Seq<char>, path: Seq<char>) -> Seq<char> {
    let src = raw_link(repo, spec, path);
    if mime.len() >= 6 && mime.take(6) == "image/"@ {
        "<img src=\""@ + src + "\" />"@
    } else if mime.len() >= 6 && mime.take(6) == "audio/"@ {
        "<audio src=\""@ + src
            + "\" controls>Your browser does not have support for playing this audio file.</audio>"@
    } else if mime.len() >= 6 && mime.take(6) == "video/"@ {
        "<video src=\""@ + src
            + "\" controls>Your browser does not have support for playing this video file.</video>"@
    } else {
        "Cannot display binary file."@
    }
}

/// What the file view shows for a binary file at `path`: never its bytes as text.
/// The MIME type comes from the extension, a byte stream where it is unknown.
pub fn binary_presentation(repo: &str, spec: &str, path: &str) -> (r: String)
    ensures
        r@ == binary_html(
            match mime_table(extension(path@)) {
                Some(m) => m,
                None => "application/octet-stream"@,
            },
            repo@,
            spec@,
            path@,
        ),
{
    let ext = extension_of(path);
    let mime = match mime_from_extension(ext.as_str()) {
        Some(m) => m,
        None => String::from_str("application/octet-stream"),
    };
    let m = chars_of(mime.as_str());
    let mut src: Vec<char> = Vec::new();
    append_str(&mut src, "/");
    append_str(&mut src, repo);
    append_str(&mut src, "/tree/");
    append_str(&mut src, spec);
    append_str(&mut src, "/raw/");
    append_str(&mut src, path);
    let mut out: Vec<char> = Vec::new();
    if starts_with(&m, &chars_of("image/")) {
        append_str(&mut out, "<img src=\"");
        append_chars(&mut out, &src);
        append_str(&mut out, "\" />");
    } else if starts_with(&m, &chars_of("audio/")) {
        append_str(&mut out, "<audio src=\"");
        append_chars(&mut out, &src);
        append_str(
            &mut out,
            "\" controls>Your browser does not have support for playing this audio file.</audio>",
        );
    } else if starts_with(&m, &chars_of("video/")) {
        append_str(&mut out, "<video src=\"");
        append_chars(&mut out, &src);
        append_str(
            &mut out,
            "\" controls>Your browser does not have support for playing this video file.</video>",
        );
    } else {
        append_str(&mut out, "Cannot display binary file.");
    }
    proof {
        reveal_strlit("image/");
        reveal_strlit("audio/");
        reveal_strlit("video/");
        assert(src@ =~= raw_link(repo@, spec@, path@));
    }
    string_of(&out)
}

/// The index of the first `c` in `s`, or its length.
pub open spec fn first_index_of(s: Seq<char>, c: char) -> nat
    decreases s.len(),
{
    if s.len() == 0 || s[0] == c {
        0
    } else {
        1 + first_index_of(s.skip(1), c)
    }
}

/// `l` without one trailing carriage return.
pub open spec fn strip_cr(l: Seq<char>) -> Seq<char> {
    if l.len() > 0 && l.last() == '\r' {
        l.drop_last()
    } else {
        l
    }
}

/// The lines of `s`: split at each line feed, a carriage return before it dropped,
/// with no empty line after a final line feed.
pub open spec fn lines_of(s: Seq<char>) -> Seq<Seq<char>>
    decreases s.len(),
{
    if s.len() == 0 {
        Seq::empty()
    } else {
        let i = first_index_of(s, '\n');
        if i >= s.len() {
            seq![strip_cr(s)]
        } else {
            seq![strip_cr(s.take(i as int))] + lines_of(s.skip((i + 1) as int))
        }
    }
}

pub(crate) proof fn lemma_first_index(s: Seq<char>, c: char, j: int)
    requires
        0 <= j <= s.len(),
        forall|k: int| 0 <= k < j ==> s[k] != c,
        j == s.len() || s[j] == c,
    ensures
        first_index_of(s, c) == j,
    decreases j,
{
    if j > 0 {
        assert forall|k: int| 0 <= k < j - 1 implies s.skip(1)[k] != c by {
            assert(s.skip(1)[k] == s[k + 1]);
        }
        lemma_first_index(s.skip(1), c, j - 1);
    }
}

fn strip_cr_exec(l: &Vec<char>, from: usize, to: usize) -> (r: String)
    requires
        from <= to <= l@.len(),
    ensures
        r@ == strip_cr(l@.subrange(from as int, to as int)),
{
    let mut end = to;
    if to > from && l[to - 1] == '\r' {
        end = to - 1;
    }
    let mut out: Vec<char> = Vec::new();
    let mut k: usize = from;
    while k < end
        invariant
            from <= k <= end <= to <= l@.len(),
            out@ == l@.subrange(from as int, k as int),
        decreases end - k,
    {
        out.push(l[k]);
        k = k + 1;
        assert(out@ =~= l@.subrange(from as int, k as int));
    }
    assert(out@ =~= strip_cr(l@.subrange(from as int, to as int)));
    string_of(&out)
}

/// The lines of `s`, see [`lines_of`].
pub fn split_lines(s: &str) -> (r: Vec<String>)
    ensures
        r@.map_values(|l: String| l@) == lines_of(s@),
{
    let v = chars_of(s);
    let n = v.len();
    let mut out: Vec<String> = Vec::new();
    let mut pos: usize = 0;
    assert(v@.skip(0) =~= v@);
    while pos < n
        invariant
            pos <= n,
            n == v@.len(),
            v@ == s@,
            out@.map_values(|l: String| l@) + lines_of(v@.skip(pos as int)) == lines_of(s@),
        decreases n - pos,
    {
        let ghost rest = v@.skip(pos as int);
        let mut j: usize = pos;
        while j < n && v[j] != '\n'
            invariant
                pos <= j <= n,
                n == v@.len(),
                forall|k: int| pos <= k < j ==> v@[k] != '\n',
            decreases n - j,
        {
            j = j + 1;
        }
        proof {
            assert forall|k: int| 0 <= k < j - pos implies rest[k] != '\n' by {
                assert(rest[k] == v@[pos + k]);
            }
            lemma_first_index(rest, '\n', j - pos);
        }
        let line = strip_cr_exec(&v, pos, j);
        let ghost before = out@.map_values(|l: String| l@);
        out.push(line);
        assert(out@.map_values(|l: String| l@) =~= before.push(line@));
        if j < n {
            assert(rest.take(j - pos) =~= v@.subrange(pos as int, j as int));
            assert(rest.skip(j - pos + 1) =~= v@.skip(j + 1));
            pos = j + 1;
        } else {
            assert(rest =~= v@.subrange(pos as int, j as int));
            assert(v@.skip(n as int) =~= Seq::<char>::empty());
            pos = n;
        }
    }
    assert(v@.skip(pos as int) =~= Seq::<char>::empty());
    assert(out@.map_values(|l: String| l@) + Seq::<Seq<char>>::empty() =~= out@.map_values(|l: String| l@));
    out
}

/// The permalink of a file at a commit.
pub open spec fn item_link(repo: Seq<char>, commit: Seq<char>, path: Seq<char>) -> Seq<char> {
    "/"@ + repo + "/tree/"@ + commit + "/item/"@ + path
}

/// One line of the text view, numbered `n`, with its anchor and permalink.
pub open spec fn line_html(link: Seq<char>, n: nat, line: Seq<char>) -> Seq<char> {
    "<a href='"@ + link + "#L"@ + decimal(n) + "' id='L"@ + decimal(n) + "' class='line'>"@
        + decimal(n) + "</a>"@ + line + "\n"@
}

/// The lines, numbered from one.
pub open spec fn numbered_lines(lines: Seq<Seq<char>>, link: Seq<char>) -> Seq<char>
    decreases lines.len(),
{
    if lines.len() == 0 {
        Seq::empty()
    } else {
        numbered_lines(lines.drop_last(), link) + line_html(link, lines.len(), lines.last())
    }
}

/// The text view of a file: each line of its highlighted HTML numbered, with an
/// anchor `L<n>` and a permalink into the file at the resolved commit.
pub open spec fn text_view_html(highlighted: Seq<char>, repo: Seq<char>, commit: Seq<char>, path: Seq<char>) -> Seq<char> {
    "<pre>\n"@ + numbered_lines(lines_of(highlighted), item_link(repo, commit, path)) + "</pre>\n"@
}

/// Lays out a highlighted text file: `commit` is the id of the commit the revision
/// resolved to, so that line links stay valid when a branch moves.
pub fn text_view(highlighted: &str, repo: &str, commit: &str, path: &str) -> (r: String)
    ensures
        r@ == text_view_html(highlighted@, repo@, commit@, path@),
{
    let lines = split_lines(highlighted);
    let ghost ls = lines@.map_values(|l: String| l@);
    let mut link: Vec<char> = Vec::new();
    append_str(&mut link, "/");
    append_str(&mut link, repo);
    append_str(&mut link, "/tree/");
    append_str(&mut link, commit);
    append_str(&mut link, "/item/");
    append_str(&mut link, path);
    assert(link@ =~= item_link(repo@, commit@, path@));
    let mut out: Vec<char> = Vec::new();
    append_str(&mut out, "<pre>\n");
    let ghost head = out@;
    let mut i: usize = 0;
    while i < lines.len()
        invariant
            i <= lines@.len(),
            ls == lines@.map_values(|l: String| l@),
            out@ == head + numbered_lines(ls.take(i as int), link@),
        decreases lines@.len() - i,
    {
        let n = (i as u64) + 1;
        let ghost before = out@;
        append_str(&mut out, "<a href='");
        append_chars(&mut out, &link);
        append_str(&mut out, "#L");
        append_decimal(&mut out, n);
        append_str(&mut out, "' id='L");
        append_decimal(&mut out, n);
        append_str(&mut out, "' class='line'>");
        append_decimal(&mut out, n);
        append_str(&mut out, "</a>");
        append_str(&mut out, lines[i].as_str());
        append_str(&mut out, "\n");
        proof {
            assert(ls.take(i + 1).drop_last() =~= ls.take(i as int));
            assert(ls.take(i + 1).last() == lines@[i as int]@);
            assert(out@ =~= before + line_html(link@, (i + 1) as nat, lines@[i as int]@));
        }
        i = i + 1;
    }
    append_str(&mut out, "</pre>\n");
    assert(ls.take(lines@.len() as int) =~= ls);
    string_of(&out)
}

} // verus!
