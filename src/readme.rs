use vstd::prelude::*;
use crate::text::{append_chars, append_str, chars_of, starts_with, string_of};

verus! {

/// What a Markdown document renders to, all extensions enabled.
pub uninterp spec fn markdown_html(text: Seq<char>) -> Seq<char>;

/// Relies on `pulldown_cmark::html::push_html` over `Parser::new_ext` with
/// `Options::all()`: the HTML depends on the text alone; an empty text gives none.
#[verifier::external_body]
fn markdown_to_html(text: &str) -> (r: String)
    ensures
        r@ == markdown_html(text@),
        text@.len() == 0 ==> r@.len() == 0,
{
    let mut out = String::new();
    pulldown_cmark::html::push_html(
        &mut out,
        pulldown_cmark::Parser::new_ext(text, pulldown_cmark::Options::all()),
    );
    out
}

/// How a README is rendered, fixed by the name it was found under.
#[derive(PartialEq, Eq, Structural, Clone, Copy, Debug)]
pub enum ReadmeFormat {
    Plaintext,
    Markdown,
    Html,
}

/// The number of README names tried.
pub const README_CANDIDATES: usize = 7;

/// The README names tried, in order.
pub open spec fn candidate_name(i: int) -> Seq<char> {
    if i == 0 { "README"@ }
    else if i == 1 { "README.txt"@ }
    else if i == 2 { "README.md"@ }
    else if i == 3 { "README.mdown"@ }
    else if i == 4 { "README.markdown"@ }
    else if i == 5 { "README.html"@ }
    else { "README.htm"@ }
}

/// The format of the README found under the `i`-th name.
pub open spec fn candidate_format(i: int) -> ReadmeFormat {
    if i <= 1 {
        ReadmeFormat::Plaintext
    } else if i <= 4 {
        ReadmeFormat::Markdown
    } else {
        ReadmeFormat::Html
    }
}

/// The README names to look up at the revision, in the order they are tried.
pub fn readme_candidates() -> (r: Vec<String>)
    ensures
        r@.len() == README_CANDIDATES,
        forall|i: int| 0 <= i < README_CANDIDATES ==> (#[trigger] r@[i])@ == candidate_name(i),
{
    let mut r: Vec<String> = Vec::new();
    r.push(String::from_str("README"));
    r.push(String::from_str("README.txt"));
    r.push(String::from_str("README.md"));
    r.push(String::from_str("README.mdown"));
    r.push(String::from_str("README.markdown"));
    r.push(String::from_str("README.html"));
    r.push(String::from_str("README.htm"));
    r
}

/// The format of the README found under the `i`-th name.
pub fn readme_format(i: usize) -> (r: ReadmeFormat)
    requires
        i < README_CANDIDATES,
    ensures
        r == candidate_format(i as int),
{
    if i <= 1 {
        ReadmeFormat::Plaintext
    } else if i <= 4 {
        ReadmeFormat::Markdown
    } else {
        ReadmeFormat::Html
    }
}

/// Whether the `i`-th name is the one a README is taken from: a file exists under
/// it and under none of the names before it.
pub open spec fn chosen_readme(present: Seq<bool>, i: int) -> bool {
    &&& 0 <= i < present.len()
    &&& i < README_CANDIDATES
    &&& present[i]
    &&& forall|j: int| 0 <= j < i ==> !present[j]
}

/// Picks the README: given for each name, in order, whether a file exists under it
/// at the revision, the first name that does, with its format; later names are not
/// consulted.
pub fn select_readme(present: &Vec<bool>) -> (r: Option<(usize, ReadmeFormat)>)
    ensures
        r matches Some((i, f)) ==> chosen_readme(present@, i as int) && f == candidate_format(
            i as int,
        ),
        r is None ==> forall|j: int|
            0 <= j < present@.len() && j < README_CANDIDATES ==> !present@[j],
{
    let mut i: usize = 0;
    while i < present.len() && i < README_CANDIDATES
        invariant
            i <= present@.len(),
            i <= README_CANDIDATES,
            forall|j: int| 0 <= j < i ==> !present@[j],
        decreases present@.len() - i,
    {
        if present[i] {
            return Some((i, readme_format(i)));
        }
        i = i + 1;
    }
    None
}

/// The HTML text of one character: `&`, `<` and `>` escaped.
pub open spec fn escape_char(c: char) -> Seq<char> {
    if c == '&' {
        "&amp;"@
    } else if c == '<' {
        "&lt;"@
    } else if c == '>' {
        "&gt;"@
    } else {
        seq![c]
    }
}

/// `s` as HTML text: every `&`, `<` and `>` escaped.
pub open spec fn html_escape(s: Seq<char>) -> Seq<char>
    decreases s.len(),
{
    if s.len() == 0 {
        Seq::empty()
    } else {
        html_escape(s.drop_last()) + escape_char(s.last())
    }
}

/// What a README renders to in the given format.
pub open spec fn readme_html(format: ReadmeFormat, text: Seq<char>) -> Seq<char> {
    match format {
        ReadmeFormat::Plaintext => "<pre>"@ + html_escape(text) + "</pre>"@,
        ReadmeFormat::Html => text,
        ReadmeFormat::Markdown => markdown_html(text),
    }
}

fn escape_text(text: &Vec<char>, out: &mut Vec<char>)
    ensures
        final(out)@ == old(out)@ + html_escape(text@),
{
    let mut i: usize = 0;
    while i < text.len()
        invariant
            i <= text@.len(),
            out@ == old(out)@ + html_escape(text@.take(i as int)),
        decreases text@.len() - i,
    {
        let ghost before = out@;
        assert(text@.take(i + 1).drop_last() =~= text@.take(i as int));
        if text[i] == '&' {
            append_str(out, "&amp;");
        } else if text[i] == '<' {
            append_str(out, "&lt;");
        } else if text[i] == '>' {
            append_str(out, "&gt;");
        } else {
            out.push(text[i]);
        }
        i = i + 1;
        assert(out@ =~= old(out)@ + html_escape(text@.take(i as int)));
    }
    assert(text@.take(text@.len() as int) =~= text@);
}

/// Renders a README's text in its format: plain text escaped and preformatted,
/// Markdown rendered to HTML, HTML passed through as the repository owner wrote it.
pub fn render_readme(format: ReadmeFormat, text: &str) -> (r: String)
    ensures
        r@ == readme_html(format, text@),
{
    match format {
        ReadmeFormat::Plaintext => {
            let mut out: Vec<char> = Vec::new();
            append_str(&mut out, "<pre>");
            escape_text(&chars_of(text), &mut out);
            append_str(&mut out, "</pre>");
            string_of(&out)
        },
        ReadmeFormat::Html => String::from_str(text),
        ReadmeFormat::Markdown => {
            markdown_to_html(text)
        },
    }
}

/// When both `README` and `README.md` exist, the plain `README` is chosen and
/// rendered as escaped preformatted text, not as Markdown.
pub proof fn lemma_plain_readme_wins(present: Seq<bool>, i: int, text: Seq<char>)
    requires
        present.len() >= 3,
        present[0],
        present[2],
        chosen_readme(present, i),
    ensures
        i == 0,
        candidate_name(i) == "README"@,
        candidate_format(i) == ReadmeFormat::Plaintext,
        readme_html(candidate_format(i), text) == "<pre>"@ + html_escape(text) + "</pre>"@,
{
    if i > 0 {
        assert(!present[0]);
    }
}

/// A fenced code block with a language in rendered README HTML: it spans
/// `start..end` and reads `<pre><code class="language-LANG">CODE</code></pre>`.
pub struct CodeBlock {
    pub start: usize,
    pub end: usize,
    pub lang: String,
    pub code: String,
}

pub open spec fn code_open() -> Seq<char> {
    "<pre><code class=\"language-"@
}

pub open spec fn code_close() -> Seq<char> {
    "</code></pre>"@
}

/// The text of a code block with the given language and code.
pub open spec fn block_text(lang: Seq<char>, code: Seq<char>) -> Seq<char> {
    code_open() + lang + "\">"@ + code + code_close()
}

/// Whether `blocks` are code blocks of `html`, in order and not overlapping.
pub open spec fn blocks_of(html: Seq<char>, blocks: Seq<CodeBlock>) -> bool {
    &&& forall|i: int| 0 <= i < blocks.len() ==> {
        &&& (#[trigger] blocks[i]).start <= blocks[i].end <= html.len()
        &&& html.subrange(blocks[i].start as int, blocks[i].end as int) == block_text(
            blocks[i].lang@,
            blocks[i].code@,
        )
    }
    &&& forall|i: int| 0 <= i < blocks.len() - 1 ==> (#[trigger] blocks[i]).end <= blocks[i + 1].start
}

/// Whether `b` is the block a scan reads from its opening tag: its language ends
/// at the first `">` after the tag, and its code at the first closing tag after that.
pub open spec fn scanned_block(html: Seq<char>, b: CodeBlock) -> bool {
    let ls = b.start + code_open().len();
    let cs = ls + b.lang@.len() + 2;
    &&& first_occurrence(html, "\">"@, ls) == Some(ls + b.lang@.len())
    &&& first_occurrence(html, code_close(), cs) == Some(b.end - code_close().len())
}

/// The spans of the blocks.
pub open spec fn spans_of(blocks: Seq<CodeBlock>) -> Seq<(int, int)> {
    blocks.map_values(|b: CodeBlock| (b.start as int, b.end as int))
}

/// Whether `blocks` lie in order, without overlapping, within `len` characters.
pub open spec fn ordered_within(blocks: Seq<CodeBlock>, len: nat) -> bool {
    &&& forall|i: int| 0 <= i < blocks.len() ==> (#[trigger] blocks[i]).start <= blocks[i].end <= len
    &&& forall|i: int| 0 <= i < blocks.len() - 1 ==> (#[trigger] blocks[i]).end <= blocks[i + 1].start
}

/// `html` with each block replaced by the text given for it, by position.
pub open spec fn spliced(html: Seq<char>, blocks: Seq<CodeBlock>, with: Seq<Seq<char>>) -> Seq<char>
    decreases blocks.len(),
{
    if blocks.len() == 0 || with.len() == 0 {
        html
    } else {
        let b = blocks.last();
        spliced(html.take(b.start as int), blocks.drop_last(), with.drop_last()) + with.last()
            + html.skip(b.end as int)
    }
}

/// The first position at or after `from`, within `v`, where `pat` occurs.
pub open spec fn first_occurrence(v: Seq<char>, pat: Seq<char>, from: int) -> Option<int>
    decreases v.len() - from,
{
    if from < 0 || from >= v.len() || from + pat.len() > v.len() {
        None
    } else if v.subrange(from, from + pat.len()) == pat {
        Some(from)
    } else {
        first_occurrence(v, pat, from + 1)
    }
}

proof fn lemma_first_occurrence(v: Seq<char>, pat: Seq<char>, from: int)
    ensures
        first_occurrence(v, pat, from) matches Some(i) ==> from <= i && i + pat.len() <= v.len()
            && v.subrange(i, i + pat.len()) == pat,
    decreases v.len() - from,
{
    if !(from < 0 || from >= v.len() || from + pat.len() > v.len()) && v.subrange(from, from + pat.len()) != pat {
        lemma_first_occurrence(v, pat, from + 1);
    }
}

/// The spans of the code blocks a scan from `from` finds: the first opening tag,
/// the end of its language, then the first closing tag after it; the scan goes on
/// after that block and stops where one of the three is missing.
pub open spec fn block_spans(html: Seq<char>, from: int) -> Seq<(int, int)>
    decreases html.len() - from via block_spans_decreases
{
    match first_occurrence(html, code_open(), from) {
        None => Seq::empty(),
        Some(s) => match first_occurrence(html, "\">"@, s + code_open().len()) {
            None => Seq::empty(),
            Some(q) => match first_occurrence(html, code_close(), q + 2) {
                None => Seq::empty(),
                Some(e) => seq![(s, e + code_close().len())] + block_spans(html, e + code_close().len()),
            },
        },
    }
}

#[via_fn]
proof fn block_spans_decreases(html: Seq<char>, from: int) {
    reveal_strlit("\">");
    reveal_strlit("</code></pre>");
    lemma_first_occurrence(html, code_open(), from);
    if let Some(s) = first_occurrence(html, code_open(), from) {
        lemma_first_occurrence(html, "\">"@, s + code_open().len());
        if let Some(q) = first_occurrence(html, "\">"@, s + code_open().len()) {
            lemma_first_occurrence(html, code_close(), q + 2);
        }
    }
}

/// Finds the first occurrence of `pat` in `v` at or after `from`.
fn find_from(v: &Vec<char>, pat: &Vec<char>, from: usize) -> (r: Option<usize>)
    requires
        from <= v@.len(),
    ensures
        match r {
            Some(i) => first_occurrence(v@, pat@, from as int) == Some(i as int),
            None => first_occurrence(v@, pat@, from as int) is None,
        },
        r matches Some(i) ==> from <= i && i + pat@.len() <= v@.len() && v@.subrange(
            i as int,
            i + pat@.len(),
        ) == pat@,
{
    let n = v.len();
    let m = pat.len();
    let mut i: usize = from;
    while i < n
        invariant
            from <= i <= n,
            n == v@.len(),
            m == pat@.len(),
            first_occurrence(v@, pat@, from as int) == first_occurrence(v@, pat@, i as int),
        decreases n - i,
    {
        if m > n - i {
            return None;
        }
        let mut k: usize = 0;
        while k < m && v[i + k] == pat[k]
            invariant
                k <= m,
                i + m <= n,
                n == v@.len(),
                m == pat@.len(),
                forall|j: int| 0 <= j < k ==> v@[i + j] == pat@[j],
            decreases m - k,
        {
            k = k + 1;
        }
        if k == m {
            assert(v@.subrange(i as int, i + pat@.len()) =~= pat@);
            return Some(i);
        }
        assert(v@.subrange(i as int, i + pat@.len())[k as int] != pat@[k as int]);
        i = i + 1;
    }
    None
}

fn copy_range(v: &Vec<char>, from: usize, to: usize) -> (r: Vec<char>)
    requires
        from <= to <= v@.len(),
    ensures
        r@ == v@.subrange(from as int, to as int),
{
    let mut r: Vec<char> = Vec::new();
    let mut k: usize = from;
    while k < to
        invariant
            from <= k <= to <= v@.len(),
            r@ == v@.subrange(from as int, k as int),
        decreases to - k,
    {
        r.push(v[k]);
        k = k + 1;
        assert(r@ =~= v@.subrange(from as int, k as int));
    }
    r
}

/// Code blocks of rendered README HTML, found scanning from the left: each reads
/// as a fenced code block with a language, and they come in order without overlap.
pub fn find_code_blocks(html: &str) -> (r: Vec<CodeBlock>)
    ensures
        blocks_of(html@, r@),
        spans_of(r@) == block_spans(html@, 0),
        forall|i: int| 0 <= i < r@.len() ==> scanned_block(html@, #[trigger] r@[i]),
{
    let v = chars_of(html);
    let open = chars_of("<pre><code class=\"language-");
    let quote = chars_of("\">");
    let close = chars_of("</code></pre>");
    proof {
        reveal_strlit("</code></pre>");
        reveal_strlit("\">");
        reveal_strlit("<pre><code class=\"language-");
        assert(close@.len() == 13);
    }
    let mut out: Vec<CodeBlock> = Vec::new();
    assert(spans_of(out@) =~= Seq::<(int, int)>::empty());
    let mut pos: usize = 0;
    while pos < v.len()
        invariant
            pos <= v@.len(),
            v@ == html@,
            open@ == code_open(),
            quote@ == "\">"@,
            close@ == code_close(),
            close@.len() == 13,
            quote@.len() == 2,
            open@.len() > 0,
            blocks_of(html@, out@),
            forall|i: int| 0 <= i < out@.len() ==> (#[trigger] out@[i]).end <= pos,
            spans_of(out@) + block_spans(html@, pos as int) == block_spans(html@, 0),
            forall|i: int| 0 <= i < out@.len() ==> scanned_block(html@, #[trigger] out@[i]),
        ensures
            forall|i: int| 0 <= i < out@.len() ==> scanned_block(html@, #[trigger] out@[i]),
            blocks_of(html@, out@),
            spans_of(out@) == block_spans(html@, 0),
        decreases v@.len() - pos,
    {
        let s = match find_from(&v, &open, pos) {
            Some(s) => s,
            None => {
                assert(spans_of(out@) + block_spans(html@, pos as int) =~= spans_of(out@));
                break;
            },
        };
        let ls = s + open.len();
        let q = match find_from(&v, &quote, ls) {
            Some(q) => q,
            None => {
                assert(spans_of(out@) + block_spans(html@, pos as int) =~= spans_of(out@));
                break;
            },
        };
        let cs = q + quote.len();
        let e = match find_from(&v, &close, cs) {
            Some(e) => e,
            None => {
                assert(spans_of(out@) + block_spans(html@, pos as int) =~= spans_of(out@));
                break;
            },
        };
        let end = e + close.len();
        let lang = copy_range(&v, ls, q);
        let code = copy_range(&v, cs, e);
        let block = CodeBlock { start: s, end, lang: string_of(&lang), code: string_of(&code) };
        proof {
            assert(v@.subrange(s as int, end as int) =~= v@.subrange(s as int, ls as int)
                + v@.subrange(ls as int, q as int) + v@.subrange(q as int, cs as int)
                + v@.subrange(cs as int, e as int) + v@.subrange(e as int, end as int));
        }
        let ghost before = out@;
        assert(scanned_block(html@, block));
        out.push(block);
        proof {
            assert forall|i: int| 0 <= i < out@.len() implies scanned_block(html@, #[trigger] out@[i]) by {
                if i < before.len() {
                    assert(out@[i] == before[i]);
                }
            }
            assert(block_spans(html@, pos as int) == seq![(s as int, end as int)] + block_spans(html@, end as int));
            assert(spans_of(out@) =~= spans_of(before).push((s as int, end as int)));
            assert(spans_of(out@) + block_spans(html@, end as int) =~= spans_of(before) + block_spans(html@, pos as int));
            assert forall|i: int| 0 <= i < out@.len() - 1 implies (#[trigger] out@[i]).end
                <= out@[i + 1].start by {
                if i < before.len() - 1 {
                    assert(out@[i] == before[i]);
                    assert(out@[i + 1] == before[i + 1]);
                } else {
                    assert(out@[i] == before[i]);
                }
            }
            assert forall|i: int| 0 <= i < out@.len() implies {
                &&& (#[trigger] out@[i]).start <= out@[i].end <= html@.len()
                &&& html@.subrange(out@[i].start as int, out@[i].end as int) == block_text(
                    out@[i].lang@,
                    out@[i].code@,
                )
            } by {
                if i < before.len() {
                    assert(out@[i] == before[i]);
                }
            }
        }
        pos = end;
    }
    out
}

proof fn lemma_spliced_append(h: Seq<char>, t: Seq<char>, blocks: Seq<CodeBlock>, with: Seq<Seq<char>>)
    requires
        ordered_within(blocks, h.len()),
    ensures
        spliced(h + t, blocks, with) == spliced(h, blocks, with) + t,
    decreases blocks.len(),
{
    if blocks.len() > 0 && with.len() > 0 {
        let b = blocks.last();
        assert((h + t).take(b.start as int) =~= h.take(b.start as int));
        assert((h + t).skip(b.end as int) =~= h.skip(b.end as int) + t);
        let bs = blocks.drop_last();
        assert forall|i: int| 0 <= i < bs.len() implies (#[trigger] bs[i]).start <= bs[i].end <= b.start by {
            assert(bs[i] == blocks[i]);
            if i < bs.len() - 1 {
                assert(bs[i].end <= bs[i + 1].start);
                assert(bs[i + 1] == blocks[i + 1]);
            }
            lemma_chain(blocks, h.len(), i, blocks.len() - 1);
        }
        assert forall|i: int| 0 <= i < bs.len() - 1 implies (#[trigger] bs[i]).end <= bs[i + 1].start by {
            assert(bs[i] == blocks[i]);
            assert(bs[i + 1] == blocks[i + 1]);
        }
        lemma_spliced_append(h.take(b.start as int), Seq::empty(), bs, with.drop_last());
        assert(h.take(b.start as int) + Seq::<char>::empty() =~= h.take(b.start as int));
        assert(spliced(h + t, blocks, with) =~= spliced(h, blocks, with) + t);
    }
}

proof fn lemma_chain(bs: Seq<CodeBlock>, len: nat, k: int, j: int)
    requires
        ordered_within(bs, len),
        0 <= k < j < bs.len(),
    ensures
        bs[k].end <= bs[j].start,
    decreases j - k,
{
    if k < j - 1 {
        lemma_chain(bs, len, k, j - 1);
    }
}

fn check_order(blocks: &Vec<CodeBlock>, len: usize) -> (r: bool)
    ensures
        r == ordered_within(blocks@, len as nat),
{
    let mut i: usize = 0;
    while i < blocks.len()
        invariant
            i <= blocks@.len(),
            forall|k: int| 0 <= k < i ==> (#[trigger] blocks@[k]).start <= blocks@[k].end <= len,
            forall|k: int| 0 <= k < i && k < blocks@.len() - 1 ==> (#[trigger] blocks@[k]).end <= blocks@[k + 1].start,
        decreases blocks@.len() - i,
    {
        let b = &blocks[i];
        if b.start > b.end || b.end > len {
            return false;
        }
        if i + 1 < blocks.len() && b.end > blocks[i + 1].start {
            return false;
        }
        i = i + 1;
    }
    true
}

proof fn lemma_splice_step(h: Seq<char>, pos: int, bs: Seq<CodeBlock>, ws: Seq<Seq<char>>, i: int, mid: Seq<char>)
    requires
        ordered_within(bs, h.len()),
        ws.len() == bs.len(),
        0 <= i < bs.len(),
        0 <= pos <= bs[i].start,
        i > 0 ==> pos == bs[i - 1].end,
        i == 0 ==> pos == 0,
        mid == h.subrange(pos, bs[i].start as int),
    ensures
        spliced(h.take(pos), bs.take(i), ws.take(i)) + mid + ws[i] == spliced(
            h.take(bs[i].end as int),
            bs.take(i + 1),
            ws.take(i + 1),
        ),
{
    let t = bs.take(i);
    assert forall|k: int| 0 <= k < t.len() implies (#[trigger] t[k]).start <= t[k].end <= h.take(pos).len() by {
        if k < i - 1 {
            lemma_chain(bs, h.len(), k, i - 1);
        }
        assert(t[k] == bs[k]);
    }
    assert forall|k: int| 0 <= k < t.len() - 1 implies (#[trigger] t[k]).end <= t[k + 1].start by {
        assert(t[k] == bs[k]);
        assert(t[k + 1] == bs[k + 1]);
    }
    lemma_spliced_append(h.take(pos), mid, t, ws.take(i));
    assert(h.take(pos) + mid =~= h.take(bs[i].start as int));
    assert(bs.take(i + 1).drop_last() =~= t);
    assert(ws.take(i + 1).drop_last() =~= ws.take(i));
    assert(h.take(bs[i].end as int).take(bs[i].start as int) =~= h.take(bs[i].start as int));
    assert(h.take(bs[i].end as int).skip(bs[i].end as int) =~= Seq::<char>::empty());
}

/// `html` with each block replaced, by position, by the HTML given for it (its
/// highlighted code): text outside the blocks is kept as it is, so that blocks
/// with identical code cannot interfere. `None` when the blocks are not in order
/// within `html` or their number differs from that of the replacements.
pub fn splice_blocks(html: &str, blocks: &Vec<CodeBlock>, with: &Vec<String>) -> (r: Option<String>)
    ensures
        r is Some <==> ordered_within(blocks@, html@.len()) && with@.len() == blocks@.len(),
        r matches Some(t) ==> t@ == spliced(html@, blocks@, with@.map_values(|w: String| w@)),
{
    let v = chars_of(html);
    let n = v.len();
    if with.len() != blocks.len() || !check_order(blocks, n) {
        return None;
    }
    let ghost ws = with@.map_values(|w: String| w@);
    let ghost bs = blocks@;
    let mut out: Vec<char> = Vec::new();
    let mut pos: usize = 0;
    let mut i: usize = 0;
    assert(v@.take(0) =~= Seq::<char>::empty());
    assert(bs.take(0) =~= Seq::<CodeBlock>::empty());
    while i < blocks.len()
        invariant
            i <= bs.len(),
            bs == blocks@,
            ws == with@.map_values(|w: String| w@),
            ws.len() == bs.len(),
            v@ == html@,
            n == v@.len(),
            ordered_within(bs, n as nat),
            pos <= n,
            i > 0 ==> pos == bs[i - 1].end,
            i == 0 ==> pos == 0,
            out@ == spliced(v@.take(pos as int), bs.take(i as int), ws.take(i as int)),
        decreases bs.len() - i,
    {
        proof {
            if i > 0 {
                lemma_chain(bs, n as nat, i - 1, i as int);
            }
        }
        let mid = copy_range(&v, pos, blocks[i].start);
        proof {
            lemma_splice_step(v@, pos as int, bs, ws, i as int, mid@);
        }
        append_chars(&mut out, &mid);
        append_str(&mut out, with[i].as_str());
        pos = blocks[i].end;
        i = i + 1;
    }
    let tail = copy_range(&v, pos, n);
    proof {
        assert(bs.take(i as int) =~= bs);
        assert(ws.take(i as int) =~= ws);
        if i > 0 {
            assert forall|k: int| 0 <= k < bs.len() implies (#[trigger] bs[k]).start <= bs[k].end <= pos by {
                if k < i - 1 {
                    lemma_chain(bs, n as nat, k, i - 1);
                }
            }
        }
        lemma_spliced_append(v@.take(pos as int), tail@, bs, ws);
        assert(v@.take(pos as int) + tail@ =~= v@);
    }
    append_chars(&mut out, &tail);
    Some(string_of(&out))
}

} // verus!
