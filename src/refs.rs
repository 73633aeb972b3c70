use vstd::prelude::*;
use crate::text::{append_chars, append_str, chars_from, chars_of, starts_with, string_of};

verus! {

broadcast use {vstd::seq_lib::group_seq_properties, vstd::seq_lib::to_multiset_insert};

/// What a tag points at, as read from the object store.
pub enum TagTarget {
    /// A tag object of its own, with the tagger's time if it records one, the
    /// committer time of the commit it peels to, and its message.
    Annotated { tagger_time: Option<i64>, target_time: i64, message: Option<String> },
    /// A reference straight to a commit, with that commit's committer time.
    Lightweight { commit_time: i64 },
}

/// A tag as enumerated: its full reference name (`refs/tags/...`) and target.
pub struct RawTag {
    pub ref_name: String,
    pub target: TagTarget,
}

/// A tag ready for display: the path it links to, its name, the time it is
/// ordered by, and its message (empty for a lightweight tag).
pub struct TagRecord {
    pub link: String,
    pub name: String,
    pub time: i64,
    pub message: String,
}

/// The name of a tag: its reference name without the `refs/tags/` prefix.
pub open spec fn tag_name(ref_name: Seq<char>) -> Seq<char> {
    if ref_name.len() >= 10 && ref_name.take(10) == "refs/tags/"@ {
        ref_name.skip(10)
    } else {
        ref_name
    }
}

/// The time a tag is ordered by: the tagger's time of an annotated tag if it has
/// one, else the committer time of the commit the tag points at.
pub open spec fn tag_time(t: TagTarget) -> i64 {
    match t {
        TagTarget::Annotated { tagger_time, target_time, .. } => match tagger_time {
            Some(tt) => tt,
            None => target_time,
        },
        TagTarget::Lightweight { commit_time } => commit_time,
    }
}

/// The path a tag links to: the tag view for an annotated tag, the commit view for
/// a lightweight one.
pub open spec fn tag_link(t: TagTarget, name: Seq<char>) -> Seq<char> {
    match t {
        TagTarget::Annotated { .. } => "refs/"@ + name,
        TagTarget::Lightweight { .. } => "commit/"@ + name,
    }
}

pub open spec fn tag_message(t: TagTarget) -> Seq<char> {
    match t {
        TagTarget::Annotated { message, .. } => match message {
            Some(m) => m@,
            None => Seq::empty(),
        },
        TagTarget::Lightweight { .. } => Seq::empty(),
    }
}

/// Whether `tags` is ordered newest first.
pub open spec fn newest_first(tags: Seq<TagRecord>) -> bool {
    forall|i: int, j: int| 0 <= i < j < tags.len() ==> tags[i].time >= tags[j].time
}

/// The display record of a tag.
pub fn normalize_tag(raw: RawTag) -> (r: TagRecord)
    ensures
        r.name@ == tag_name(raw.ref_name@),
        r.link@ == tag_link(raw.target, tag_name(raw.ref_name@)),
        r.time == tag_time(raw.target),
        r.message@ == tag_message(raw.target),
{
    let full = chars_of(raw.ref_name.as_str());
    let prefix = chars_of("refs/tags/");
    proof {
        reveal_strlit("refs/tags/");
    }
    let name = if starts_with(&full, &prefix) {
        chars_from(&full, 10)
    } else {
        full
    };
    let mut link: Vec<char> = Vec::new();
    let (time, message) = match raw.target {
        TagTarget::Annotated { tagger_time, target_time, message } => {
            append_str(&mut link, "refs/");
            let time = match tagger_time {
                Some(tt) => tt,
                None => target_time,
            };
            let message = match message {
                Some(m) => m,
                None => String::new(),
            };
            (time, message)
        },
        TagTarget::Lightweight { commit_time } => {
            append_str(&mut link, "commit/");
            (commit_time, String::new())
        },
    };
    append_chars(&mut link, &name);
    TagRecord { link: string_of(&link), name: string_of(&name), time, message }
}

/// Where a tag of time `t` goes in a listing ordered newest first: after every
/// leading tag that is at least as new.
pub open spec fn insert_pos(s: Seq<TagRecord>, t: i64) -> nat
    decreases s.len(),
{
    if s.len() == 0 || s[0].time < t {
        0
    } else {
        1 + insert_pos(s.skip(1), t)
    }
}

/// The tags ordered newest first, each inserted in turn after all earlier tags
/// that are at least as new, so that tags of equal time keep their order.
pub open spec fn by_time(s: Seq<TagRecord>) -> Seq<TagRecord>
    decreases s.len(),
{
    if s.len() == 0 {
        Seq::empty()
    } else {
        let o = by_time(s.drop_last());
        o.insert(insert_pos(o, s.last().time) as int, s.last())
    }
}

/// The tags in `tags`, newest first; tags of equal time keep their order.
pub fn sort_tags(tags: Vec<TagRecord>) -> (r: Vec<TagRecord>)
    ensures
        r@ == by_time(tags@),
        newest_first(r@),
        r@.to_multiset() == tags@.to_multiset(),
{
    let mut rest = tags;
    let ghost input = rest@;
    let total = rest.len();
    let mut out: Vec<TagRecord> = Vec::new();
    let mut taken: usize = 0;
    proof {
        assert(input.take(0) =~= Seq::<TagRecord>::empty());
        assert(out@ =~= Seq::<TagRecord>::empty());
    }
    while rest.len() > 0
        invariant
            taken + rest@.len() == input.len(),
            input.len() == total,
            rest@ == input.skip(taken as int),
            newest_first(out@),
            out@.to_multiset() == input.take(taken as int).to_multiset(),
            out@ == by_time(input.take(taken as int)),
        decreases rest@.len(),
    {
        let x = rest.remove(0);
        let mut p: usize = 0;
        assert(out@.skip(0) =~= out@);
        while p < out.len() && out[p].time >= x.time
            invariant
                p <= out@.len(),
                forall|k: int| 0 <= k < p ==> out@[k].time >= x.time,
                insert_pos(out@, x.time) == p + insert_pos(out@.skip(p as int), x.time),
            decreases out@.len() - p,
        {
            assert(out@.skip(p as int).skip(1) =~= out@.skip(p + 1));
            p = p + 1;
        }
        let ghost before = out@;
        proof {
            assert(insert_pos(before.skip(p as int), x.time) == 0);
            assert(input.take(taken + 1).drop_last() =~= input.take(taken as int));
        }
        out.insert(p, x);
        proof {
            assert(input.take(taken + 1) =~= input.take(taken as int).push(input[taken as int]));
            assert(input[taken as int] == x);
            assert(before.insert(p as int, x).to_multiset() == before.to_multiset().insert(x));
            assert(input.take(taken as int).push(x).to_multiset() == input.take(taken as int).to_multiset().insert(x));
            assert forall|i: int, j: int| 0 <= i < j < out@.len() implies out@[i].time >= out@[j].time by {
                if p < before.len() {
                    assert(before[p as int].time < x.time);
                }
                if j > p && p < before.len() && i != p {
                    if i > p {
                        assert(before[i - 1].time >= before[j - 1].time);
                    }
                }
                if i == p && j > p {
                    assert(before[p as int].time >= before[j - 1].time);
                }
            }
        }
        taken = taken + 1;
        assert(rest@ =~= input.skip(taken as int));
    }
    assert(input.take(taken as int) =~= input);
    assert(input == tags@);
    out
}

/// Whether `rec` is the display record of `raw`.
pub open spec fn describes(rec: TagRecord, raw: RawTag) -> bool {
    &&& rec.name@ == tag_name(raw.ref_name@)
    &&& rec.link@ == tag_link(raw.target, tag_name(raw.ref_name@))
    &&& rec.time == tag_time(raw.target)
    &&& rec.message@ == tag_message(raw.target)
}

/// Whether `rec` is the display record of one of `raws`.
pub open spec fn describes_one_of(rec: TagRecord, raws: Seq<RawTag>) -> bool {
    exists|j: int| 0 <= j < raws.len() && describes(rec, raws[j])
}

/// Whether `recs` holds, index for index, the display records of `raws`.
pub open spec fn records_of(recs: Seq<TagRecord>, raws: Seq<RawTag>) -> bool {
    &&& recs.len() == raws.len()
    &&& forall|k: int| 0 <= k < recs.len() ==> describes(#[trigger] recs[k], raws[k])
}

/// Normalizes every enumerated tag and orders the records newest first: the
/// result holds the display record of each tag once, tags of equal time in the
/// order they were enumerated.
pub fn list_tags(raw: Vec<RawTag>) -> (r: Vec<TagRecord>)
    ensures
        newest_first(r@),
        r@.len() == raw@.len(),
        exists|recs: Seq<TagRecord>| #[trigger] records_of(recs, raw@) && r@ == by_time(recs) && r@.to_multiset() == recs.to_multiset(),
        forall|i: int| 0 <= i < r@.len() ==> describes_one_of(#[trigger] r@[i], raw@),
{
    let ghost raw0 = raw@;
    let mut rest = raw;
    let mut records: Vec<TagRecord> = Vec::new();
    while rest.len() > 0
        invariant
            records@.len() + rest@.len() == raw0.len(),
            rest@ == raw0.skip(records@.len() as int),
            forall|k: int| 0 <= k < records@.len() ==> describes(#[trigger] records@[k], raw0[k]),
        decreases rest@.len(),
    {
        let ghost k = records@.len();
        let t = rest.remove(0);
        assert(t == raw0[k as int]);
        records.push(normalize_tag(t));
        assert(rest@ =~= raw0.skip(records@.len() as int));
    }
    let r = sort_tags(records);
    proof {
        vstd::seq_lib::to_multiset_len(r@);
        vstd::seq_lib::to_multiset_len(records@);
        assert forall|i: int| 0 <= i < r@.len() implies describes_one_of(#[trigger] r@[i], raw0) by {
            vstd::seq_lib::to_multiset_contains(r@, r@[i]);
            vstd::seq_lib::to_multiset_contains(records@, r@[i]);
            let k = choose|k: int| 0 <= k < records@.len() && records@[k] == r@[i];
            assert(describes(records@[k], raw0[k]));
            assert(describes(r@[i], raw0[k]));
        }
        assert(raw0 == raw@);
        assert(records_of(records@, raw@));
    }
    r
}

/// In a listing ordered newest first, a lightweight tag whose commit is newer than
/// an annotated tag's tagger time comes before that annotated tag.
pub proof fn lemma_newer_tag_first(
    tags: Seq<TagRecord>,
    annotated: TagTarget,
    lightweight: TagTarget,
    p: int,
    q: int,
)
    requires
        newest_first(tags),
        0 <= p < tags.len(),
        0 <= q < tags.len(),
        annotated matches TagTarget::Annotated { tagger_time: Some(t1), .. },
        lightweight matches TagTarget::Lightweight { commit_time: t2 },
        tag_time(lightweight) > tag_time(annotated),
        tags[p].time == tag_time(lightweight),
        tags[q].time == tag_time(annotated),
    ensures
        p < q,
{
    if q < p {
        assert(tags[q].time >= tags[p].time);
    }
}

/// Why a syndication feed is not produced.
#[derive(PartialEq, Eq, Structural, Clone, Copy, Debug)]
pub enum FeedError {
    /// The repository has no commits, so the feed would have no entries.
    Unavailable,
}

impl FeedError {
    /// The HTTP status of the failure: service unavailable.
    pub fn status(&self) -> (r: u16)
        ensures
            r == 503,
    {
        503
    }
}

/// Decides whether a feed can be produced for a repository; an empty repository is
/// a condition of the server, not an error of the client.
pub fn feed_gate(repository_empty: bool) -> (r: Result<(), FeedError>)
    ensures
        r is Ok <==> !repository_empty,
        r matches Err(e) ==> e == FeedError::Unavailable,
{
    if repository_empty {
        Err(FeedError::Unavailable)
    } else {
        Ok(())
    }
}

/// Where the view of a tag name that is not an annotated tag redirects: the view
/// of the commit it names.
pub fn tag_redirect(repo: &str, name: &str) -> (r: String)
    ensures
        r@ == "/"@ + repo@ + "/commit/"@ + name@,
{
    let mut out: Vec<char> = Vec::new();
    append_str(&mut out, "/");
    append_str(&mut out, repo);
    append_str(&mut out, "/commit/");
    append_str(&mut out, name);
    string_of(&out)
}

} // verus!
