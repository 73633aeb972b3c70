use vstd::prelude::*;
use crate::cursor::{cursor_skip, next_cursor, next_page_spec, page_split, taken_at};

verus! {

/// Whether a commit changed a path, given for each of its parents the number of
/// files under that path that differ between the parent's tree and the commit's
/// (for a root commit: one count, against the empty tree). A commit touches the
/// path when any of these diffs is non-empty.
pub open spec fn touches_spec(changed: Seq<usize>) -> bool {
    exists|i: int| 0 <= i < changed.len() && changed[i] > 0
}

/// Whether a commit changed a path; see [`touches_spec`].
pub fn touches(changed: &Vec<usize>) -> (r: bool)
    ensures
        r == touches_spec(changed@),
{
    let mut i: usize = 0;
    while i < changed.len()
        invariant
            i <= changed@.len(),
            forall|j: int| 0 <= j < i ==> changed@[j] == 0,
        decreases changed@.len() - i,
    {
        if changed[i] > 0 {
            return true;
        }
        i = i + 1;
    }
    false
}

/// The ids of the walked commits that were kept, in walk order.
pub open spec fn kept_ids(walked: Seq<(Seq<char>, bool)>) -> Seq<Seq<char>>
    decreases walked.len(),
{
    if walked.len() == 0 {
        Seq::empty()
    } else if walked.last().1 {
        kept_ids(walked.drop_last()).push(walked.last().0)
    } else {
        kept_ids(walked.drop_last())
    }
}

/// One page of a commit listing: the commit ids shown, the revision spec of the
/// next page if there is one, and whether the history was cut short because the
/// repository is a shallow clone.
pub struct LogPage {
    pub commits: Vec<String>,
    pub next: Option<String>,
    pub shallow: bool,
}

/// A walk over history in commit-time order, fed one commit at a time, keeping the
/// commits that pass the path filter until one more than a page is kept, or until
/// `max_walked` commits were walked.
pub struct HistoryWalk {
    pub page_size: usize,
    pub path_filter: bool,
    pub max_walked: usize,
    pub walked_count: usize,
    pub kept: Vec<String>,
    /// Each walked commit's id and whether it was kept.
    pub walked: Ghost<Seq<(Seq<char>, bool)>>,
}

impl HistoryWalk {
    pub open spec fn kept_view(&self) -> Seq<Seq<char>> {
        self.kept@.map_values(|s: String| s@)
    }

    pub open spec fn wf(&self) -> bool {
        &&& self.kept_view() == kept_ids(self.walked@)
        &&& self.walked_count == self.walked@.len()
        &&& self.walked_count <= self.max_walked
        &&& (!self.path_filter ==> forall|j: int| 0 <= j < self.walked@.len() ==> (#[trigger] self.walked@[j]).1)
        &&& self.kept@.len() <= self.page_size + 1
        &&& self.kept@.len() == self.page_size + 1 ==> {
            &&& self.walked@.len() > 0
            &&& self.walked@.last().1
            &&& kept_ids(self.walked@.drop_last()).len() == self.page_size
        }
    }

    pub open spec fn full(&self) -> bool {
        self.kept@.len() > self.page_size || self.walked_count >= self.max_walked
    }

    /// A walk that keeps pages of `page_size` commits; with `path_filter`, only
    /// commits that touch the filtered path are kept. It stops after `max_walked`
    /// commits, so that a filter that rarely matches cannot walk without bound.
    pub fn new(page_size: usize, path_filter: bool, max_walked: usize) -> (r: HistoryWalk)
        ensures
            r.wf(),
            r.page_size == page_size,
            r.path_filter == path_filter,
            r.max_walked == max_walked,
            r.walked@ == Seq::<(Seq<char>, bool)>::empty(),
    {
        let r = HistoryWalk {
            page_size,
            path_filter,
            max_walked,
            walked_count: 0,
            kept: Vec::new(),
            walked: Ghost(Seq::empty()),
        };
        assert(r.kept_view() =~= Seq::<Seq<char>>::empty());
        r
    }

    /// Whether the walk is done: enough commits are kept to know if another page
    /// follows, or the bound on walked commits is reached.
    pub fn is_full(&self) -> (r: bool)
        requires
            self.wf(),
        ensures
            r == self.full(),
    {
        self.kept.len() > self.page_size || self.walked_count >= self.max_walked
    }

    /// Feeds the next commit of the walk: its id and, for each parent, how many
    /// files under the filtered path changed (ignored without a path filter).
    pub fn offer(&mut self, id: String, changed: &Vec<usize>)
        requires
            old(self).wf(),
            !old(self).full(),
        ensures
            final(self).wf(),
            final(self).page_size == old(self).page_size,
            final(self).path_filter == old(self).path_filter,
            final(self).max_walked == old(self).max_walked,
            final(self).walked@ == old(self).walked@.push(
                (id@, !old(self).path_filter || touches_spec(changed@)),
            ),
    {
        let keep = !self.path_filter || touches(changed);
        let ghost w = self.walked@.push((id@, keep));
        proof {
            assert(w.drop_last() =~= self.walked@);
        }
        if keep {
            self.kept.push(id);
            assert(self.kept_view() =~= kept_ids(w));
        }
        self.walked = Ghost(w);
        self.walked_count = self.walked_count + 1;
        assert(forall|j: int| 0 <= j < w.len() - 1 ==> w[j] == old(self).walked@[j]);
    }

    /// The page the walk has produced. The next page's revision spec follows
    /// `spec` when more commits than a page were kept; it is `None` when the
    /// walk ran out or reached its bound, or when the skip count would not fit in
    /// 64 bits.
    pub fn finish(self, spec: &str) -> (r: LogPage)
        requires
            self.wf(),
        ensures
            r.commits@.map_values(|s: String| s@) == page_split(
                kept_ids(self.walked@),
                self.page_size as nat,
            ).0,
            !r.shallow,
            r.next is Some <==> page_split(kept_ids(self.walked@), self.page_size as nat).1
                && cursor_skip(spec@) + self.page_size <= u64::MAX,
            r.next matches Some(c) ==> c@ == next_cursor(spec@, self.page_size as nat),
    {
        let mut kept = self.kept;
        if kept.len() <= self.page_size {
            LogPage { commits: kept, next: None, shallow: false }
        } else {
            kept.pop();
            proof {
                assert(kept@.map_values(|s: String| s@) =~= kept_ids(self.walked@).take(
                    self.page_size as int,
                ));
            }
            LogPage { commits: kept, next: next_page_spec(spec, self.page_size), shallow: false }
        }
    }
}

/// The listing of a shallow clone: only the tip that the revision resolved to,
/// with no further page, marked as cut short.
pub fn shallow_page(tip: String) -> (r: LogPage)
    ensures
        r.commits@.len() == 1,
        r.commits@[0]@ == tip@,
        r.next is None,
        r.shallow,
{
    let mut commits: Vec<String> = Vec::new();
    commits.push(tip);
    LogPage { commits, next: None, shallow: true }
}

proof fn lemma_none_kept(walked: Seq<(Seq<char>, bool)>)
    requires
        kept_ids(walked).len() == 0,
    ensures
        forall|j: int| 0 <= j < walked.len() ==> !(#[trigger] walked[j]).1,
    decreases walked.len(),
{
    if walked.len() > 0 {
        lemma_none_kept(walked.drop_last());
        assert forall|j: int| 0 <= j < walked.len() implies !(#[trigger] walked[j]).1 by {
            if j < walked.len() - 1 {
                assert(walked[j] == walked.drop_last()[j]);
            }
        }
    }
}

/// A filtered walk with a page size of zero, however far it was fed, keeps at most
/// one commit. Without one, no walked commit touches the path. With one, it is the
/// most recent commit in walk order from the starting revision that touches the
/// path: the last commit walked, and no commit walked before it touches the path.
pub proof fn lemma_first_touching(w: HistoryWalk)
    requires
        w.wf(),
        w.page_size == 0,
    ensures
        w.kept@.len() <= 1,
        w.kept@.len() == 0 ==> forall|j: int| 0 <= j < w.walked@.len() ==> !(#[trigger] w.walked@[j]).1,
        w.kept@.len() == 1 ==> {
            &&& w.walked@.len() > 0
            &&& w.walked@.last().1
            &&& w.walked@.last().0 == w.kept@[0]@
            &&& forall|j: int| 0 <= j < w.walked@.len() - 1 ==> !(#[trigger] w.walked@[j]).1
        },
{
    let walked = w.walked@;
    if w.kept@.len() == 0 {
        assert(kept_ids(walked).len() == 0);
        lemma_none_kept(walked);
    } else {
        lemma_none_kept(walked.drop_last());
        assert(kept_ids(walked) == kept_ids(walked.drop_last()).push(walked.last().0));
        assert(w.kept_view()[0] == w.kept@[0]@);
        assert forall|j: int| 0 <= j < walked.len() - 1 implies !(#[trigger] walked[j]).1 by {
            assert(walked[j] == walked.drop_last()[j]);
        }
    }
}

proof fn lemma_all_kept(walked: Seq<(Seq<char>, bool)>)
    requires
        forall|j: int| 0 <= j < walked.len() ==> (#[trigger] walked[j]).1,
    ensures
        kept_ids(walked) == walked.map_values(|p: (Seq<char>, bool)| p.0),
    decreases walked.len(),
{
    if walked.len() > 0 {
        let d = walked.drop_last();
        assert forall|j: int| 0 <= j < d.len() implies (#[trigger] d[j]).1 by {
            assert(d[j] == walked[j]);
        }
        lemma_all_kept(d);
        assert(walked.last().1);
        assert(walked.map_values(|p: (Seq<char>, bool)| p.0) =~= d.map_values(|p: (Seq<char>, bool)| p.0).push(walked.last().0));
    }
}

/// Without a path filter, a walk fed the commits of a linear history from a
/// skip on (until it was full or the history ended) produces exactly the page
/// that the cursor model gives for that skip.
pub proof fn lemma_walk_page(w: HistoryWalk, history: Seq<Seq<char>>, skip: nat)
    requires
        w.wf(),
        !w.path_filter,
        w.walked@.map_values(|p: (Seq<char>, bool)| p.0) == taken_at(history, skip, w.page_size as nat),
    ensures
        page_split(kept_ids(w.walked@), w.page_size as nat) == page_split(
            taken_at(history, skip, w.page_size as nat),
            w.page_size as nat,
        ),
{
    lemma_all_kept(w.walked@);
}

} // verus!
