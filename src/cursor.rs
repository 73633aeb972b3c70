use vstd::prelude::*;
use crate::text::{
    all_digits, append_chars, append_decimal, chars_of, decimal, digit_value, digits_value,
    is_digit, lemma_decimal, string_of,
};

verus! {

/// The number of decimal digits at the end of `s`.
pub open spec fn trailing_digits(s: Seq<char>) -> nat
    decreases s.len(),
{
    if s.len() > 0 && is_digit(s.last()) {
        trailing_digits(s.drop_last()) + 1
    } else {
        0
    }
}

/// Whether the revision spec `s` ends in an ancestry suffix `~N` (one or more digits).
pub open spec fn has_skip(s: Seq<char>) -> bool {
    let d = trailing_digits(s);
    0 < d < s.len() && s[s.len() - d - 1] == '~'
}

/// The revision spec without its ancestry suffix.
pub open spec fn cursor_base(s: Seq<char>) -> Seq<char> {
    if has_skip(s) {
        s.subrange(0, s.len() - trailing_digits(s) - 1)
    } else {
        s
    }
}

/// How many commits the ancestry suffix of `s` skips (none without a suffix).
pub open spec fn cursor_skip(s: Seq<char>) -> nat {
    if has_skip(s) {
        digits_value(s.subrange(s.len() - trailing_digits(s), s.len() as int))
    } else {
        0
    }
}

/// The cursor of the page after the one that `s` starts: the same base, skipping
/// `per_page` more commits.
pub open spec fn next_cursor(s: Seq<char>, per_page: nat) -> Seq<char> {
    cursor_base(s) + seq!['~'] + decimal(cursor_skip(s) + per_page)
}

/// Splits the `per_page + 1` entries taken from a walk into the page shown and
/// whether another page follows.
pub open spec fn page_split<T>(taken: Seq<T>, per_page: nat) -> (Seq<T>, bool) {
    if taken.len() < per_page + 1 {
        (taken, false)
    } else {
        (taken.take(per_page as int), true)
    }
}

/// The entries a page starting `skip` commits into `history` takes from the walk.
pub open spec fn taken_at<T>(history: Seq<T>, skip: nat, per_page: nat) -> Seq<T> {
    if skip >= history.len() {
        Seq::empty()
    } else if skip + per_page + 1 >= history.len() {
        history.subrange(skip as int, history.len() as int)
    } else {
        history.subrange(skip as int, (skip + per_page + 1) as int)
    }
}

/// The pages that successive cursors show, from the one that skips `skip` commits on,
/// each page followed by those of the cursor it links to.
pub open spec fn pages_from<T>(history: Seq<T>, skip: nat, per_page: nat) -> Seq<T>
    decreases history.len() - skip,
{
    let (page, more) = page_split(taken_at(history, skip, per_page), per_page);
    if more && per_page > 0 && skip < history.len() {
        page + pages_from(history, skip + per_page, per_page)
    } else {
        page
    }
}

proof fn lemma_trailing_split(s: Seq<char>, i: int)
    requires
        0 <= i <= s.len(),
        all_digits(s.subrange(i, s.len() as int)),
    ensures
        trailing_digits(s) == (s.len() - i) + trailing_digits(s.subrange(0, i)),
    decreases s.len() - i,
{
    if i < s.len() {
        let t = s.drop_last();
        assert(is_digit(s.subrange(i, s.len() as int)[s.len() - 1 - i]));
        assert(t.subrange(i, t.len() as int) =~= s.subrange(i, s.len() as int).drop_last());
        lemma_trailing_split(t, i);
        assert(t.subrange(0, i) =~= s.subrange(0, i));
    } else {
        assert(s.subrange(0, i) =~= s);
    }
}

proof fn lemma_digits_prefix(t: Seq<char>, k: int)
    requires
        0 <= k < t.len(),
    ensures
        digits_value(t.subrange(0, k + 1)) == digits_value(t.subrange(0, k)) * 10 + digit_value(t[k]),
{
    assert(t.subrange(0, k + 1).drop_last() =~= t.subrange(0, k));
}

proof fn lemma_digits_monotone(t: Seq<char>, k: int)
    requires
        0 <= k <= t.len(),
    ensures
        digits_value(t.subrange(0, k)) <= digits_value(t),
    decreases t.len() - k,
{
    if k < t.len() {
        lemma_digits_prefix(t, k);
        lemma_digits_monotone(t, k + 1);
    } else {
        assert(t.subrange(0, k) =~= t);
    }
}

/// The revision spec of the next log page after `spec`, pages of `per_page` commits.
/// `None` where the skip count would not fit in 64 bits.
pub fn next_page_spec(spec: &str, per_page: usize) -> (r: Option<String>)
    ensures
        r is Some <==> cursor_skip(spec@) + per_page <= u64::MAX,
        r matches Some(c) ==> c@ == next_cursor(spec@, per_page as nat),
{
    let cs = chars_of(spec);
    let ghost s = spec@;
    let n = cs.len();
    let mut i: usize = n;
    while i > 0 && '0' <= cs[i - 1] && cs[i - 1] <= '9'
        invariant
            i <= n,
            n == s.len(),
            s == spec@,
            cs@ == s,
            all_digits(s.subrange(i as int, n as int)),
        decreases i,
    {
        assert(s.subrange(i - 1, n as int) =~= seq![s[i - 1]] + s.subrange(i as int, n as int));
        assert forall|j: int| 0 <= j < n - (i - 1) implies is_digit(
            #[trigger] s.subrange(i - 1, n as int)[j],
        ) by {
            if j > 0 {
                assert(s.subrange(i - 1, n as int)[j] == s.subrange(i as int, n as int)[j - 1]);
            }
        }
        i = i - 1;
    }
    proof {
        lemma_trailing_split(s, i as int);
        if i > 0 {
            assert(!is_digit(s.subrange(0, i as int).last()));
        }
        assert(trailing_digits(s.subrange(0, i as int)) == 0);
    }
    let skipped = i < n && i > 0 && cs[i - 1] == '~';
    let mut value: u64 = 0;
    let mut base_len: usize = n;
    if skipped {
        base_len = i - 1;
        let ghost t = s.subrange(i as int, n as int);
        assert(has_skip(s));
        assert(t.subrange(0, 0) =~= Seq::<char>::empty());
        let mut j: usize = i;
        while j < n
            invariant
                i <= j <= n,
                n == s.len(),
                s == spec@,
                cs@ == s,
                t == s.subrange(i as int, n as int),
                all_digits(t),
                value as nat == digits_value(t.subrange(0, j - i)),
                cursor_skip(s) == digits_value(t),
            decreases n - j,
        {
            proof {
                lemma_digits_prefix(t, j - i);
            }
            let d = (cs[j] as u32 - '0' as u32) as u64;
            assert(t[j - i] == cs@[j as int]);
            assert(is_digit(t[j - i]));
            assert(d as nat == digit_value(t[j - i]));
            if value > (u64::MAX - d) / 10 {
                proof {
                    lemma_digits_monotone(t, j - i + 1);
                    assert(value * 10 + d > u64::MAX) by (nonlinear_arith)
                        requires
                            value > (u64::MAX - d) / 10,
                            d <= 9,
                    ;
                    assert(digits_value(t.subrange(0, j - i + 1)) > u64::MAX);
                    assert(digits_value(t.subrange(0, j - i + 1)) <= digits_value(t));
                    assert(cursor_skip(s) > u64::MAX);
                }
                return None;
            }
            value = value * 10 + d;
            j = j + 1;
        }
        assert(t.subrange(0, n - i) =~= t);
    }
    if value > u64::MAX - per_page as u64 {
        return None;
    }
    let mut out: Vec<char> = Vec::new();
    let mut k: usize = 0;
    while k < base_len
        invariant
            k <= base_len <= n,
            n == s.len(),
            s == spec@,
            cs@ == s,
            out@ == s.subrange(0, k as int),
        decreases base_len - k,
    {
        out.push(cs[k]);
        k = k + 1;
        assert(out@ =~= s.subrange(0, k as int));
    }
    out.push('~');
    append_decimal(&mut out, value + per_page as u64);
    proof {
        if !skipped {
            assert(s.subrange(0, n as int) =~= s);
        }
        assert(out@ =~= cursor_base(s) + seq!['~'] + decimal(cursor_skip(s) + per_page as nat));
    }
    Some(string_of(&out))
}

proof fn lemma_trailing_of_decimal(b: Seq<char>, n: nat)
    ensures
        trailing_digits(b + seq!['~'] + decimal(n)) == decimal(n).len(),
{
    lemma_decimal(n);
    let s = b + seq!['~'] + decimal(n);
    let i = b.len() + 1;
    assert(s.subrange(i as int, s.len() as int) =~= decimal(n));
    lemma_trailing_split(s, i as int);
    assert(s.subrange(0, i as int).last() == '~');
}

/// A cursor for the next page resumes from the same base, `per_page` commits further.
pub proof fn lemma_next_cursor(s: Seq<char>, per_page: nat)
    ensures
        has_skip(next_cursor(s, per_page)),
        cursor_base(next_cursor(s, per_page)) == cursor_base(s),
        cursor_skip(next_cursor(s, per_page)) == cursor_skip(s) + per_page,
{
    let b = cursor_base(s);
    let n = cursor_skip(s) + per_page;
    let c = next_cursor(s, per_page);
    lemma_trailing_of_decimal(b, n);
    lemma_decimal(n);
    assert(c[c.len() - decimal(n).len() - 1] == '~');
    assert(c.subrange(0, c.len() - decimal(n).len() - 1) =~= b);
    assert(c.subrange(c.len() - decimal(n).len(), c.len() as int) =~= decimal(n));
}

/// Following the cursors from a page on shows every later commit of a linear history
/// exactly once, in order, and the last page links to no further page.
pub proof fn lemma_pages_cover_history<T>(history: Seq<T>, skip: nat, per_page: nat)
    requires
        per_page > 0,
        skip <= history.len(),
    ensures
        pages_from(history, skip, per_page) == history.subrange(skip as int, history.len() as int),
    decreases history.len() - skip,
{
    let taken = taken_at(history, skip, per_page);
    if skip + per_page + 1 <= history.len() {
        lemma_pages_cover_history(history, skip + per_page, per_page);
        assert(taken.take(per_page as int) + history.subrange((skip + per_page) as int, history.len() as int)
            =~= history.subrange(skip as int, history.len() as int));
    } else if skip < history.len() {
        assert(taken =~= history.subrange(skip as int, history.len() as int));
    } else {
        assert(history.subrange(skip as int, history.len() as int) =~= Seq::<T>::empty());
    }
}

/// Each page that links to a next one holds exactly `per_page` commits; the last
/// page, reached after finitely many (the skip grows by `per_page` each time), holds
/// between one and `per_page` commits and ends the history.
pub proof fn lemma_page_shape<T>(history: Seq<T>, skip: nat, per_page: nat)
    requires
        per_page > 0,
        skip < history.len(),
    ensures
        ({
            let (page, more) = page_split(taken_at(history, skip, per_page), per_page);
            &&& more ==> page.len() == per_page && skip + per_page < history.len()
            &&& !more ==> 1 <= page.len() <= per_page && skip + page.len() == history.len()
        }),
{
}

/// For a history without repeated commits, the pages followed from a skip on
/// repeat no commit.
pub proof fn lemma_pages_no_duplicates<T>(history: Seq<T>, skip: nat, per_page: nat)
    requires
        per_page > 0,
        skip <= history.len(),
        history.no_duplicates(),
    ensures
        pages_from(history, skip, per_page).no_duplicates(),
{
    lemma_pages_cover_history(history, skip, per_page);
    let s = history.subrange(skip as int, history.len() as int);
    assert forall|i: int, j: int| 0 <= i < s.len() && 0 <= j < s.len() && i != j implies s[i] != s[j] by {
        assert(s[i] == history[skip + i]);
        assert(s[j] == history[skip + j]);
    }
}

} // verus!
