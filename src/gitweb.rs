use vstd::prelude::*;
use crate::blob::first_index_of;
use crate::blob::lemma_first_index;
use crate::text::{append_str, chars_of, string_of};

verus! {

/// The parts of `s` between occurrences of `c` (one part, `s` itself, without any).
pub open spec fn split_on(s: Seq<char>, c: char) -> Seq<Seq<char>>
    decreases s.len(),
{
    let i = first_index_of(s, c);
    if i >= s.len() {
        seq![s]
    } else {
        seq![s.take(i as int)] + split_on(s.skip((i + 1) as int), c)
    }
}

/// The value of the last `key=value` part of the parts that has the given key.
pub open spec fn param_of(parts: Seq<Seq<char>>, key: Seq<char>) -> Option<Seq<char>>
    decreases parts.len(),
{
    if parts.len() == 0 {
        None
    } else {
        let p = parts.last();
        let k = first_index_of(p, '=');
        if k < p.len() && p.take(k as int) == key {
            Some(p.skip((k + 1) as int))
        } else {
            param_of(parts.drop_last(), key)
        }
    }
}

/// Where an old gitweb link, given by its `;`-separated query, redirects: `None`
/// without a project (`p`); else by action (`a`) to the summary, the commit or the
/// log of the object `h`, or to the start page for an unknown action.
pub open spec fn gitweb_target(query: Seq<char>) -> Option<Seq<char>> {
    let parts = split_on(query, ';');
    match param_of(parts, "p"@) {
        None => None,
        Some(p) => {
            let h = match param_of(parts, "h"@) {
                Some(h) => h,
                None => Seq::empty(),
            };
            match param_of(parts, "a"@) {
                None => Some("/"@ + p + "/"@),
                Some(a) => if a == "summary"@ {
                    Some("/"@ + p + "/"@)
                } else if a == "commit"@ || a == "commitdiff"@ {
                    Some("/"@ + p + "/commit/"@ + h)
                } else if a == "shortlog"@ || a == "log"@ {
                    Some("/"@ + p + "/log/"@ + h)
                } else {
                    Some("/"@)
                },
            }
        },
    }
}

fn index_of(v: &Vec<char>, from: usize, c: char) -> (r: usize)
    requires
        from <= v@.len(),
    ensures
        from <= r <= v@.len(),
        r as int - from == first_index_of(v@.skip(from as int), c),
{
    let n = v.len();
    let mut j: usize = from;
    while j < n && v[j] != c
        invariant
            from <= j <= n,
            n == v@.len(),
            forall|k: int| from <= k < j ==> v@[k] != c,
        decreases n - j,
    {
        j = j + 1;
    }
    proof {
        let rest = v@.skip(from as int);
        assert forall|k: int| 0 <= k < j - from implies rest[k] != c by {
            assert(rest[k] == v@[from + k]);
        }
        lemma_first_index(rest, c, j - from);
    }
    j
}

fn slice(v: &Vec<char>, from: usize, to: usize) -> (r: Vec<char>)
    requires
        from <= to <= v@.len(),
    ensures
        r@ == v@.subrange(from as int, to as int),
{
    let mut r: Vec<char> = Vec::new();
    let mut k: usize = from;
    while k < to
        invariant
            from <= k <= to <= v@.len(),
            r@ == v@.subrange(from as int, k as int),
        decreases to - k,
    {
        r.push(v[k]);
        k = k + 1;
        assert(r@ =~= v@.subrange(from as int, k as int));
    }
    r
}

/// The `;`-separated parts of a query.
fn split_parts(s: &Vec<char>) -> (r: Vec<Vec<char>>)
    ensures
        r@.map_values(|p: Vec<char>| p@) == split_on(s@, ';'),
{
    let n = s.len();
    let mut out: Vec<Vec<char>> = Vec::new();
    let mut pos: usize = 0;
    assert(s@.skip(0) =~= s@);
    loop
        invariant
            pos <= n,
            n == s@.len(),
            out@.map_values(|p: Vec<char>| p@) + split_on(s@.skip(pos as int), ';') == split_on(s@, ';'),
        decreases n - pos,
    {
        let ghost rest = s@.skip(pos as int);
        let j = index_of(s, pos, ';');
        let part = slice(s, pos, j);
        let ghost before = out@.map_values(|p: Vec<char>| p@);
        out.push(part);
        assert(out@.map_values(|p: Vec<char>| p@) =~= before.push(s@.subrange(pos as int, j as int)));
        if j >= n {
            assert(rest =~= s@.subrange(pos as int, j as int));
            assert(out@.map_values(|p: Vec<char>| p@) =~= split_on(s@, ';'));
            return out;
        }
        assert(rest.take(j - pos) =~= s@.subrange(pos as int, j as int));
        assert(rest.skip(j - pos + 1) =~= s@.skip(j + 1));
        pos = j + 1;
    }
}

fn eq_chars(a: &Vec<char>, b: &Vec<char>) -> (r: bool)
    ensures
        r == (a@ == b@),
{
    if a.len() != b.len() {
        return false;
    }
    let mut i: usize = 0;
    while i < a.len()
        invariant
            a@.len() == b@.len(),
            i <= a@.len(),
            forall|k: int| 0 <= k < i ==> a@[k] == b@[k],
        decreases a@.len() - i,
    {
        if a[i] != b[i] {
            return false;
        }
        i = i + 1;
    }
    assert(a@ =~= b@);
    true
}

fn param(parts: &Vec<Vec<char>>, key: &Vec<char>) -> (r: Option<Vec<char>>)
    ensures
        match r {
            Some(v) => param_of(parts@.map_values(|p: Vec<char>| p@), key@) == Some(v@),
            None => param_of(parts@.map_values(|p: Vec<char>| p@), key@) is None,
        },
{
    let ghost ps = parts@.map_values(|p: Vec<char>| p@);
    let mut i: usize = parts.len();
    assert(ps.take(i as int) =~= ps);
    while i > 0
        invariant
            i <= parts@.len(),
            ps == parts@.map_values(|p: Vec<char>| p@),
            param_of(ps, key@) == param_of(ps.take(i as int), key@),
        decreases i,
    {
        let p = &parts[i - 1];
        assert(ps.take(i as int).last() == p@);
        assert(ps.take(i as int).drop_last() =~= ps.take(i - 1));
        let k = index_of(p, 0, '=');
        assert(p@.skip(0) =~= p@);
        if k < p.len() {
            let name = slice(p, 0, k);
            assert(name@ =~= p@.take(k as int));
            if eq_chars(&name, key) {
                let value = slice(p, k + 1, p.len());
                assert(value@ =~= p@.skip(k + 1));
                return Some(value);
            }
        }
        i = i - 1;
    }
    assert(ps.take(0) =~= Seq::<Seq<char>>::empty());
    None
}

/// Where an old gitweb link with the given query redirects, see [`gitweb_target`].
pub fn gitweb_redirect(query: &str) -> (r: Option<String>)
    ensures
        match r {
            Some(t) => gitweb_target(query@) == Some(t@),
            None => gitweb_target(query@) is None,
        },
{
    let q = chars_of(query);
    let parts = split_parts(&q);
    let ghost ps = parts@.map_values(|p: Vec<char>| p@);
    let p = match param(&parts, &chars_of("p")) {
        Some(p) => p,
        None => {
            return None;
        },
    };
    let h = match param(&parts, &chars_of("h")) {
        Some(h) => h,
        None => Vec::new(),
    };
    let project = string_of(&p);
    let object = string_of(&h);
    let mut out: Vec<char> = Vec::new();
    append_str(&mut out, "/");
    match param(&parts, &chars_of("a")) {
        None => {
            append_str(&mut out, project.as_str());
            append_str(&mut out, "/");
        },
        Some(a) => {
            if eq_chars(&a, &chars_of("summary")) {
                append_str(&mut out, project.as_str());
                append_str(&mut out, "/");
            } else if eq_chars(&a, &chars_of("commit")) || eq_chars(&a, &chars_of("commitdiff")) {
                append_str(&mut out, project.as_str());
                append_str(&mut out, "/commit/");
                append_str(&mut out, object.as_str());
            } else if eq_chars(&a, &chars_of("shortlog")) || eq_chars(&a, &chars_of("log")) {
                append_str(&mut out, project.as_str());
                append_str(&mut out, "/log/");
                append_str(&mut out, object.as_str());
            }
        },
    }
    let r = string_of(&out);
    Some(r)
}

} // verus!
