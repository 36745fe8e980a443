//! File-system paths as text, joined and split the way `std::path::Path`
//! does it on Unix for the simple paths the daemon builds.
use vstd::prelude::*;

use crate::strings::{push_char, push_str};

verus! {

/// `part` appended to the path `base`: an absolute `part` replaces `base`;
/// otherwise a `/` goes between them unless `base` is empty or already ends
/// with one.
pub open spec fn path_join(base: Seq<char>, part: Seq<char>) -> Seq<char> {
    if part.len() > 0 && part[0] == '/' {
        part
    } else if base.len() == 0 || base.last() == '/' {
        base + part
    } else {
        base.push('/') + part
    }
}

/// Joins `part` onto `base`.
pub fn join(base: &str, part: &str) -> (r: String)
    ensures
        r@ == path_join(base@, part@),
{
    let pn = part.unicode_len();
    if pn > 0 && part.get_char(0) == '/' {
        return part.to_owned();
    }
    let mut s = base.to_owned();
    let n = base.unicode_len();
    if n > 0 && base.get_char(n - 1) != '/' {
        push_char(&mut s, '/');
    }
    push_str(&mut s, part);
    assert(n > 0 ==> base@.last() == base@[n - 1]);
    assert(s@ =~= path_join(base@, part@));
    s
}

/// The index of the last `/` before `end`, or -1.
pub open spec fn last_slash_before(p: Seq<char>, end: int) -> int
    decreases end,
{
    if end <= 0 {
        -1
    } else if p[end - 1] == '/' {
        end - 1
    } else {
        last_slash_before(p, end - 1)
    }
}

/// The length of `p` without its trailing slashes (a lone `/` stays).
pub open spec fn trimmed_len(p: Seq<char>, end: int) -> int
    decreases end,
{
    if end <= 1 {
        end
    } else if p[end - 1] == '/' {
        trimmed_len(p, end - 1)
    } else {
        end
    }
}

/// The parent of a path: the path without its last component (and the
/// slashes before it); `None` for the root and for the empty path.
pub open spec fn path_parent(p: Seq<char>) -> Option<Seq<char>> {
    let t = trimmed_len(p, p.len() as int);
    if t == 0 || (t == 1 && p[0] == '/') {
        None
    } else {
        let k = last_slash_before(p, t);
        if k < 0 {
            Some(Seq::empty())
        } else if k == 0 {
            Some(seq!['/'])
        } else {
            Some(p.subrange(0, trimmed_len(p, k)))
        }
    }
}

proof fn lemma_last_slash_bounds(p: Seq<char>, end: int)
    requires
        end <= p.len(),
    ensures
        -1 <= last_slash_before(p, end) < (if end > 0 { end } else { 0 }),
        last_slash_before(p, end) >= 0 ==> p[last_slash_before(p, end)] == '/',
    decreases end,
{
    if end > 0 && p[end - 1] != '/' {
        lemma_last_slash_bounds(p, end - 1);
    }
}

proof fn lemma_trimmed_bounds(p: Seq<char>, end: int)
    requires
        end <= p.len(),
    ensures
        (if end < 0 { end } else { 0 }) <= trimmed_len(p, end) <= end,
        end >= 1 ==> trimmed_len(p, end) >= 1,
    decreases end,
{
    if end > 1 && p[end - 1] == '/' {
        lemma_trimmed_bounds(p, end - 1);
    }
}

fn trimmed(p: &str, end: usize) -> (r: usize)
    requires
        end <= p@.len(),
    ensures
        r == trimmed_len(p@, end as int),
{
    let mut e = end;
    while e > 1 && p.get_char(e - 1) == '/'
        invariant
            e <= end,
            end <= p@.len(),
            trimmed_len(p@, end as int) == trimmed_len(p@, e as int),
        decreases e,
    {
        e = e - 1;
    }
    e
}

fn last_slash(p: &str, end: usize) -> (r: Option<usize>)
    requires
        end <= p@.len(),
    ensures
        match r {
            Some(k) => last_slash_before(p@, end as int) == k as int,
            None => last_slash_before(p@, end as int) == -1,
        },
{
    let mut e = end;
    while e > 0
        invariant
            e <= end,
            end <= p@.len(),
            last_slash_before(p@, end as int) == last_slash_before(p@, e as int),
        decreases e,
    {
        if p.get_char(e - 1) == '/' {
            return Some(e - 1);
        }
        e = e - 1;
    }
    None
}

/// The parent of a path, if it has one.
pub fn parent(p: &str) -> (r: Option<String>)
    ensures
        match r {
            Some(s) => path_parent(p@) == Some(s@),
            None => path_parent(p@) is None,
        },
{
    let n = p.unicode_len();
    let t = trimmed(p, n);
    proof {
        lemma_trimmed_bounds(p@, n as int);
    }
    if t == 0 || (t == 1 && p.get_char(0) == '/') {
        return None;
    }
    proof {
        lemma_last_slash_bounds(p@, t as int);
    }
    match last_slash(p, t) {
        None => Some(String::new()),
        Some(k) => {
            if k == 0 {
                let r = "/".to_owned();
                proof {
                    reveal_strlit("/");
                }
                assert(r@ =~= seq!['/']);
                Some(r)
            } else {
                let kt = trimmed(p, k);
                proof {
                    lemma_trimmed_bounds(p@, k as int);
                }
                Some(p.substring_char(0, kt).to_owned())
            }
        },
    }
}

/// For canonical absolute paths (no `.`, `..`, repeated or trailing
/// slashes), whether `file` lies in the directory `dir`: component-wise,
/// `dir` is a prefix of `file`.
pub open spec fn canonical_within(dir: Seq<char>, file: Seq<char>) -> bool {
    ||| file == dir
    ||| dir == seq!['/'] && file.len() > 0 && file[0] == '/'
    ||| (file.len() > dir.len() && file.subrange(0, dir.len() as int) == dir && file[dir.len() as int] == '/')
}

/// Whether the canonical path `file` lies in the canonical directory `dir`.
pub fn within(dir: &str, file: &str) -> (r: bool)
    ensures
        r == canonical_within(dir@, file@),
{
    let dn = dir.unicode_len();
    let fnn = file.unicode_len();
    if dn == fnn {
        let mut i: usize = 0;
        while i < dn
            invariant
                i <= dn,
                dn == dir@.len(),
                fnn == file@.len(),
                dn == fnn,
                forall|k: int| 0 <= k < i ==> dir@[k] == file@[k],
            decreases dn - i,
        {
            if dir.get_char(i) != file.get_char(i) {
                assert(dir@ != file@);
                assert(!(fnn > dn));
                return false;
            }
            i = i + 1;
        }
        assert(dir@ =~= file@);
        return true;
    }
    if dn == 1 && dir.get_char(0) == '/' {
        let ok = fnn > 0 && file.get_char(0) == '/';
        proof {
            reveal_strlit("/");
            if dir@ != seq!['/'] {
                assert(dir@ =~= seq!['/']);
            }
            if !ok && fnn > dn && file@.subrange(0, dir@.len() as int) == dir@ {
                assert(file@.subrange(0, 1)[0] == file@[0]);
            }
        }
        return ok;
    }
    if fnn <= dn {
        proof {
            if dir@ == seq!['/'] {
                assert(dir@[0] == '/');
            }
        }
        return false;
    }
    let mut i: usize = 0;
    while i < dn
        invariant
            i <= dn,
            dn == dir@.len(),
            fnn == file@.len(),
            dn < fnn,
            forall|k: int| 0 <= k < i ==> dir@[k] == file@[k],
        decreases dn - i,
    {
        if dir.get_char(i) != file.get_char(i) {
            assert(file@.subrange(0, dn as int)[i as int] != dir@[i as int]);
            proof {
                if dir@ == seq!['/'] {
                    assert(dir@[0] == '/');
                }
            }
            return false;
        }
        i = i + 1;
    }
    assert(file@.subrange(0, dn as int) =~= dir@);
    let r = file.get_char(dn) == '/';
    proof {
        if dir@ == seq!['/'] {
            assert(dir@[0] == '/');
        }
    }
    r
}

} // verus!
