//! Text splitting, trimming and number reading with the meaning the standard
//! library gives them (`str::split` on a character, `str::lines`,
//! `str::trim`, `u64::from_str`).
use vstd::prelude::*;

use crate::config::{digit_of, is_digit, lemma_decimal_value_prefix, version_digits};
use crate::strings::{decimal_value, digit_value, push_char};

verus! {

broadcast use vstd::string::group_string_axioms;

/// The characters of a text, in order.
pub fn chars_of(s: &str) -> (r: Vec<char>)
    ensures
        r@ == s@,
{
    let mut v: Vec<char> = Vec::new();
    for c in it: s.chars()
        invariant
            it.seq() == s@,
            v@ == s@.take(it.index() as int),
    {
        v.push(c);
    }
    v
}

/// The text of the characters `cs[lo..hi]`.
pub fn string_of(cs: &Vec<char>, lo: usize, hi: usize) -> (r: String)
    requires
        lo <= hi <= cs.len(),
    ensures
        r@ == cs@.subrange(lo as int, hi as int),
{
    let mut s = String::new();
    let mut i: usize = lo;
    while i < hi
        invariant
            lo <= i <= hi <= cs.len(),
            s@ == cs@.subrange(lo as int, i as int),
        decreases hi - i,
    {
        push_char(&mut s, cs[i]);
        assert(s@ =~= cs@.subrange(lo as int, i + 1));
        i = i + 1;
    }
    s
}

/// The views of a sequence of texts.
pub open spec fn views(v: Seq<String>) -> Seq<Seq<char>> {
    v.map_values(|x: String| x@)
}

/// The pieces of a text between occurrences of `sep`, as `str::split` with a
/// character yields them: always at least one piece, empty pieces kept.
pub open spec fn split_on(s: Seq<char>, sep: char) -> Seq<Seq<char>>
    decreases s.len(),
{
    if s.len() == 0 {
        seq![Seq::empty()]
    } else {
        let p = split_on(s.drop_last(), sep);
        if s.last() == sep {
            p.push(Seq::empty())
        } else {
            p.update(p.len() - 1, p.last().push(s.last()))
        }
    }
}

pub proof fn lemma_split_on_len(s: Seq<char>, sep: char)
    ensures
        split_on(s, sep).len() >= 1,
    decreases s.len(),
{
    if s.len() > 0 {
        lemma_split_on_len(s.drop_last(), sep);
    }
}

/// Splits a text at each occurrence of `sep`.
pub fn split_text(s: &str, sep: char) -> (r: Vec<String>)
    ensures
        views(r@) == split_on(s@, sep),
{
    let cs = chars_of(s);
    let mut parts: Vec<String> = Vec::new();
    let mut current = String::new();
    let mut i: usize = 0;
    assert(cs@.take(0) =~= Seq::<char>::empty());
    assert(views(parts@).push(current@) =~= split_on(cs@.take(0), sep));
    while i < cs.len()
        invariant
            i <= cs.len(),
            cs@ == s@,
            views(parts@).push(current@) == split_on(cs@.take(i as int), sep),
        decreases cs.len() - i,
    {
        let c = cs[i];
        let ghost pre = cs@.take(i + 1);
        let ghost before = views(parts@);
        assert(pre.drop_last() =~= cs@.take(i as int));
        assert(pre.last() == c);
        proof {
            lemma_split_on_len(cs@.take(i as int), sep);
        }
        if c == sep {
            parts.push(current);
            current = String::new();
            assert(views(parts@) =~= before.push(split_on(cs@.take(i as int), sep).last()));
            assert(views(parts@).push(current@) =~= split_on(pre, sep));
        } else {
            let ghost cur = current@;
            push_char(&mut current, c);
            assert(views(parts@).push(current@) =~= split_on(pre, sep));
        }
        i = i + 1;
    }
    assert(cs@.take(i as int) =~= s@);
    let ghost before = views(parts@);
    parts.push(current);
    assert(views(parts@) =~= before.push(current@));
    parts
}

/// A line without the carriage return of a `\r\n` ending.
pub open spec fn strip_cr(x: Seq<char>) -> Seq<char> {
    if x.len() > 0 && x.last() == '\r' {
        x.drop_last()
    } else {
        x
    }
}

/// The lines of a text as `str::lines` yields them: split at `\n`, a `\r`
/// before a `\n` dropped, and no empty line after a final `\n`.
pub open spec fn text_lines(s: Seq<char>) -> Seq<Seq<char>> {
    let p = split_on(s, '\n');
    let ended = p.drop_last().map_values(|x: Seq<char>| strip_cr(x));
    if p.last().len() == 0 {
        ended
    } else {
        ended.push(p.last())
    }
}

/// The lines of a text.
pub fn lines_of(s: &str) -> (r: Vec<String>)
    ensures
        views(r@) == text_lines(s@),
{
    let cs = chars_of(s);
    let mut lines: Vec<String> = Vec::new();
    let mut start: usize = 0;
    let mut i: usize = 0;
    assert(cs@.take(0) =~= Seq::<char>::empty());
    assert(views(lines@) =~= split_on(cs@.take(0), '\n').drop_last().map_values(|x: Seq<char>| strip_cr(x)));
    while i < cs.len()
        invariant
            start <= i <= cs.len(),
            cs@ == s@,
            split_on(cs@.take(i as int), '\n').last() == cs@.subrange(start as int, i as int),
            views(lines@) == split_on(cs@.take(i as int), '\n').drop_last().map_values(
                |x: Seq<char>| strip_cr(x),
            ),
        decreases cs.len() - i,
    {
        let c = cs[i];
        let ghost pre = cs@.take(i + 1);
        let ghost old_p = split_on(cs@.take(i as int), '\n');
        let ghost before = views(lines@);
        assert(pre.drop_last() =~= cs@.take(i as int));
        assert(pre.last() == c);
        proof {
            lemma_split_on_len(cs@.take(i as int), '\n');
        }
        if c == '\n' {
            let end: usize = if i > start && cs[i - 1] == '\r' { i - 1 } else { i };
            let line = string_of(&cs, start, end);
            assert(line@ == strip_cr(old_p.last())) by {
                if i > start && cs@[i - 1] == '\r' {
                    assert(old_p.last().drop_last() =~= cs@.subrange(start as int, i - 1));
                } else {
                    assert(old_p.last() =~= cs@.subrange(start as int, i as int));
                }
            }
            lines.push(line);
            let ghost np = split_on(pre, '\n');
            assert(np == old_p.push(Seq::empty()));
            assert(np.drop_last() =~= old_p);
            assert(old_p =~= old_p.drop_last().push(old_p.last()));
            assert(views(lines@) =~= before.push(line@));
            assert(views(lines@) =~= np.drop_last().map_values(|x: Seq<char>| strip_cr(x)));
            start = i + 1;
            assert(np.last() =~= cs@.subrange(start as int, i + 1));
        } else {
            let ghost np = split_on(pre, '\n');
            assert(np.drop_last() =~= old_p.drop_last());
            assert(np.last() =~= cs@.subrange(start as int, i + 1));
        }
        i = i + 1;
    }
    assert(cs@.take(i as int) =~= s@);
    if start < cs.len() {
        let last = string_of(&cs, start, cs.len());
        let ghost before = views(lines@);
        lines.push(last);
        assert(views(lines@) =~= before.push(last@));
    }
    lines
}

/// A white-space character (`char::is_whitespace`: the Unicode
/// `White_Space` property).
pub open spec fn is_white(c: char) -> bool {
    ||| '\u{9}' <= c <= '\u{d}'
    ||| c == ' '
    ||| c == '\u{85}'
    ||| c == '\u{a0}'
    ||| c == '\u{1680}'
    ||| '\u{2000}' <= c <= '\u{200a}'
    ||| c == '\u{2028}'
    ||| c == '\u{2029}'
    ||| c == '\u{202f}'
    ||| c == '\u{205f}'
    ||| c == '\u{3000}'
}

fn white(c: char) -> (r: bool)
    ensures
        r == is_white(c),
{
    ('\u{9}' <= c && c <= '\u{d}') || c == ' ' || c == '\u{85}' || c == '\u{a0}' || c == '\u{1680}'
        || ('\u{2000}' <= c && c <= '\u{200a}') || c == '\u{2028}' || c == '\u{2029}' || c == '\u{202f}'
        || c == '\u{205f}' || c == '\u{3000}'
}

/// A text without its leading white space.
pub open spec fn trim_start(s: Seq<char>) -> Seq<char>
    decreases s.len(),
{
    if s.len() > 0 && is_white(s[0]) {
        trim_start(s.drop_first())
    } else {
        s
    }
}

/// A text without its trailing white space.
pub open spec fn trim_end(s: Seq<char>) -> Seq<char>
    decreases s.len(),
{
    if s.len() > 0 && is_white(s.last()) {
        trim_end(s.drop_last())
    } else {
        s
    }
}

/// A text without leading and trailing white space (`str::trim`).
pub open spec fn trimmed(s: Seq<char>) -> Seq<char> {
    trim_end(trim_start(s))
}

/// Removes leading and trailing white space.
pub fn trim_text(s: &str) -> (r: String)
    ensures
        r@ == trimmed(s@),
{
    let cs = chars_of(s);
    let n = cs.len();
    let mut a: usize = 0;
    assert(cs@.subrange(0, n as int) =~= cs@);
    while a < n && white(cs[a])
        invariant
            a <= n == cs.len(),
            cs@ == s@,
            trim_start(s@) == trim_start(cs@.subrange(a as int, n as int)),
        decreases n - a,
    {
        assert(cs@.subrange(a as int, n as int).drop_first() =~= cs@.subrange(a + 1, n as int));
        a = a + 1;
    }
    let ghost t = cs@.subrange(a as int, n as int);
    assert(trim_start(t) == t);
    let mut b: usize = n;
    while b > a && white(cs[b - 1])
        invariant
            a <= b <= n == cs.len(),
            cs@ == s@,
            trim_start(s@) == t,
            t == cs@.subrange(a as int, n as int),
            trim_end(t) == trim_end(cs@.subrange(a as int, b as int)),
        decreases b - a,
    {
        assert(cs@.subrange(a as int, b as int).drop_last() =~= cs@.subrange(a as int, b - 1));
        b = b - 1;
    }
    let ghost u = cs@.subrange(a as int, b as int);
    assert(trim_end(u) == u);
    string_of(&cs, a, b)
}

/// The value `u64::from_str` reads from a text: an optional `+`, then at
/// least one ASCII digit and nothing else, with a value that fits.
pub open spec fn u64_text(p: Seq<char>) -> Option<u64> {
    let d = version_digits(p);
    if d.len() > 0 && (forall|i: int| 0 <= i < d.len() ==> is_digit(#[trigger] d[i])) && decimal_value(d)
        <= u64::MAX {
        Some(decimal_value(d) as u64)
    } else {
        None
    }
}

/// The value of a text read as a `u64`, 0 when it does not read as one.
pub open spec fn u64_or_zero(p: Seq<char>) -> u64 {
    match u64_text(p) {
        Some(v) => v,
        None => 0,
    }
}

/// Reads a text as a `u64`, giving 0 when it is not one (`parse().unwrap_or(0)`).
pub fn parse_u64_or_zero(s: &str) -> (r: u64)
    ensures
        r == u64_or_zero(s@),
{
    let cs = chars_of(s);
    let start: usize = if cs.len() > 0 && cs[0] == '+' { 1 } else { 0 };
    let ghost d = version_digits(cs@);
    assert(d =~= cs@.subrange(start as int, cs@.len() as int));
    if start >= cs.len() {
        return 0;
    }
    let mut v: u64 = 0;
    let mut i: usize = start;
    assert(d.subrange(0, 0) =~= Seq::<char>::empty());
    while i < cs.len()
        invariant
            start <= i <= cs.len(),
            cs@ == s@,
            d == cs@.subrange(start as int, cs@.len() as int),
            d == version_digits(cs@),
            d.len() > 0,
            forall|k: int| 0 <= k < i - start ==> is_digit(#[trigger] d[k]),
            v == decimal_value(d.subrange(0, i - start)),
        decreases cs.len() - i,
    {
        let c = cs[i];
        assert(d[i - start] == c);
        if !('0' <= c && c <= '9') {
            assert(!is_digit(d[i - start]));
            return 0;
        }
        let ghost pre = d.subrange(0, i - start + 1);
        assert(pre.drop_last() =~= d.subrange(0, i - start));
        assert(pre.last() == c);
        assert(decimal_value(pre) == decimal_value(pre.drop_last()) * 10 + digit_value(c));
        let next = match v.checked_mul(10) {
            Some(m) => m.checked_add(digit_of(c)),
            None => None,
        };
        match next {
            Some(n) => {
                v = n;
            },
            None => {
                proof {
                    lemma_decimal_value_prefix(d, i - start + 1);
                }
                return 0;
            },
        }
        i = i + 1;
    }
    assert(d.subrange(0, i - start) =~= d);
    v
}

} // verus!
