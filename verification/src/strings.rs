use vstd::prelude::*;
use vstd::utf8::*;

verus! {

/// Lexicographic "strictly less" on byte strings, deciding from position `i` on.
pub open spec fn bytes_lt_from(a: Seq<u8>, b: Seq<u8>, i: int) -> bool
    decreases a.len() - i,
{
    if i < 0 || i >= a.len() {
        0 <= i < b.len()
    } else if i >= b.len() {
        false
    } else if a[i] != b[i] {
        a[i] < b[i]
    } else {
        bytes_lt_from(a, b, i + 1)
    }
}

/// Lexicographic "strictly less" on byte strings (the order of `[u8]`).
pub open spec fn bytes_lt(a: Seq<u8>, b: Seq<u8>) -> bool {
    bytes_lt_from(a, b, 0)
}

/// The order of Rust's `String`: lexicographic on the UTF-8 bytes.
pub open spec fn text_lt(a: Seq<char>, b: Seq<char>) -> bool {
    bytes_lt(encode_utf8(a), encode_utf8(b))
}

/// `a` sorts no later than `b`.
pub open spec fn text_le(a: Seq<char>, b: Seq<char>) -> bool {
    !text_lt(b, a)
}

proof fn lemma_bytes_lt_from_trans(a: Seq<u8>, b: Seq<u8>, c: Seq<u8>, i: int)
    requires
        0 <= i,
        bytes_lt_from(a, b, i),
        bytes_lt_from(b, c, i),
    ensures
        bytes_lt_from(a, c, i),
    decreases a.len() - i,
{
    if i < a.len() && i < b.len() && i < c.len() && a[i] == b[i] && b[i] == c[i] {
        lemma_bytes_lt_from_trans(a, b, c, i + 1);
    }
}

proof fn lemma_bytes_lt_from_total(a: Seq<u8>, b: Seq<u8>, i: int)
    requires
        0 <= i <= a.len(),
        0 <= i <= b.len(),
        a.subrange(0, i) == b.subrange(0, i),
        !bytes_lt_from(a, b, i),
        !bytes_lt_from(b, a, i),
    ensures
        a == b,
    decreases a.len() - i,
{
    if i < a.len() && i < b.len() {
        assert(a.subrange(0, i + 1) =~= a.subrange(0, i).push(a[i]));
        assert(b.subrange(0, i + 1) =~= b.subrange(0, i).push(b[i]));
        lemma_bytes_lt_from_total(a, b, i + 1);
    } else {
        assert(a =~= a.subrange(0, i));
        assert(b =~= b.subrange(0, i));
    }
}

proof fn lemma_bytes_lt_from_irrefl(a: Seq<u8>, i: int)
    requires
        0 <= i,
    ensures
        !bytes_lt_from(a, a, i),
    decreases a.len() - i,
{
    if i < a.len() {
        lemma_bytes_lt_from_irrefl(a, i + 1);
    }
}

/// The byte order is a strict total order: of two different byte strings,
/// exactly one sorts before the other.
pub proof fn lemma_bytes_lt_trichotomy(a: Seq<u8>, b: Seq<u8>)
    ensures
        a == b ==> !bytes_lt(a, b),
        a != b ==> (bytes_lt(a, b) != bytes_lt(b, a)),
{
    lemma_bytes_lt_from_irrefl(a, 0);
    if a != b {
        if bytes_lt(a, b) && bytes_lt(b, a) {
            lemma_bytes_lt_from_trans(a, b, a, 0);
            lemma_bytes_lt_from_irrefl(a, 0);
        }
        if !bytes_lt(a, b) && !bytes_lt(b, a) {
            assert(a.subrange(0, 0) =~= b.subrange(0, 0));
            lemma_bytes_lt_from_total(a, b, 0);
        }
    }
}

/// The text order is transitive.
pub proof fn lemma_text_lt_trans(a: Seq<char>, b: Seq<char>, c: Seq<char>)
    requires
        text_lt(a, b),
        text_lt(b, c),
    ensures
        text_lt(a, c),
{
    lemma_bytes_lt_from_trans(encode_utf8(a), encode_utf8(b), encode_utf8(c), 0);
}

/// The text order is irreflexive.
pub proof fn lemma_text_lt_irrefl(a: Seq<char>)
    ensures
        !text_lt(a, a),
{
    lemma_bytes_lt_from_irrefl(encode_utf8(a), 0);
}

/// The text order is total: two texts neither of which sorts before the other are equal.
pub proof fn lemma_text_lt_total(a: Seq<char>, b: Seq<char>)
    requires
        !text_lt(a, b),
        !text_lt(b, a),
    ensures
        a == b,
{
    let ea = encode_utf8(a);
    let eb = encode_utf8(b);
    assert(ea.subrange(0, 0) =~= eb.subrange(0, 0));
    lemma_bytes_lt_from_total(ea, eb, 0);
    encode_utf8_decode_utf8(a);
    encode_utf8_decode_utf8(b);
}

/// `text_le` is transitive.
pub proof fn lemma_text_le_trans(a: Seq<char>, b: Seq<char>, c: Seq<char>)
    requires
        text_le(a, b),
        text_le(b, c),
    ensures
        text_le(a, c),
{
    if text_lt(c, a) {
        if text_lt(b, a) {
        } else if text_lt(a, b) {
            lemma_text_lt_trans(c, a, b);
        } else {
            lemma_text_lt_total(a, b);
        }
    }
}

/// `text_le` is total.
pub proof fn lemma_text_le_total(a: Seq<char>, b: Seq<char>)
    ensures
        text_le(a, b) || text_le(b, a),
{
    if text_lt(b, a) && text_lt(a, b) {
        lemma_text_lt_trans(a, b, a);
        lemma_text_lt_irrefl(a);
    }
}

/// Compares two byte strings lexicographically: true when `a` sorts strictly before `b`.
pub fn bytes_less(a: &[u8], b: &[u8]) -> (r: bool)
    ensures
        r == bytes_lt(a@, b@),
{
    let mut i: usize = 0;
    while i < a.len() && i < b.len() && a[i] == b[i]
        invariant
            i <= a.len(),
            i <= b.len(),
            bytes_lt(a@, b@) == bytes_lt_from(a@, b@, i as int),
        decreases a.len() - i,
    {
        i = i + 1;
    }
    if i < a.len() && i < b.len() {
        a[i] < b[i]
    } else {
        i < b.len()
    }
}

/// True when text `a` sorts strictly before text `b` in `String` order.
pub fn text_less(a: &str, b: &str) -> (r: bool)
    ensures
        r == text_lt(a@, b@),
{
    bytes_less(a.as_bytes(), b.as_bytes())
}

/// Equality of two texts, decided on their bytes.
pub fn text_eq(a: &str, b: &str) -> (r: bool)
    ensures
        r == (a@ == b@),
{
    let lt = text_less(a, b);
    let gt = text_less(b, a);
    proof {
        if a@ == b@ {
            lemma_text_lt_irrefl(a@);
        } else if !lt && !gt {
            lemma_text_lt_total(a@, b@);
        }
    }
    !lt && !gt
}

} // verus!

verus! {

/// Appends a character with `String::push`. Claims: the text is the old one
/// with the character at its end.
#[verifier::external_body]
pub(crate) fn push_char(s: &mut String, c: char)
    ensures
        final(s)@ == old(s)@.push(c),
{
    s.push(c)
}

/// Appends a text: the text is the old one followed by `t`.
pub(crate) fn push_str(s: &mut String, t: &str)
    ensures
        final(s)@ == old(s)@ + t@,
{
    s.append(t)
}

/// The character of a decimal digit.
pub open spec fn digit_char(d: nat) -> char {
    if d == 0 { '0' } else if d == 1 { '1' } else if d == 2 { '2' } else if d == 3 { '3' } else if d == 4 { '4' }
    else if d == 5 { '5' } else if d == 6 { '6' } else if d == 7 { '7' } else if d == 8 { '8' } else { '9' }
}

/// The value of a decimal digit character (0 for any other character).
pub open spec fn digit_value(c: char) -> nat {
    if c == '1' { 1 } else if c == '2' { 2 } else if c == '3' { 3 } else if c == '4' { 4 } else if c == '5' { 5 }
    else if c == '6' { 6 } else if c == '7' { 7 } else if c == '8' { 8 } else if c == '9' { 9 } else { 0 }
}

/// `n` written in decimal, without leading zeros.
pub open spec fn decimal(n: nat) -> Seq<char>
    decreases n,
{
    if n < 10 {
        seq![digit_char(n)]
    } else {
        decimal(n / 10).push(digit_char(n % 10))
    }
}

/// The number a string of decimal digits denotes.
pub open spec fn decimal_value(s: Seq<char>) -> nat
    decreases s.len(),
{
    if s.len() == 0 {
        0
    } else {
        decimal_value(s.drop_last()) * 10 + digit_value(s.last())
    }
}

/// Reading back a number written in decimal gives the number; so two
/// numbers with the same decimal text are equal.
pub proof fn lemma_decimal_value(n: nat)
    ensures
        decimal_value(decimal(n)) == n,
        decimal(n).len() >= 1,
    decreases n,
{
    let d = n % 10;
    assert(digit_value(digit_char(d)) == d);
    if n >= 10 {
        lemma_decimal_value(n / 10);
        assert(decimal(n).drop_last() =~= decimal(n / 10));
        assert(decimal(n).last() == digit_char(d));
        assert((n / 10) * 10 + d == n);
    } else {
        assert(decimal(n).drop_last() =~= Seq::<char>::empty());
        assert(decimal_value(Seq::<char>::empty()) == 0);
    }
}

fn digit(d: u64) -> (c: char)
    requires
        d < 10,
    ensures
        c == digit_char(d as nat),
{
    if d == 0 { '0' } else if d == 1 { '1' } else if d == 2 { '2' } else if d == 3 { '3' } else if d == 4 { '4' }
    else if d == 5 { '5' } else if d == 6 { '6' } else if d == 7 { '7' } else if d == 8 { '8' } else { '9' }
}

/// Appends `n` in decimal.
pub fn push_decimal(s: &mut String, n: u64)
    ensures
        final(s)@ == old(s)@ + decimal(n as nat),
    decreases n,
{
    if n >= 10 {
        push_decimal(s, n / 10);
    }
    push_char(s, digit(n % 10));
    assert(final(s)@ =~= old(s)@ + decimal(n as nat)) by {
        if n >= 10 {
            assert(decimal(n as nat) == decimal((n / 10) as nat).push(digit_char((n % 10) as nat)));
        }
    }
}

} // verus!
