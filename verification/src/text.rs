use vstd::prelude::*;
use vstd::string::StringSliceAdditionalSpecFns;
use vstd::utf8::*;

verus! {

/// The ASCII letters `a` to `z`.
pub open spec fn is_lower(c: char) -> bool {
    'a' <= c && c <= 'z'
}

/// The ASCII letters `A` to `Z`.
pub open spec fn is_upper(c: char) -> bool {
    'A' <= c && c <= 'Z'
}

/// The ASCII digits `0` to `9`.
pub open spec fn is_digit(c: char) -> bool {
    '0' <= c && c <= '9'
}

/// What may continue an identifier: an ASCII letter, an ASCII digit or `_`.
pub open spec fn is_ident(c: char) -> bool {
    c == '_' || is_lower(c) || is_upper(c) || is_digit(c)
}

/// Whether `c` carries the Unicode property `White_Space`.
pub uninterp spec fn is_space(c: char) -> bool;

/// `char::is_whitespace` decides the `White_Space` property of its argument;
/// the answer depends on the character alone.
pub assume_specification[ char::is_whitespace ](c: char) -> (b: bool)
    ensures
        b == is_space(c),
;

/// Tests for an ASCII lowercase letter.
pub fn is_ascii_lowercase(c: char) -> (b: bool)
    ensures
        b == is_lower(c),
{
    'a' <= c && c <= 'z'
}

/// Tests for an ASCII uppercase letter.
pub fn is_ascii_uppercase(c: char) -> (b: bool)
    ensures
        b == is_upper(c),
{
    'A' <= c && c <= 'Z'
}

/// Tests for an ASCII digit.
pub fn is_ascii_digit(c: char) -> (b: bool)
    ensures
        b == is_digit(c),
{
    '0' <= c && c <= '9'
}

/// Tests for a character that may continue an identifier.
pub fn is_ident_continue(c: char) -> (b: bool)
    ensures
        b == is_ident(c),
{
    c == '_' || is_ascii_lowercase(c) || is_ascii_uppercase(c) || is_ascii_digit(c)
}

/// The sets of characters that the scanner eats in runs.
#[derive(Clone, Copy, Debug)]
pub enum CharClass {
    /// Unicode whitespace.
    Whitespace,
    /// Anything but a line feed.
    LineBody,
    /// The character `_`.
    Underscore,
    /// What may continue an identifier.
    Ident,
    /// An ASCII digit.
    Digit,
}

impl CharClass {
    /// Whether `c` belongs to the class.
    pub open spec fn holds(self, c: char) -> bool {
        match self {
            CharClass::Whitespace => is_space(c),
            CharClass::LineBody => c != '\n',
            CharClass::Underscore => c == '_',
            CharClass::Ident => is_ident(c),
            CharClass::Digit => is_digit(c),
        }
    }

    /// Tests whether `c` belongs to the class.
    pub fn test(self, c: char) -> (b: bool)
        ensures
            b == self.holds(c),
    {
        match self {
            CharClass::Whitespace => c.is_whitespace(),
            CharClass::LineBody => c != '\n',
            CharClass::Underscore => c == '_',
            CharClass::Ident => is_ident_continue(c),
            CharClass::Digit => is_ascii_digit(c),
        }
    }
}

/// Number of bytes that `c` takes in UTF-8.
pub open spec fn utf8_width(c: char) -> nat {
    if (c as u32) < 0x80 {
        1
    } else if (c as u32) < 0x800 {
        2
    } else if (c as u32) < 0x10000 {
        3
    } else {
        4
    }
}

/// Number of bytes that `c` takes in UTF-8.
pub fn char_width(c: char) -> (n: usize)
    ensures
        n == utf8_width(c),
        1 <= n <= 4,
{
    let u: u32 = c as u32;
    if u < 0x80 {
        1
    } else if u < 0x800 {
        2
    } else if u < 0x10000 {
        3
    } else {
        4
    }
}

/// Number of bytes that `s` takes in UTF-8.
pub open spec fn byte_len(s: Seq<char>) -> nat {
    encode_utf8(s).len()
}

/// The encoding of two texts in a row is the encoding of the one, then that
/// of the other.
pub proof fn lemma_encode_concat(a: Seq<char>, b: Seq<char>)
    ensures
        encode_utf8(a + b) == encode_utf8(a) + encode_utf8(b),
    decreases a.len(),
{
    if a.len() == 0 {
        assert(a + b =~= b);
        assert(encode_utf8(a) + encode_utf8(b) =~= encode_utf8(b));
    } else {
        lemma_encode_concat(a.drop_first(), b);
        assert((a + b).drop_first() =~= a.drop_first() + b);
        assert(encode_utf8(a + b) =~= encode_utf8(a) + encode_utf8(b));
    }
}

/// A text of one character takes the bytes of that character.
pub proof fn lemma_byte_len_one(c: char)
    ensures
        byte_len(seq![c]) == utf8_width(c),
{
    char_is_scalar(c);
    let s = seq![c];
    assert(s.drop_first() =~= Seq::<char>::empty());
    reveal_with_fuel(encode_utf8, 2);
    assert(encode_utf8(s) =~= encode_scalar(c as u32));
}

/// Byte lengths add up.
pub proof fn lemma_byte_len_concat(a: Seq<char>, b: Seq<char>)
    ensures
        byte_len(a + b) == byte_len(a) + byte_len(b),
{
    lemma_encode_concat(a, b);
}

/// Cutting a range of characters in two adds their byte lengths.
pub proof fn lemma_byte_len_split(s: Seq<char>, i: int, j: int, k: int)
    requires
        0 <= i <= j <= k <= s.len(),
    ensures
        byte_len(s.subrange(i, k)) == byte_len(s.subrange(i, j)) + byte_len(s.subrange(j, k)),
{
    assert(s.subrange(i, k) =~= s.subrange(i, j) + s.subrange(j, k));
    lemma_byte_len_concat(s.subrange(i, j), s.subrange(j, k));
}

/// One character more in a range adds the bytes of that character.
pub proof fn lemma_byte_len_step(s: Seq<char>, i: int, j: int)
    requires
        0 <= i <= j < s.len(),
    ensures
        byte_len(s.subrange(i, j + 1)) == byte_len(s.subrange(i, j)) + utf8_width(s[j]),
{
    lemma_byte_len_split(s, i, j, j + 1);
    assert(s.subrange(j, j + 1) =~= seq![s[j]]);
    lemma_byte_len_one(s[j]);
}

/// The encoding of a prefix of `s` is a prefix of the encoding of `s`, and it
/// ends at a character boundary.
pub proof fn lemma_encode_prefix(s: Seq<char>, c: int)
    requires
        0 <= c <= s.len(),
    ensures
        byte_len(s.subrange(0, c)) <= byte_len(s),
        encode_utf8(s).subrange(0, byte_len(s.subrange(0, c)) as int) == encode_utf8(
            s.subrange(0, c),
        ),
        encode_utf8(s).subrange(byte_len(s.subrange(0, c)) as int, byte_len(s) as int)
            == encode_utf8(s.subrange(c, s.len() as int)),
        is_char_boundary(encode_utf8(s), byte_len(s.subrange(0, c)) as int),
{
    let head = s.subrange(0, c);
    let tail = s.subrange(c, s.len() as int);
    assert(s =~= head + tail);
    lemma_encode_concat(head, tail);
    let bytes = encode_utf8(s);
    let b = byte_len(head) as int;
    assert(bytes.subrange(0, b) =~= encode_utf8(head));
    assert(bytes.subrange(b, bytes.len() as int) =~= encode_utf8(tail));
    lemma_boundary(s, c);
}

proof fn lemma_boundary(s: Seq<char>, c: int)
    requires
        0 <= c <= s.len(),
    ensures
        is_char_boundary(encode_utf8(s), byte_len(s.subrange(0, c)) as int),
    decreases c,
{
    let bytes = encode_utf8(s);
    encode_utf8_valid_utf8(s);
    if c == 0 {
        assert(s.subrange(0, 0) =~= Seq::<char>::empty());
    } else {
        let rest = s.drop_first();
        encode_utf8_first_scalar(s);
        assert(pop_first_scalar(bytes) =~= encode_utf8(rest));
        lemma_boundary(rest, c - 1);
        let head = s.subrange(0, c);
        assert(head.drop_first() =~= rest.subrange(0, c - 1));
        assert(head[0] == s[0]);
        let first = encode_scalar(s[0] as u32).len();
        assert(byte_len(head) == first + byte_len(rest.subrange(0, c - 1)));
        encode_utf8_valid_utf8(rest);
        char_is_scalar(s[0]);
        assert(first > 0);
        lemma_byte_len_split(s, 0, c, s.len() as int);
        assert(s.subrange(0, s.len() as int) =~= s);
    }
}

/// Cuts `s` in two behind its first `c` characters, which take `at` bytes.
pub(crate) fn split_chars<'a>(s: &'a str, at: usize, Ghost(c): Ghost<int>) -> (parts: (&'a str, &'a str))
    requires
        0 <= c <= s@.len(),
        at == byte_len(s@.subrange(0, c)),
    ensures
        parts.0@ == s@.subrange(0, c),
        parts.1@ == s@.subrange(c, s@.len() as int),
{
    proof {
        lemma_encode_prefix(s@, c);
        encode_utf8_valid_utf8(s@);
    }
    let parts = s.split_at(at);
    proof {
        encode_utf8_decode_utf8(parts.0@);
        encode_utf8_decode_utf8(parts.1@);
        encode_utf8_decode_utf8(s@.subrange(0, c));
        encode_utf8_decode_utf8(s@.subrange(c, s@.len() as int));
    }
    parts
}

} // verus!
