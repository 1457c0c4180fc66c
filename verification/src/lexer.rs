use crate::text::{
    byte_len, char_width, is_ascii_digit, is_ascii_lowercase, is_ascii_uppercase, is_digit,
    is_ident, is_ident_continue, is_lower, is_space, is_upper, lemma_byte_len_split,
    lemma_byte_len_step, CharClass,
};
use vstd::std_specs::iter::IteratorSpec;
use vstd::string::{StrSliceExecFns, StringSliceAdditionalSpecFns};
use vstd::prelude::*;

verus! {

/// One raw token: its kind and the number of bytes it covers.
#[derive(Debug)]
pub struct Token {
    pub kind: TokenKind,
    pub len: usize,
}

#[derive(Debug)]
pub enum TokenKind {
    /// One or more whitespace characters
    Whitespace,
    /// `// comment` or `# comment`
    LineComment,
    /// `/* comment */`
    BlockComment { terminated: bool },
    /// `foo`
    Functor,
    /// `Foo`
    Variable,
    /// `_`
    Wildcard,
    /// `42`
    Integer,
    /// `42.0` or `42e-3`
    Float,
    /// `"foo\n"`
    String { terminated: bool },
    /// `true`
    True,
    /// `false`
    False,
    /// `if`
    If,
    /// `else`
    Else,
    /// `while`
    While,
    /// `for`
    For,
    /// `include`
    Include,
    /// `begin`
    Begin,
    /// `end`
    End,
    /// `(`
    OpenParen,
    /// `)`
    CloseParen,
    /// `[`
    OpenBracket,
    /// `]`
    CloseBracket,
    /// `{`
    OpenBrace,
    /// `}`
    CloseBrace,
    /// `<-`
    Arrow,
    /// `:-`
    Define,
    /// `:`,
    Colon,
    /// `|&|`
    ForkJoinAnd,
    /// `|||`
    ForkJoinXor,
    /// `!!`
    BangBang,
    /// `!`,
    Bang,
    /// `?`
    Question,
    /// `-+`
    MinusPlus,
    /// `not`
    Not,
    /// `+`
    Plus,
    /// `-`
    Minus,
    /// `/`
    Slash,
    /// `div`
    Div,
    /// `mod`
    Mod,
    /// `**`
    Pow,
    /// `*`
    Star,
    /// `&`
    And,
    /// `|`
    Or,
    /// `<=`
    LtEq,
    /// `>=`
    GtEq,
    /// `\==`
    NotEqual,
    /// `==`
    Equal,
    /// `=..`
    Decompose,
    /// `=`
    Eq,
    /// `<`
    Lt,
    /// `>`
    Gt,
    /// `;`
    Semi,
    /// `,`
    Comma,
    /// `.`
    Dot,
    /// `@`
    At,
    /// A character that starts no token
    Unknown,
}

/// The character at index `i` of `s`, or NUL past the end.
pub open spec fn char_at(s: Seq<char>, i: int) -> char {
    if 0 <= i < s.len() {
        s[i]
    } else {
        '\0'
    }
}

/// Length of the longest run of characters from index `i` that all belong to `p`.
pub open spec fn run_len(s: Seq<char>, i: int, p: CharClass) -> nat
    decreases s.len() - i,
{
    if 0 <= i < s.len() && p.holds(s[i]) {
        1 + run_len(s, i + 1, p)
    } else {
        0
    }
}

/// Whether the characters of `w` stand in `s` from index `i` on.
pub open spec fn starts_with(s: Seq<char>, i: int, w: Seq<char>) -> bool {
    0 <= i && i + w.len() <= s.len() && s.subrange(i, i + w.len()) == w
}

/// Whether `w` stands at index `i` and ends the identifier run there: a
/// reserved word is recognised only where no identifier character follows it.
pub open spec fn word_at(s: Seq<char>, i: int, w: Seq<char>) -> bool {
    starts_with(s, i, w) && !is_ident(char_at(s, i + w.len()))
}

/// What a scan from some index found: the kind and the number of characters taken.
pub struct Scan {
    pub kind: TokenKind,
    pub chars: nat,
}

/// From index `i`, just behind the opening `/*`: the number of characters up to
/// and including the first `*/`, or up to the end where there is none.
pub open spec fn block_comment_len(s: Seq<char>, i: int) -> Scan
    decreases s.len() - i,
{
    if 0 <= i < s.len() {
        if s[i] == '*' && char_at(s, i + 1) == '/' {
            Scan { kind: TokenKind::BlockComment { terminated: true }, chars: 2 }
        } else {
            let rest = block_comment_len(s, i + 1);
            Scan { kind: rest.kind, chars: 1 + rest.chars }
        }
    } else {
        Scan { kind: TokenKind::BlockComment { terminated: false }, chars: 0 }
    }
}

/// From index `i`, behind the opening quote: the characters of a string body.
/// A backslash escapes whatever follows it; an unescaped quote closes the
/// string; an unescaped newline ends it unclosed and is part of the token.
pub open spec fn string_len(s: Seq<char>, i: int, escaped: bool) -> Scan
    decreases s.len() - i,
{
    if 0 <= i < s.len() {
        if escaped {
            let rest = string_len(s, i + 1, false);
            Scan { kind: rest.kind, chars: 1 + rest.chars }
        } else if s[i] == '\n' {
            Scan { kind: TokenKind::String { terminated: false }, chars: 1 }
        } else if s[i] == '"' {
            Scan { kind: TokenKind::String { terminated: true }, chars: 1 }
        } else {
            let rest = string_len(s, i + 1, s[i] == '\\');
            Scan { kind: rest.kind, chars: 1 + rest.chars }
        }
    } else {
        Scan { kind: TokenKind::String { terminated: false }, chars: 0 }
    }
}

/// From index `i`: an identifier run, continued over each `.` that a
/// lowercase letter follows.
pub open spec fn functor_len(s: Seq<char>, i: int) -> nat
    decreases s.len() - i,
{
    let n = run_len(s, i, CharClass::Ident);
    if 0 <= i && i + n < s.len() && s[i + n] == '.' && is_lower(char_at(s, i + n + 1)) {
        n + 2 + functor_len(s, i + n + 2)
    } else {
        n
    }
}

/// From index `i`, behind the digits of the integer part: an exponent, where
/// `e` or `E`, an optional sign and a digit follow.
pub open spec fn exponent_len(s: Seq<char>, i: int) -> nat {
    let e = char_at(s, i);
    let sign = char_at(s, i + 1);
    if (e == 'e' || e == 'E') && (sign == '+' || sign == '-') && is_digit(char_at(s, i + 2)) {
        3 + run_len(s, i + 3, CharClass::Digit)
    } else if (e == 'e' || e == 'E') && is_digit(sign) {
        2 + run_len(s, i + 2, CharClass::Digit)
    } else {
        0
    }
}

/// From index `i`, behind the first digit: the rest of a number. A fraction
/// needs a digit behind its `.`.
pub open spec fn number_len(s: Seq<char>, i: int) -> Scan {
    let int_part = run_len(s, i, CharClass::Digit);
    let frac = if char_at(s, i + int_part) == '.' && is_digit(char_at(s, i + int_part + 1)) {
        2 + run_len(s, i + int_part + 2, CharClass::Digit)
    } else {
        0
    };
    let exp = exponent_len(s, i + int_part + frac);
    Scan {
        kind: if frac > 0 || exp > 0 {
            TokenKind::Float
        } else {
            TokenKind::Integer
        },
        chars: int_part + frac + exp,
    }
}

/// The token behind the first character, which stands at index `i`: its kind
/// and the number of characters that follow the first.
pub open spec fn scan_behind(s: Seq<char>, i: int) -> Scan {
    let c = s[i];
    let j = i + 1;
    let c1 = char_at(s, j);
    let c2 = char_at(s, j + 1);
    if is_space(c) {
        Scan { kind: TokenKind::Whitespace, chars: run_len(s, j, CharClass::Whitespace) }
    } else if c == '/' {
        if c1 == '/' {
            Scan { kind: TokenKind::LineComment, chars: run_len(s, j, CharClass::LineBody) }
        } else if c1 == '*' {
            let body = block_comment_len(s, j + 1);
            Scan { kind: body.kind, chars: 1 + body.chars }
        } else {
            Scan { kind: TokenKind::Slash, chars: 0 }
        }
    } else if c == '#' {
        Scan { kind: TokenKind::LineComment, chars: run_len(s, j, CharClass::LineBody) }
    } else if c == '"' {
        string_len(s, j, false)
    } else if c == '(' {
        Scan { kind: TokenKind::OpenParen, chars: 0 }
    } else if c == ')' {
        Scan { kind: TokenKind::CloseParen, chars: 0 }
    } else if c == '[' {
        Scan { kind: TokenKind::OpenBracket, chars: 0 }
    } else if c == ']' {
        Scan { kind: TokenKind::CloseBracket, chars: 0 }
    } else if c == '{' {
        Scan { kind: TokenKind::OpenBrace, chars: 0 }
    } else if c == '}' {
        Scan { kind: TokenKind::CloseBrace, chars: 0 }
    } else if c == '!' {
        if c1 == '!' {
            Scan { kind: TokenKind::BangBang, chars: 1 }
        } else {
            Scan { kind: TokenKind::Bang, chars: 0 }
        }
    } else if c == '?' {
        Scan { kind: TokenKind::Question, chars: 0 }
    } else if c == ':' {
        if c1 == '-' {
            Scan { kind: TokenKind::Define, chars: 1 }
        } else {
            Scan { kind: TokenKind::Colon, chars: 0 }
        }
    } else if c == '<' {
        if c1 == '-' {
            Scan { kind: TokenKind::Arrow, chars: 1 }
        } else if c1 == '=' {
            Scan { kind: TokenKind::LtEq, chars: 1 }
        } else {
            Scan { kind: TokenKind::Lt, chars: 0 }
        }
    } else if c == '>' {
        if c1 == '=' {
            Scan { kind: TokenKind::GtEq, chars: 1 }
        } else {
            Scan { kind: TokenKind::Gt, chars: 0 }
        }
    } else if c == '=' {
        if c1 == '=' {
            Scan { kind: TokenKind::Equal, chars: 1 }
        } else if c1 == '.' && c2 == '.' {
            Scan { kind: TokenKind::Decompose, chars: 2 }
        } else {
            Scan { kind: TokenKind::Eq, chars: 0 }
        }
    } else if c == '*' {
        if c1 == '*' {
            Scan { kind: TokenKind::Pow, chars: 1 }
        } else {
            Scan { kind: TokenKind::Star, chars: 0 }
        }
    } else if c == '-' {
        if c1 == '+' {
            Scan { kind: TokenKind::MinusPlus, chars: 1 }
        } else {
            Scan { kind: TokenKind::Minus, chars: 0 }
        }
    } else if c == '&' {
        Scan { kind: TokenKind::And, chars: 0 }
    } else if c == '|' {
        if c1 == '&' && c2 == '|' {
            Scan { kind: TokenKind::ForkJoinAnd, chars: 2 }
        } else if c1 == '|' && c2 == '|' {
            Scan { kind: TokenKind::ForkJoinXor, chars: 2 }
        } else {
            Scan { kind: TokenKind::Or, chars: 0 }
        }
    } else if c == '+' {
        Scan { kind: TokenKind::Plus, chars: 0 }
    } else if c == '.' {
        if is_lower(c1) {
            Scan { kind: TokenKind::Functor, chars: 1 + functor_len(s, j + 1) }
        } else {
            Scan { kind: TokenKind::Dot, chars: 0 }
        }
    } else if c == ',' {
        Scan { kind: TokenKind::Comma, chars: 0 }
    } else if c == ';' {
        Scan { kind: TokenKind::Semi, chars: 0 }
    } else if c == '@' {
        Scan { kind: TokenKind::At, chars: 0 }
    } else if c == '\\' && starts_with(s, j, "=="@) {
        Scan { kind: TokenKind::NotEqual, chars: "=="@.len() }
    } else if c == 't' && word_at(s, j, "rue"@) {
        Scan { kind: TokenKind::True, chars: "rue"@.len() }
    } else if c == 'f' && word_at(s, j, "alse"@) {
        Scan { kind: TokenKind::False, chars: "alse"@.len() }
    } else if c == 'i' && word_at(s, j, "f"@) {
        Scan { kind: TokenKind::If, chars: "f"@.len() }
    } else if c == 'e' && word_at(s, j, "lse"@) {
        Scan { kind: TokenKind::Else, chars: "lse"@.len() }
    } else if c == 'w' && word_at(s, j, "hile"@) {
        Scan { kind: TokenKind::While, chars: "hile"@.len() }
    } else if c == 'f' && word_at(s, j, "or"@) {
        Scan { kind: TokenKind::For, chars: "or"@.len() }
    } else if c == 'i' && word_at(s, j, "nclude"@) {
        Scan { kind: TokenKind::Include, chars: "nclude"@.len() }
    } else if c == 'b' && word_at(s, j, "egin"@) {
        Scan { kind: TokenKind::Begin, chars: "egin"@.len() }
    } else if c == 'e' && word_at(s, j, "nd"@) {
        Scan { kind: TokenKind::End, chars: "nd"@.len() }
    } else if c == 'n' && word_at(s, j, "ot"@) {
        Scan { kind: TokenKind::Not, chars: "ot"@.len() }
    } else if c == 'd' && word_at(s, j, "iv"@) {
        Scan { kind: TokenKind::Div, chars: "iv"@.len() }
    } else if c == 'm' && word_at(s, j, "od"@) {
        Scan { kind: TokenKind::Mod, chars: "od"@.len() }
    } else if is_upper(c) {
        Scan { kind: TokenKind::Variable, chars: run_len(s, j, CharClass::Ident) }
    } else if is_lower(c) {
        Scan { kind: TokenKind::Functor, chars: functor_len(s, j) }
    } else if is_digit(c) {
        number_len(s, j)
    } else if c == '_' {
        let run = run_len(s, j, CharClass::Underscore);
        if is_upper(char_at(s, j + run)) {
            Scan {
                kind: TokenKind::Variable,
                chars: run + 1 + run_len(s, j + run + 1, CharClass::Ident),
            }
        } else {
            Scan { kind: TokenKind::Wildcard, chars: run }
        }
    } else {
        Scan { kind: TokenKind::Unknown, chars: 0 }
    }
}

/// The token that starts at index `i` of `s`: its kind and the number of
/// characters it takes, the first included. Every token takes at least one.
pub open spec fn scan_token(s: Seq<char>, i: int) -> Scan
    recommends
        0 <= i < s.len(),
{
    let behind = scan_behind(s, i);
    Scan { kind: behind.kind, chars: 1 + behind.chars }
}

/// The token that starts at index `i`, with its length in bytes.
pub open spec fn token_at(s: Seq<char>, i: int) -> Token
    recommends
        0 <= i < s.len(),
{
    let scan = scan_token(s, i);
    Token { kind: scan.kind, len: byte_len(s.subrange(i, i + scan.chars)) as usize }
}

/// Number of characters of `s` from index `i` on.
pub open spec fn left(s: Seq<char>, i: int) -> nat {
    if 0 <= i < s.len() {
        (s.len() - i) as nat
    } else {
        0
    }
}

/// The tokens of `s` from index `i` to its end.
pub open spec fn tokens_from(s: Seq<char>, i: int) -> Seq<Token>
    decreases left(s, i),
{
    if 0 <= i < s.len() {
        seq![token_at(s, i)] + tokens_from(s, i + scan_token(s, i).chars)
    } else {
        Seq::empty()
    }
}

/// The tokens of `s`, left to right.
pub open spec fn tokens_of(s: Seq<char>) -> Seq<Token> {
    tokens_from(s, 0)
}

/// A position in a source text, with a count of the bytes passed since the
/// count was last reset.
pub struct Cursor {
    chars: Vec<char>,
    pos: usize,
    len_remaining: usize,
    initial_len: usize,
}

impl Cursor {
    /// The characters of the whole source text.
    pub closed spec fn source(&self) -> Seq<char> {
        self.chars@
    }

    /// Index of the next character.
    pub closed spec fn offset(&self) -> int {
        self.pos as int
    }

    /// Bytes passed since the last reset.
    pub closed spec fn consumed(&self) -> nat {
        (self.initial_len - self.len_remaining) as nat
    }

    /// The cursor stands in its text, and its byte counts are those of the
    /// characters around it.
    pub closed spec fn wf(&self) -> bool {
        &&& self.pos <= self.chars.len()
        &&& self.len_remaining == byte_len(self.chars@.subrange(self.pos as int, self.chars.len() as int))
        &&& self.len_remaining <= self.initial_len
    }

    /// The cursor stands `n` characters behind `pre` in the same text, and has
    /// counted the bytes of those characters.
    pub open spec fn moved(&self, pre: Cursor, n: nat) -> bool {
        &&& self.wf()
        &&& self.source() == pre.source()
        &&& self.offset() == pre.offset() + n
        &&& self.offset() <= self.source().len()
        &&& self.consumed() == pre.consumed() + byte_len(
            self.source().subrange(pre.offset(), self.offset()),
        )
    }

    /// A cursor on the first character of `input`.
    pub fn new(input: &str) -> (c: Cursor)
        ensures
            c.wf(),
            c.source() == input@,
            c.offset() == 0,
            c.consumed() == 0,
    {
        let mut chars: Vec<char> = Vec::new();
        let mut iter = input.chars();
        loop
            invariant
                chars@ + iter.remaining() == input@,
            ensures
                chars@ == input@,
            decreases input@.len() - chars@.len(),
        {
            broadcast use vstd::string::next_postcondition;

            match iter.next() {
                Some(c) => {
                    chars.push(c);
                },
                None => {
                    break ;
                },
            }
        }
        assert(chars@ == input@);
        let len: usize = input.as_bytes().len();
        assert(chars@.subrange(0, chars.len() as int) == chars@);
        Cursor { chars, pos: 0, len_remaining: len, initial_len: len }
    }

    /// Whether no character is left.
    pub fn is_eof(&self) -> (b: bool)
        requires
            self.wf(),
        ensures
            b == (self.offset() == self.source().len()),
    {
        self.pos == self.chars.len()
    }

    /// Starts the byte count anew.
    pub fn reset_len_consumed(&mut self)
        requires
            old(self).wf(),
        ensures
            final(self).wf(),
            final(self).source() == old(self).source(),
            final(self).offset() == old(self).offset(),
            final(self).consumed() == 0,
    {
        self.initial_len = self.len_remaining;
    }

    /// Number of bytes passed since the count was last reset.
    pub fn len_consumed(&self) -> (n: usize)
        requires
            self.wf(),
        ensures
            n == self.consumed(),
    {
        self.initial_len - self.len_remaining
    }

    /// Two moves in a row make one.
    pub proof fn lemma_moved_twice(&self, mid: Cursor, pre: Cursor, n: nat, m: nat)
        requires
            mid.moved(pre, n),
            self.moved(mid, m),
        ensures
            self.moved(pre, n + m),
    {
        lemma_byte_len_split(
            self.source(),
            pre.offset(),
            mid.offset(),
            self.offset(),
        );
    }

    /// A cursor has not moved from where it stands.
    pub proof fn lemma_moved_none(&self)
        requires
            self.wf(),
        ensures
            self.moved(*self, 0),
    {
        assert(self.source().subrange(self.offset(), self.offset())
            =~= Seq::<char>::empty());
    }

    /// The character `k` places ahead, or NUL past the end.
    fn peek(&self, k: usize) -> (c: char)
        requires
            self.wf(),
        ensures
            c == char_at(self.source(), self.offset() + k),
    {
        if k < self.chars.len() - self.pos {
            self.chars[self.pos + k]
        } else {
            '\0'
        }
    }

    fn first(&self) -> (c: char)
        requires
            self.wf(),
        ensures
            c == char_at(self.source(), self.offset()),
    {
        self.peek(0)
    }

    fn second(&self) -> (c: char)
        requires
            self.wf(),
        ensures
            c == char_at(self.source(), self.offset() + 1),
    {
        self.peek(1)
    }

    fn third(&self) -> (c: char)
        requires
            self.wf(),
        ensures
            c == char_at(self.source(), self.offset() + 2),
    {
        self.peek(2)
    }

    /// Takes the next character, if there is one.
    fn bump(&mut self) -> (c: Option<char>)
        requires
            old(self).wf(),
        ensures
            old(self).offset() < old(self).source().len() ==> c == Some(
                old(self).source()[old(self).offset()],
            ) && final(self).moved(*old(self), 1),
            old(self).offset() >= old(self).source().len() ==> c.is_none() && final(self).moved(
                *old(self),
                0,
            ),
    {
        if self.pos < self.chars.len() {
            let c = self.chars[self.pos];
            proof {
                let src = self.chars@;
                let p = self.pos as int;
                lemma_byte_len_split(src, p, p + 1, src.len() as int);
                lemma_byte_len_step(src, p, p);
                assert(src.subrange(p, p) =~= Seq::<char>::empty());
            }
            self.len_remaining = self.len_remaining - char_width(c);
            self.pos = self.pos + 1;
            Some(c)
        } else {
            proof {
                self.lemma_moved_none();
            }
            None
        }
    }

    /// Takes the next `n` characters.
    fn skip(&mut self, n: usize)
        requires
            old(self).wf(),
            old(self).offset() + n <= old(self).source().len(),
        ensures
            final(self).moved(*old(self), n as nat),
    {
        let ghost pre = *self;
        let mut k: usize = 0;
        proof {
            self.lemma_moved_none();
        }
        while k < n
            invariant
                k <= n,
                pre.offset() + n <= pre.source().len(),
                self.moved(pre, k as nat),
            decreases n - k,
        {
            let ghost mid = *self;
            self.bump();
            proof {
                self.lemma_moved_twice(mid, pre, k as nat, 1);
            }
            k = k + 1;
        }
    }

    /// Takes the longest run of characters of `class`.
    fn eat_while(&mut self, class: CharClass)
        requires
            old(self).wf(),
        ensures
            final(self).moved(
                *old(self),
                run_len(old(self).source(), old(self).offset(), class),
            ),
    {
        let ghost pre = *self;
        proof {
            self.lemma_moved_none();
        }
        while !self.is_eof() && class.test(self.first())
            invariant
                self.moved(pre, (self.pos - pre.pos) as nat),
                pre.pos <= self.pos,
                run_len(pre.chars@, pre.pos as int, class) == (self.pos - pre.pos) + run_len(
                    pre.chars@,
                    self.pos as int,
                    class,
                ),
            decreases self.chars.len() - self.pos,
        {
            let ghost mid = *self;
            self.bump();
            proof {
                self.lemma_moved_twice(mid, pre, (mid.pos - pre.pos) as nat, 1);
            }
        }
    }

    /// Whether the characters of `s` come next.
    fn starts_with(&self, s: &str) -> (b: bool)
        requires
            self.wf(),
        ensures
            b == starts_with(self.source(), self.offset(), s@),
    {
        let n: usize = s.unicode_len();
        if self.chars.len() - self.pos < n {
            return false;
        }
        let mut k: usize = 0;
        while k < n
            invariant
                k <= n,
                n == s@.len(),
                self.pos + n <= self.chars.len(),
                forall|j: int| 0 <= j < k ==> self.chars@[self.pos + j] == s@[j],
            decreases n - k,
        {
            if self.chars[self.pos + k] != s.get_char(k) {
                assert(self.chars@.subrange(self.pos as int, self.pos + n)[k as int] != s@[k as int]);
                return false;
            }
            k = k + 1;
        }
        assert(self.chars@.subrange(self.pos as int, self.pos + n) =~= s@);
        true
    }

    /// Takes the characters of `s` if they come next, and tells whether they
    /// did.
    fn followed_by(&mut self, s: &str) -> (b: bool)
        requires
            old(self).wf(),
        ensures
            b == starts_with(old(self).source(), old(self).offset(), s@),
            b ==> final(self).moved(*old(self), s@.len()),
            !b ==> final(self).moved(*old(self), 0),
    {
        if self.starts_with(s) {
            self.skip(s.unicode_len());
            true
        } else {
            proof {
                self.lemma_moved_none();
            }
            false
        }
    }

    /// Scans one token. Each call takes the characters of exactly one token,
    /// at least one, and counts their bytes.
    pub fn advance_token(&mut self) -> (token: Token)
        requires
            old(self).wf(),
            old(self).offset() < old(self).source().len(),
        ensures
            token.kind == scan_token(old(self).source(), old(self).offset()).kind,
            final(self).moved(*old(self), scan_token(old(self).source(), old(self).offset()).chars),
            token.len == final(self).consumed(),
    {
        let ghost pre = *self;
        let c = self.bump().unwrap();
        let ghost at = *self;
        proof {
            self.lemma_moved_none();
        }
        let kind = if c.is_whitespace() {
            self.whitespace()
        } else if c == '/' {
            let c1 = self.first();
            if c1 == '/' {
                self.line_comment()
            } else if c1 == '*' {
                self.block_comment()
            } else {
                TokenKind::Slash
            }
        } else if c == '#' {
            self.line_comment()
        } else if c == '"' {
            self.string()
        } else if c == '(' {
            TokenKind::OpenParen
        } else if c == ')' {
            TokenKind::CloseParen
        } else if c == '[' {
            TokenKind::OpenBracket
        } else if c == ']' {
            TokenKind::CloseBracket
        } else if c == '{' {
            TokenKind::OpenBrace
        } else if c == '}' {
            TokenKind::CloseBrace
        } else if c == '!' {
            let c1 = self.first();
            if c1 == '!' {
                self.bump();
                TokenKind::BangBang
            } else {
                TokenKind::Bang
            }
        } else if c == '?' {
            TokenKind::Question
        } else if c == ':' {
            let c1 = self.first();
            if c1 == '-' {
                self.bump();
                TokenKind::Define
            } else {
                TokenKind::Colon
            }
        } else if c == '<' {
            let c1 = self.first();
            if c1 == '-' {
                self.bump();
                TokenKind::Arrow
            }             else if c1 == '=' {
                self.bump();
                TokenKind::LtEq
            } else {
                TokenKind::Lt
            }
        } else if c == '>' {
            let c1 = self.first();
            if c1 == '=' {
                self.bump();
                TokenKind::GtEq
            } else {
                TokenKind::Gt
            }
        } else if c == '=' {
            let c1 = self.first();
            let c2 = self.second();
            if c1 == '=' {
                self.bump();
                TokenKind::Equal
            } else if c1 == '.' && c2 == '.' {
                self.skip(2);
                TokenKind::Decompose
            } else {
                TokenKind::Eq
            }
        } else if c == '*' {
            let c1 = self.first();
            if c1 == '*' {
                self.bump();
                TokenKind::Pow
            } else {
                TokenKind::Star
            }
        } else if c == '-' {
            let c1 = self.first();
            if c1 == '+' {
                self.bump();
                TokenKind::MinusPlus
            } else {
                TokenKind::Minus
            }
        } else if c == '&' {
            TokenKind::And
        } else if c == '|' {
            let c1 = self.first();
            let c2 = self.second();
            if c1 == '&' && c2 == '|' {
                self.skip(2);
                TokenKind::ForkJoinAnd
            } else if c1 == '|' && c2 == '|' {
                self.skip(2);
                TokenKind::ForkJoinXor
            } else {
                TokenKind::Or
            }
        } else if c == '+' {
            TokenKind::Plus
        } else if c == '.' {
            if is_ascii_lowercase(self.first()) {
                self.bump();
                let ghost mid = *self;
                let kind = self.functor();
                proof {
                    self.lemma_moved_twice(mid, at, 1, functor_len(pre.chars@, mid.pos as int));
                }
                kind
            } else {
                TokenKind::Dot
            }
        } else if c == ',' {
            TokenKind::Comma
        } else if c == ';' {
            TokenKind::Semi
        } else if c == '@' {
            TokenKind::At
        } else if c == '\\' && self.followed_by("==") {
            TokenKind::NotEqual
        } else if c == 't' && self.word("rue") {
            TokenKind::True
        } else if c == 'f' && self.word("alse") {
            TokenKind::False
        } else if c == 'i' && self.word("f") {
            TokenKind::If
        } else if c == 'e' && self.word("lse") {
            TokenKind::Else
        } else if c == 'w' && self.word("hile") {
            TokenKind::While
        } else if c == 'f' && self.word("or") {
            TokenKind::For
        } else if c == 'i' && self.word("nclude") {
            TokenKind::Include
        } else if c == 'b' && self.word("egin") {
            TokenKind::Begin
        } else if c == 'e' && self.word("nd") {
            TokenKind::End
        } else if c == 'n' && self.word("ot") {
            TokenKind::Not
        } else if c == 'd' && self.word("iv") {
            TokenKind::Div
        } else if c == 'm' && self.word("od") {
            TokenKind::Mod
        } else if is_ascii_uppercase(c) {
            self.variable()
        } else if is_ascii_lowercase(c) {
            self.functor()
        } else if is_ascii_digit(c) {
            self.number()
        } else if c == '_' {
            self.eat_while(CharClass::Underscore);
            let ghost run_end = *self;
            if is_ascii_uppercase(self.first()) {
                self.bump();
                let ghost mid = *self;
                let kind = self.variable();
                proof {
                    self.lemma_moved_twice(
                        mid,
                        run_end,
                        1,
                        run_len(pre.chars@, mid.pos as int, CharClass::Ident),
                    );
                    self.lemma_moved_twice(
                        run_end,
                        at,
                        run_len(pre.chars@, at.pos as int, CharClass::Underscore),
                        (self.pos - run_end.pos) as nat,
                    );
                }
                kind
            } else {
                TokenKind::Wildcard
            }
        } else {
            TokenKind::Unknown
        };
        proof {
            self.lemma_moved_twice(at, pre, 1, (self.pos - at.pos) as nat);
        }
        Token { kind, len: self.len_consumed() }
    }

    fn line_comment(&mut self) -> (kind: TokenKind)
        requires
            old(self).wf(),
        ensures
            kind == TokenKind::LineComment,
            final(self).moved(
                *old(self),
                run_len(old(self).source(), old(self).offset(), CharClass::LineBody),
            ),
    {
        self.eat_while(CharClass::LineBody);
        TokenKind::LineComment
    }

    fn whitespace(&mut self) -> (kind: TokenKind)
        requires
            old(self).wf(),
        ensures
            kind == TokenKind::Whitespace,
            final(self).moved(
                *old(self),
                run_len(old(self).source(), old(self).offset(), CharClass::Whitespace),
            ),
    {
        self.eat_while(CharClass::Whitespace);
        TokenKind::Whitespace
    }

    fn variable(&mut self) -> (kind: TokenKind)
        requires
            old(self).wf(),
        ensures
            kind == TokenKind::Variable,
            final(self).moved(
                *old(self),
                run_len(old(self).source(), old(self).offset(), CharClass::Ident),
            ),
    {
        self.eat_while(CharClass::Ident);
        TokenKind::Variable
    }

    /// Called behind the `/` of an opening `/*`.
    fn block_comment(&mut self) -> (kind: TokenKind)
        requires
            old(self).wf(),
            old(self).offset() < old(self).source().len(),
        ensures
            kind == block_comment_len(old(self).source(), old(self).offset() + 1).kind,
            final(self).moved(
                *old(self),
                1 + block_comment_len(old(self).source(), old(self).offset() + 1).chars,
            ),
    {
        let ghost pre = *self;
        self.bump();
        let ghost start = *self;
        proof {
            self.lemma_moved_none();
        }
        loop
            invariant
                pre == *old(self),
                start.moved(pre, 1),
                self.moved(start, (self.pos - start.pos) as nat),
                start.pos <= self.pos,
                block_comment_len(start.chars@, start.pos as int).kind == block_comment_len(
                    start.chars@,
                    self.pos as int,
                ).kind,
                block_comment_len(start.chars@, start.pos as int).chars == (self.pos - start.pos)
                    + block_comment_len(start.chars@, self.pos as int).chars,
            decreases self.chars.len() - self.pos,
        {
            let ghost mid = *self;
            match self.bump() {
                Some(ch) => {
                    proof {
                        self.lemma_moved_twice(mid, start, (mid.pos - start.pos) as nat, 1);
                    }
                    if ch == '*' && self.first() == '/' {
                        let ghost star = *self;
                        self.bump();
                        proof {
                            self.lemma_moved_twice(star, start, (star.pos - start.pos) as nat, 1);
                            self.lemma_moved_twice(start, pre, 1, (self.pos - start.pos) as nat);
                        }
                        return TokenKind::BlockComment { terminated: true };
                    }
                },
                None => {
                    proof {
                        self.lemma_moved_twice(start, pre, 1, (self.pos - start.pos) as nat);
                    }
                    return TokenKind::BlockComment { terminated: false };
                },
            }
        }
    }

    /// Called behind the opening quote.
    fn string(&mut self) -> (kind: TokenKind)
        requires
            old(self).wf(),
        ensures
            kind == string_len(old(self).source(), old(self).offset(), false).kind,
            final(self).moved(
                *old(self),
                string_len(old(self).source(), old(self).offset(), false).chars,
            ),
    {
        let ghost pre = *self;
        let mut escaped = false;
        proof {
            self.lemma_moved_none();
        }
        loop
            invariant
                pre == *old(self),
                self.moved(pre, (self.pos - pre.pos) as nat),
                pre.pos <= self.pos,
                string_len(pre.chars@, pre.pos as int, false).kind == string_len(
                    pre.chars@,
                    self.pos as int,
                    escaped,
                ).kind,
                string_len(pre.chars@, pre.pos as int, false).chars == (self.pos - pre.pos)
                    + string_len(pre.chars@, self.pos as int, escaped).chars,
            decreases self.chars.len() - self.pos,
        {
            let ghost mid = *self;
            match self.bump() {
                Some(ch) => {
                    proof {
                        self.lemma_moved_twice(mid, pre, (mid.pos - pre.pos) as nat, 1);
                    }
                    if escaped {
                        escaped = false;
                    } else if ch == '\n' {
                        return TokenKind::String { terminated: false };
                    } else if ch == '\\' {
                        escaped = true;
                    } else if ch == '"' {
                        return TokenKind::String { terminated: true };
                    }
                },
                None => {
                    return TokenKind::String { terminated: false };
                },
            }
        }
    }

    /// The rest of a functor: identifier runs, joined by each `.` that a
    /// lowercase letter follows.
    fn functor(&mut self) -> (kind: TokenKind)
        requires
            old(self).wf(),
        ensures
            kind == TokenKind::Functor,
            final(self).moved(*old(self), functor_len(old(self).source(), old(self).offset())),
    {
        let ghost pre = *self;
        proof {
            self.lemma_moved_none();
        }
        loop
            invariant
                pre == *old(self),
                self.moved(pre, (self.pos - pre.pos) as nat),
                pre.pos <= self.pos,
                functor_len(pre.chars@, pre.pos as int) == (self.pos - pre.pos) + functor_len(
                    pre.chars@,
                    self.pos as int,
                ),
            decreases self.chars.len() - self.pos,
        {
            let ghost mid = *self;
            self.eat_while(CharClass::Ident);
            proof {
                self.lemma_moved_twice(
                    mid,
                    pre,
                    (mid.pos - pre.pos) as nat,
                    run_len(pre.chars@, mid.pos as int, CharClass::Ident),
                );
            }
            if self.first() == '.' && is_ascii_lowercase(self.second()) {
                let ghost dot = *self;
                self.skip(2);
                proof {
                    self.lemma_moved_twice(dot, pre, (dot.pos - pre.pos) as nat, 2);
                }
                continue ;
            }
            return TokenKind::Functor;
        }
    }

    /// Called behind the first digit.
    fn number(&mut self) -> (kind: TokenKind)
        requires
            old(self).wf(),
        ensures
            kind == number_len(old(self).source(), old(self).offset()).kind,
            final(self).moved(*old(self), number_len(old(self).source(), old(self).offset()).chars),
    {
        let ghost pre = *self;
        let mut kind = TokenKind::Integer;
        self.eat_while(CharClass::Digit);
        let ghost int_end = *self;
        if self.first() == '.' && is_ascii_digit(self.second()) {
            self.skip(2);
            let ghost dot = *self;
            self.eat_while(CharClass::Digit);
            proof {
                self.lemma_moved_twice(
                    dot,
                    int_end,
                    2,
                    run_len(pre.chars@, dot.pos as int, CharClass::Digit),
                );
            }
            kind = TokenKind::Float;
        } else {
            proof {
                self.lemma_moved_none();
            }
        }
        let ghost frac = (self.pos - int_end.pos) as nat;
        proof {
            self.lemma_moved_twice(int_end, pre, (int_end.pos - pre.pos) as nat, frac);
        }
        let ghost frac_end = *self;
        let e = self.first();
        let sign = self.second();
        if (e == 'e' || e == 'E') && (sign == '+' || sign == '-') && is_ascii_digit(self.third()) {
            self.skip(3);
            let ghost digits = *self;
            self.eat_while(CharClass::Digit);
            proof {
                self.lemma_moved_twice(
                    digits,
                    frac_end,
                    3,
                    run_len(pre.chars@, digits.pos as int, CharClass::Digit),
                );
            }
            kind = TokenKind::Float;
        } else if (e == 'e' || e == 'E') && is_ascii_digit(sign) {
            self.skip(2);
            let ghost digits = *self;
            self.eat_while(CharClass::Digit);
            proof {
                self.lemma_moved_twice(
                    digits,
                    frac_end,
                    2,
                    run_len(pre.chars@, digits.pos as int, CharClass::Digit),
                );
            }
            kind = TokenKind::Float;
        } else {
            proof {
                self.lemma_moved_none();
            }
        }
        proof {
            self.lemma_moved_twice(
                frac_end,
                pre,
                (frac_end.pos - pre.pos) as nat,
                (self.pos - frac_end.pos) as nat,
            );
        }
        kind
    }

    /// Like `followed_by`, for a reserved word: no identifier character may
    /// follow it.
    fn word(&mut self, s: &str) -> (b: bool)
        requires
            old(self).wf(),
        ensures
            b == word_at(old(self).source(), old(self).offset(), s@),
            b ==> final(self).moved(*old(self), s@.len()),
            !b ==> final(self).moved(*old(self), 0),
    {
        if self.starts_with(s) && !is_ident_continue(self.peek(s.unicode_len())) {
            self.skip(s.unicode_len());
            true
        } else {
            proof {
                self.lemma_moved_none();
            }
            false
        }
    }
}

/// `cuts` holds the character index at which each of `tokens` starts, and
/// behind them the length of `s`: the tokens cover `s` without gap or overlap,
/// each is at least one character long, and each counts the bytes of its own
/// characters.
pub open spec fn covers(s: Seq<char>, tokens: Seq<Token>, cuts: Seq<int>) -> bool {
    &&& cuts.len() == tokens.len() + 1
    &&& cuts[0] == 0
    &&& cuts[tokens.len() as int] == s.len()
    &&& forall|k: int|
        0 <= k < tokens.len() ==> 0 <= cuts[k] < cuts[k + 1] <= s.len() && (#[trigger] tokens[k]).len
            == byte_len(s.subrange(cuts[k], cuts[k + 1]))
}

/// Scans the whole of `input`, and tells where each token starts.
pub(crate) fn scan_all(input: &str) -> (scanned: (Vec<Token>, Ghost<Seq<int>>))
    ensures
        scanned.0@ == tokens_of(input@),
        covers(input@, scanned.0@, scanned.1@),
{
    let mut cursor = Cursor::new(input);
    let mut tokens: Vec<Token> = Vec::new();
    let ghost mut cuts: Seq<int> = seq![0int];
    while !cursor.is_eof()
        invariant
            cursor.wf(),
            cursor.source() == input@,
            0 <= cursor.offset() <= input@.len(),
            tokens@ + tokens_from(input@, cursor.offset()) == tokens_of(input@),
            cuts.len() == tokens.len() + 1,
            cuts[0] == 0,
            cuts[tokens.len() as int] == cursor.offset(),
            forall|k: int|
                0 <= k < tokens.len() ==> 0 <= cuts[k] < cuts[k + 1] <= input@.len() && (
                #[trigger] tokens[k]).len == byte_len(input@.subrange(cuts[k], cuts[k + 1])),
        decreases input@.len() - cursor.offset(),
    {
        cursor.reset_len_consumed();
        let ghost before = cursor;
        let token = cursor.advance_token();
        proof {
            let rest = tokens_from(input@, cursor.offset());
            assert(token == token_at(input@, before.offset()));
            assert(tokens@.push(token) + rest =~= tokens@ + (seq![token] + rest));
            cuts = cuts.push(cursor.offset());
        }
        tokens.push(token);
    }
    assert(tokens@ + Seq::<Token>::empty() =~= tokens@);
    (tokens, Ghost(cuts))
}

/// Cuts `input` into its tokens, left to right. The tokens cover the input
/// without gap or overlap, and none is empty.
pub fn tokenize(input: &str) -> (tokens: Vec<Token>)
    ensures
        tokens@ == tokens_of(input@),
        exists|cuts: Seq<int>| covers(input@, tokens@, cuts),
{
    let scanned = scan_all(input);
    scanned.0
}

} // verus!
