use crate::syntax::{SyntaxKind, Tok};
use crate::tree::Tree;
use vstd::prelude::*;

verus! {

/// A syntactic error as the grammar states it: the message, and the index of
/// the token at which it was found.
pub struct Diagnostic {
    pub message: Seq<char>,
    pub token_idx: nat,
}

/// What a production yields from some position: the elements it appends to
/// the node that is open, the number of tokens it takes (noise included),
/// the errors it reports, and whether it ran into the end of the input.
pub struct Out {
    pub items: Seq<Tree>,
    pub used: nat,
    pub errors: Seq<Diagnostic>,
    pub eof: bool,
}

impl Out {
    /// Nothing appended, nothing taken, nothing reported.
    pub open spec fn empty() -> Out {
        Out { items: Seq::empty(), used: 0, errors: Seq::empty(), eof: false }
    }

    /// The end of the input where a token was expected.
    pub open spec fn eof() -> Out {
        Out { items: Seq::empty(), used: 0, errors: Seq::empty(), eof: true }
    }

    /// One error at token `at`.
    pub open spec fn error(message: Seq<char>, at: nat) -> Out {
        Out {
            items: Seq::empty(),
            used: 0,
            errors: seq![Diagnostic { message, token_idx: at }],
            eof: false,
        }
    }

    /// First `self`, then `next`.
    pub open spec fn and_then(self, next: Out) -> Out {
        Out {
            items: self.items + next.items,
            used: self.used + next.used,
            errors: self.errors + next.errors,
            eof: self.eof || next.eof,
        }
    }

    /// The elements of `self` as the children of one node of kind `kind`.
    pub open spec fn wrap(self, kind: SyntaxKind) -> Out {
        Out {
            items: seq![Tree::Node { kind: kind.raw(), children: self.items }],
            used: self.used,
            errors: self.errors,
            eof: self.eof,
        }
    }
}

/// Sequencing groups either way.
pub proof fn lemma_and_then_assoc(a: Out, b: Out, c: Out)
    ensures
        a.and_then(b).and_then(c) == a.and_then(b.and_then(c)),
{
    assert((a.items + b.items) + c.items =~= a.items + (b.items + c.items));
    assert((a.errors + b.errors) + c.errors =~= a.errors + (b.errors + c.errors));
}

/// Nothing, then `a`, is `a`.
pub proof fn lemma_empty_and_then(a: Out)
    ensures
        Out::empty().and_then(a) == a,
{
    assert(Seq::<Tree>::empty() + a.items =~= a.items);
    assert(Seq::<Diagnostic>::empty() + a.errors =~= a.errors);
}

/// `a`, then nothing, is `a`.
pub proof fn lemma_and_then_empty(a: Out)
    ensures
        a.and_then(Out::empty()) == a,
{
    assert(a.items + Seq::<Tree>::empty() =~= a.items);
    assert(a.errors + Seq::<Diagnostic>::empty() =~= a.errors);
}

/// Three steps behind `a`, grouped either way.
pub proof fn lemma_regroup3(a: Out, b: Out, c: Out, d: Out)
    ensures
        a.and_then(b).and_then(c).and_then(d) == a.and_then(b.and_then(c).and_then(d)),
{
    lemma_and_then_assoc(a, b, c);
    lemma_and_then_assoc(a, b.and_then(c), d);
}

/// Four steps behind `a`, grouped either way.
pub proof fn lemma_regroup4(a: Out, b: Out, c: Out, d: Out, e: Out)
    ensures
        a.and_then(b).and_then(c).and_then(d).and_then(e) == a.and_then(
            b.and_then(c).and_then(d).and_then(e),
        ),
{
    lemma_regroup3(a, b, c, d);
    lemma_and_then_assoc(a, b.and_then(c).and_then(d), e);
}

/// The sets of token kinds at which a recovery stops.
#[derive(Clone, Copy, Debug)]
pub enum Until {
    /// No kind.
    Never,
    /// `.`
    Dot,
    /// `)`
    CloseParen,
    /// `]`
    CloseBracket,
    /// `.` or `;`
    DotOrSemi,
    /// `.`, `;` or `)`
    DotSemiOrCloseParen,
}

impl Until {
    /// Whether `kind` is in the set.
    pub open spec fn holds(self, kind: SyntaxKind) -> bool {
        match self {
            Until::Never => false,
            Until::Dot => kind == SyntaxKind::Dot,
            Until::CloseParen => kind == SyntaxKind::CloseParen,
            Until::CloseBracket => kind == SyntaxKind::CloseBracket,
            Until::DotOrSemi => kind == SyntaxKind::Dot || kind == SyntaxKind::Semi,
            Until::DotSemiOrCloseParen => kind == SyntaxKind::Dot || kind == SyntaxKind::Semi
                || kind == SyntaxKind::CloseParen,
        }
    }

    /// Tests whether `kind` is in the set.
    pub fn test(self, kind: SyntaxKind) -> (b: bool)
        ensures
            b == self.holds(kind),
    {
        match self {
            Until::Never => false,
            Until::Dot => kind == SyntaxKind::Dot,
            Until::CloseParen => kind == SyntaxKind::CloseParen,
            Until::CloseBracket => kind == SyntaxKind::CloseBracket,
            Until::DotOrSemi => kind == SyntaxKind::Dot || kind == SyntaxKind::Semi,
            Until::DotSemiOrCloseParen => kind == SyntaxKind::Dot || kind == SyntaxKind::Semi
                || kind == SyntaxKind::CloseParen,
        }
    }
}

/// Number of tokens from position `p` on.
pub open spec fn left(t: Seq<Tok>, p: nat) -> nat {
    if p < t.len() {
        (t.len() - p) as nat
    } else {
        0
    }
}

/// The kind of the token at position `p`, if there is one.
pub open spec fn kind_at(t: Seq<Tok>, p: nat) -> Option<SyntaxKind> {
    if p < t.len() {
        Some(t[p as int].kind)
    } else {
        None
    }
}

/// The token at position `p` as a leaf.
pub open spec fn leaf(t: Seq<Tok>, p: nat) -> Tree {
    Tree::Token { kind: t[p as int].kind.raw(), text: t[p as int].text }
}

/// Takes the token at position `p`.
pub open spec fn take(t: Seq<Tok>, p: nat) -> Out {
    Out { items: seq![leaf(t, p)], used: 1, errors: Seq::empty(), eof: false }
}

/// Takes the run of whitespace and comments that starts at position `p`.
#[verifier::opaque]
pub open spec fn noise(t: Seq<Tok>, p: nat) -> Out
    decreases left(t, p),
{
    if p < t.len() && t[p as int].kind.is_noise() {
        take(t, p).and_then(noise(t, p + 1))
    } else {
        Out::empty()
    }
}

/// A message that ends in the name of the kind that was found.
pub open spec fn message(prefix: Seq<char>, found: SyntaxKind) -> Seq<char> {
    prefix + found.debug_name()
}

/// Takes tokens from position `p` until one of a kind in `exclusive` comes
/// up, which stays, or one of a kind in `inclusive` was taken, or none is
/// left.
#[verifier::opaque]
pub open spec fn skip(t: Seq<Tok>, p: nat, inclusive: Until, exclusive: Until) -> Out
    decreases left(t, p),
{
    let n = noise(t, p);
    let q = p + n.used;
    match kind_at(t, q) {
        Some(k) => if exclusive.holds(k) {
            n
        } else if inclusive.holds(k) {
            n.and_then(take(t, q))
        } else {
            n.and_then(take(t, q)).and_then(skip(t, q + 1, inclusive, exclusive))
        },
        None => n,
    }
}

/// Recovery at position `p`: one error at the token there, and one `Error`
/// node over the tokens that `skip` takes.
pub open spec fn recover(
    t: Seq<Tok>,
    p: nat,
    message: Seq<char>,
    inclusive: Until,
    exclusive: Until,
) -> Out {
    Out::error(message, p).and_then(skip(t, p, inclusive, exclusive).wrap(SyntaxKind::Error))
}

/// The token kinds that are atoms by themselves.
pub open spec fn is_plain_atom(kind: SyntaxKind) -> bool {
    kind == SyntaxKind::Variable || kind == SyntaxKind::Wildcard || kind == SyntaxKind::Integer
        || kind == SyntaxKind::Float || kind == SyntaxKind::True || kind == SyntaxKind::False
        || kind == SyntaxKind::String
}

/// Tests for a token kind that is an atom by itself.
pub fn is_plain_atom_kind(kind: SyntaxKind) -> (b: bool)
    ensures
        b == is_plain_atom(kind),
{
    kind == SyntaxKind::Variable || kind == SyntaxKind::Wildcard || kind == SyntaxKind::Integer
        || kind == SyntaxKind::Float || kind == SyntaxKind::True || kind == SyntaxKind::False
        || kind == SyntaxKind::String
}

/// `term ('|' term)*`, loosest of the ladder: a conjunction, then each `|`
/// with the conjunction behind it wraps all that came before in a
/// `Disjunction`.
#[verifier::opaque]
pub open spec fn term(t: Seq<Tok>, p: nat) -> Out
    decreases left(t, p), 20int,
{
    let first = conjunction(t, p);
    term_rest(t, p + first.used, first)
}

/// The rest of a disjunction from position `p`, where `acc` is what the term
/// holds so far.
#[verifier::opaque]
pub open spec fn term_rest(t: Seq<Tok>, p: nat, acc: Out) -> Out
    decreases left(t, p), 0int,
{
    let n = noise(t, p);
    let q = p + n.used;
    if kind_at(t, q) == Some(SyntaxKind::Or) {
        let rhs = conjunction(t, q + 1);
        term_rest(
            t,
            q + 1 + rhs.used,
            acc.and_then(n).and_then(take(t, q)).and_then(rhs).wrap(SyntaxKind::Disjunction),
        )
    } else {
        acc.and_then(n)
    }
}

/// `negation ('&' negation)*`, left-associative.
#[verifier::opaque]
pub open spec fn conjunction(t: Seq<Tok>, p: nat) -> Out
    decreases left(t, p), 18int,
{
    let first = negation(t, p);
    conjunction_rest(t, p + first.used, first)
}

/// The rest of a conjunction from position `p`, where `acc` is what it holds
/// so far.
#[verifier::opaque]
pub open spec fn conjunction_rest(t: Seq<Tok>, p: nat, acc: Out) -> Out
    decreases left(t, p), 0int,
{
    let n = noise(t, p);
    let q = p + n.used;
    if kind_at(t, q) == Some(SyntaxKind::And) {
        let rhs = negation(t, q + 1);
        conjunction_rest(
            t,
            q + 1 + rhs.used,
            acc.and_then(n).and_then(take(t, q)).and_then(rhs).wrap(SyntaxKind::Conjunction),
        )
    } else {
        acc.and_then(n)
    }
}

/// `'not' negation | comparison`.
#[verifier::opaque]
pub open spec fn negation(t: Seq<Tok>, p: nat) -> Out
    decreases left(t, p), 16int,
{
    let n = noise(t, p);
    let q = p + n.used;
    if kind_at(t, q) == Some(SyntaxKind::Not) {
        n.and_then(take(t, q).and_then(negation(t, q + 1)).wrap(SyntaxKind::Negation))
    } else {
        n.and_then(comparison(t, q))
    }
}

/// `additive (cmp-op additive)?`: at most one comparison.
#[verifier::opaque]
pub open spec fn comparison(t: Seq<Tok>, p: nat) -> Out
    decreases left(t, p), 14int,
{
    let first = additive(t, p);
    let n = noise(t, p + first.used);
    let q = p + first.used + n.used;
    match kind_at(t, q) {
        Some(k) => if k.comparison().is_some() {
            first.and_then(n).and_then(take(t, q)).and_then(additive(t, q + 1)).wrap(SyntaxKind::Comparison)
        } else {
            first.and_then(n)
        },
        None => first.and_then(n),
    }
}

/// `multiplicative (('+'|'-') multiplicative)*`, left-associative.
#[verifier::opaque]
pub open spec fn additive(t: Seq<Tok>, p: nat) -> Out
    decreases left(t, p), 12int,
{
    let first = multiplicative(t, p);
    additive_rest(t, p + first.used, first)
}

/// The rest of a sum from position `p`, where `acc` is what it holds so far.
#[verifier::opaque]
pub open spec fn additive_rest(t: Seq<Tok>, p: nat, acc: Out) -> Out
    decreases left(t, p), 0int,
{
    let n = noise(t, p);
    let q = p + n.used;
    match kind_at(t, q) {
        Some(k) => if k.additive().is_some() {
            let rhs = multiplicative(t, q + 1);
            additive_rest(
                t,
                q + 1 + rhs.used,
                acc.and_then(n).and_then(take(t, q)).and_then(rhs).wrap(SyntaxKind::AdditiveExpression),
            )
        } else {
            acc.and_then(n)
        },
        None => acc.and_then(n),
    }
}

/// `unary (('*'|'/'|'div'|'mod') unary)*`, left-associative.
#[verifier::opaque]
pub open spec fn multiplicative(t: Seq<Tok>, p: nat) -> Out
    decreases left(t, p), 10int,
{
    let first = unary(t, p);
    multiplicative_rest(t, p + first.used, first)
}

/// The rest of a product from position `p`, where `acc` is what it holds so
/// far.
#[verifier::opaque]
pub open spec fn multiplicative_rest(t: Seq<Tok>, p: nat, acc: Out) -> Out
    decreases left(t, p), 0int,
{
    let n = noise(t, p);
    let q = p + n.used;
    match kind_at(t, q) {
        Some(k) => if k.multiplicative().is_some() {
            let rhs = unary(t, q + 1);
            multiplicative_rest(
                t,
                q + 1 + rhs.used,
                acc.and_then(n).and_then(take(t, q)).and_then(rhs).wrap(SyntaxKind::MultiplicativeExpression),
            )
        } else {
            acc.and_then(n)
        },
        None => acc.and_then(n),
    }
}

/// `('+'|'-') unary | exponentiation`.
#[verifier::opaque]
pub open spec fn unary(t: Seq<Tok>, p: nat) -> Out
    decreases left(t, p), 8int,
{
    let n = noise(t, p);
    let q = p + n.used;
    match kind_at(t, q) {
        Some(k) => if k.unary().is_some() {
            n.and_then(take(t, q).and_then(unary(t, q + 1)).wrap(SyntaxKind::UnaryExpression))
        } else {
            n.and_then(exponentiation(t, q))
        },
        None => n.and_then(exponentiation(t, q)),
    }
}

/// `atom ('**' unary)*`: the operand behind `**` is a unary expression, which
/// may itself hold a `**`, so the operator groups to the right.
#[verifier::opaque]
pub open spec fn exponentiation(t: Seq<Tok>, p: nat) -> Out
    decreases left(t, p), 6int,
{
    let first = atom(t, p);
    exponentiation_rest(t, p + first.used, first)
}

/// The rest of a power from position `p`, where `acc` is what it holds so
/// far.
#[verifier::opaque]
pub open spec fn exponentiation_rest(t: Seq<Tok>, p: nat, acc: Out) -> Out
    decreases left(t, p), 0int,
{
    let n = noise(t, p);
    let q = p + n.used;
    if kind_at(t, q) == Some(SyntaxKind::Pow) {
        let rhs = unary(t, q + 1);
        exponentiation_rest(
            t,
            q + 1 + rhs.used,
            acc.and_then(n).and_then(take(t, q)).and_then(rhs).wrap(SyntaxKind::Exponentiation),
        )
    } else {
        acc.and_then(n)
    }
}

/// What closes a bracketed list from position `p`: behind noise the closing
/// token, or a recovery that stops behind it or before `.` and `;`, or the
/// end of the input.
pub open spec fn closing(t: Seq<Tok>, p: nat, close: SyntaxKind, prefix: Seq<char>) -> Out {
    let n = noise(t, p);
    let q = p + n.used;
    match kind_at(t, q) {
        Some(k) => if k == close {
            n.and_then(take(t, q))
        } else {
            n.and_then(recover(t, q, message(prefix, k), stop_at(close), Until::DotOrSemi))
        },
        None => n.and_then(Out::eof()),
    }
}

/// The set that holds the closing token `close` alone.
pub open spec fn stop_at(close: SyntaxKind) -> Until {
    if close == SyntaxKind::CloseParen {
        Until::CloseParen
    } else if close == SyntaxKind::CloseBracket {
        Until::CloseBracket
    } else {
        Until::Never
    }
}

/// A variable, a wildcard, a number, a boolean, a string, a literal, or a
/// term in parentheses.
#[verifier::opaque]
pub open spec fn atom(t: Seq<Tok>, p: nat) -> Out
    decreases left(t, p), 4int,
{
    let n = noise(t, p);
    let q = p + n.used;
    match kind_at(t, q) {
        Some(k) => if is_plain_atom(k) {
            n.and_then(take(t, q))
        } else if k == SyntaxKind::Functor {
            n.and_then(literal(t, q))
        } else if k == SyntaxKind::OpenParen {
            let inner = n.and_then(take(t, q)).and_then(term(t, q + 1));
            inner.and_then(
                closing(t, p + inner.used, SyntaxKind::CloseParen, "expected ')', got "@),
            )
        } else {
            n.and_then(
                recover(
                    t,
                    q,
                    message("expected atom, got "@, k),
                    Until::Never,
                    Until::DotSemiOrCloseParen,
                ),
            )
        },
        None => n.and_then(Out::eof()),
    }
}

/// A functor, then an argument list in parentheses if one follows, then an
/// annotation list in brackets if one follows. Where another token stands
/// in the functor's place, a recovery takes the tokens up to the next `.` or
/// `;`, which stays.
#[verifier::opaque]
pub open spec fn literal(t: Seq<Tok>, p: nat) -> Out
    decreases left(t, p), 3int,
{
    let n = noise(t, p);
    let q = p + n.used;
    match kind_at(t, q) {
        Some(k) => if k == SyntaxKind::Functor {
            let functor = n.and_then(take(t, q));
            let args = arguments(t, q + 1);
            functor.and_then(args).and_then(annotations(t, q + 1 + args.used)).wrap(
                SyntaxKind::Literal,
            )
        } else {
            n.and_then(
                recover(
                    t,
                    q,
                    message("expected literal, got "@, k),
                    Until::Never,
                    Until::DotOrSemi,
                ),
            ).wrap(SyntaxKind::Literal)
        },
        None => {
            let end = n.and_then(Out::eof());
            let args = arguments(t, q);
            end.and_then(args).and_then(annotations(t, q + args.used)).wrap(SyntaxKind::Literal)
        },
    }
}

/// `(', ' term)*`: each comma with the term behind it.
#[verifier::opaque]
pub open spec fn term_list(t: Seq<Tok>, p: nat) -> Out
    decreases left(t, p), 0int,
{
    let n = noise(t, p);
    let q = p + n.used;
    if kind_at(t, q) == Some(SyntaxKind::Comma) {
        let item = term(t, q + 1);
        n.and_then(take(t, q)).and_then(item).and_then(term_list(t, q + 1 + item.used))
    } else {
        n
    }
}

/// The argument list of a literal, where `(` follows: one term or more,
/// separated by commas, up to `)`.
#[verifier::opaque]
pub open spec fn arguments(t: Seq<Tok>, p: nat) -> Out
    decreases left(t, p), 2int,
{
    let n = noise(t, p);
    let q = p + n.used;
    if kind_at(t, q) == Some(SyntaxKind::OpenParen) {
        let first = term(t, q + 1);
        let inner = take(t, q).and_then(first).and_then(term_list(t, q + 1 + first.used));
        n.and_then(
            inner.and_then(
                closing(
                    t,
                    q + inner.used,
                    SyntaxKind::CloseParen,
                    "expected ')' to close literal, got "@,
                ),
            ).wrap(SyntaxKind::LiteralTerms),
        )
    } else {
        n
    }
}

/// The annotation list of a literal, where `[` follows: terms separated by
/// commas, or none, up to `]`.
#[verifier::opaque]
pub open spec fn annotations(t: Seq<Tok>, p: nat) -> Out
    decreases left(t, p), 1int,
{
    let n = noise(t, p);
    let q = p + n.used;
    if kind_at(t, q) == Some(SyntaxKind::OpenBracket) {
        let open = take(t, q).and_then(noise(t, q + 1));
        let inner = if kind_at(t, q + open.used) == Some(SyntaxKind::CloseBracket) {
            open.and_then(take(t, q + open.used))
        } else {
            let first = term(t, q + open.used);
            let list = open.and_then(first).and_then(term_list(t, q + open.used + first.used));
            list.and_then(
                closing(
                    t,
                    q + list.used,
                    SyntaxKind::CloseBracket,
                    "expected ']' to close literal annotation, got "@,
                ),
            )
        };
        n.and_then(inner.wrap(SyntaxKind::LiteralAnnotations))
    } else {
        n
    }
}

/// What `arguments` is, where `(` follows and where it does not.
pub proof fn lemma_arguments(t: Seq<Tok>, p: nat)
    ensures
        ({
            let n = noise(t, p);
            let q = p + n.used;
            if kind_at(t, q) == Some(SyntaxKind::OpenParen) {
                let first = term(t, q + 1);
                let inner = take(t, q).and_then(first).and_then(term_list(t, q + 1 + first.used));
                arguments(t, p) == n.and_then(
                    inner.and_then(
                        closing(
                            t,
                            q + inner.used,
                            SyntaxKind::CloseParen,
                            "expected ')' to close literal, got "@,
                        ),
                    ).wrap(SyntaxKind::LiteralTerms),
                )
            } else {
                arguments(t, p) == n
            }
        }),
{
    reveal(arguments);
    reveal(term);
    reveal(term_list);
}

/// What `annotations` is, where `[` follows and where it does not.
pub proof fn lemma_annotations(t: Seq<Tok>, p: nat)
    ensures
        ({
            let n = noise(t, p);
            let q = p + n.used;
            if kind_at(t, q) == Some(SyntaxKind::OpenBracket) {
                let open = take(t, q).and_then(noise(t, q + 1));
                if kind_at(t, q + open.used) == Some(SyntaxKind::CloseBracket) {
                    annotations(t, p) == n.and_then(
                        open.and_then(take(t, q + open.used)).wrap(SyntaxKind::LiteralAnnotations),
                    )
                } else {
                    let first = term(t, q + open.used);
                    let list = open.and_then(first).and_then(
                        term_list(t, q + open.used + first.used),
                    );
                    annotations(t, p) == n.and_then(
                        list.and_then(
                            closing(
                                t,
                                q + list.used,
                                SyntaxKind::CloseBracket,
                                "expected ']' to close literal annotation, got "@,
                            ),
                        ).wrap(SyntaxKind::LiteralAnnotations),
                    )
                }
            } else {
                annotations(t, p) == n
            }
        }),
{
    reveal(annotations);
    reveal(term);
    reveal(term_list);
}

/// One statement of a plan body: a marker (`!!`, `!`, `?`, `-+`, `+`, `-`) or
/// none, then a term.
#[verifier::opaque]
pub open spec fn formula(t: Seq<Tok>, p: nat) -> Out {
    let n = noise(t, p);
    let q = p + n.used;
    match kind_at(t, q) {
        Some(k) => if k.formula().is_some() {
            n.and_then(take(t, q)).and_then(term(t, q + 1)).wrap(SyntaxKind::Formula)
        } else {
            n.and_then(term(t, q)).wrap(SyntaxKind::Formula)
        },
        None => n.and_then(Out::eof()).and_then(term(t, q)).wrap(SyntaxKind::Formula),
    }
}

/// The formulas of a plan body from position `p`: each is followed by `;`,
/// and the last by `.`. Where neither follows, a recovery takes the tokens
/// up to and including the next `;` or `.`, and the next formula starts
/// behind it.
#[verifier::opaque]
pub open spec fn body(t: Seq<Tok>, p: nat) -> Out
    decreases left(t, p),
    via body_decreases
{
    let first = formula(t, p);
    let head = first.and_then(noise(t, p + first.used));
    let q = p + head.used;
    match kind_at(t, q) {
        Some(k) => if k == SyntaxKind::Semi {
            head.and_then(take(t, q)).and_then(body(t, q + 1))
        } else if k == SyntaxKind::Dot {
            head.and_then(take(t, q))
        } else {
            let lost = recover(
                t,
                q,
                message("expected ';' or '.', got "@, k),
                Until::DotOrSemi,
                Until::Never,
            );
            head.and_then(lost).and_then(body(t, q + lost.used))
        },
        None => head.and_then(Out::eof()),
    }
}

#[via_fn]
proof fn body_decreases(t: Seq<Tok>, p: nat) {
    let first = formula(t, p);
    let head = first.and_then(noise(t, p + first.used));
    let q = p + head.used;
    if q < t.len() {
        lemma_recover_progress(t, q, Until::DotOrSemi);
    }
}

/// Recovery does not stall: unless the token at which it starts is of a kind
/// in `exclusive`, a recovery takes at least one token that is no noise, or
/// it takes all the tokens that are left.
pub proof fn lemma_recovery_progress(
    t: Seq<Tok>,
    p: nat,
    text: Seq<char>,
    inclusive: Until,
    exclusive: Until,
)
    requires
        p <= t.len(),
        kind_at(t, p + noise(t, p).used) matches Some(k) ==> !exclusive.holds(k),
    ensures
        recover(t, p, text, inclusive, exclusive).used > noise(t, p).used || p + recover(
            t,
            p,
            text,
            inclusive,
            exclusive,
        ).used == t.len(),
{
    reveal(skip);
    lemma_noise_stops(t, p);
}

/// A recovery that no kind stops before it has taken a token takes at least
/// one, unless none is left.
pub proof fn lemma_recover_progress(t: Seq<Tok>, p: nat, inclusive: Until)
    requires
        p < t.len(),
    ensures
        skip(t, p, inclusive, Until::Never).used >= 1,
    decreases left(t, p),
{
    reveal(skip);
    reveal(noise);
    if t[p as int].kind.is_noise() {
        if p + 1 < t.len() {
            lemma_recover_progress(t, p + 1, inclusive);
        }
    }
}

/// The annotations in front of a plan: each an `@` with a literal.
#[verifier::opaque]
pub open spec fn plan_annotations(t: Seq<Tok>, p: nat) -> Out
    decreases left(t, p),
{
    let n = noise(t, p);
    let q = p + n.used;
    if kind_at(t, q) == Some(SyntaxKind::At) {
        let note = take(t, q).and_then(literal(t, q + 1));
        n.and_then(note.wrap(SyntaxKind::PlanAnnotation)).and_then(
            plan_annotations(t, q + note.used),
        )
    } else {
        n
    }
}

/// A plan: annotations, the trigger `+` or `-` (an error where it is
/// missing), `!` if it follows, the triggering literal, a context behind `:`
/// if one follows, and a body behind `<-` if one follows.
#[verifier::opaque]
pub open spec fn plan(t: Seq<Tok>, p: nat) -> Out {
    let notes = plan_annotations(t, p);
    let signed = match kind_at(t, p + notes.used) {
        Some(k) => if k == SyntaxKind::Plus || k == SyntaxKind::Minus {
            notes.and_then(take(t, p + notes.used))
        } else {
            notes.and_then(Out::error("expected '+' or '-' for plan trigger"@, p + notes.used))
        },
        None => notes.and_then(Out::error("expected '+' or '-' for plan trigger"@, p + notes.used)),
    };
    let sign = signed.and_then(noise(t, p + signed.used));
    let trigger = if kind_at(t, p + sign.used) == Some(SyntaxKind::Bang) {
        sign.and_then(take(t, p + sign.used))
    } else {
        sign
    };
    let event = trigger.and_then(literal(t, p + trigger.used));
    let head = event.and_then(noise(t, p + event.used));
    let context = if kind_at(t, p + head.used) == Some(SyntaxKind::Colon) {
        head.and_then(take(t, p + head.used)).and_then(
            term(t, p + head.used + 1).wrap(SyntaxKind::PlanContext),
        )
    } else {
        head
    };
    let guarded = context.and_then(noise(t, p + context.used));
    let whole = if kind_at(t, p + guarded.used) == Some(SyntaxKind::Arrow) {
        guarded.and_then(take(t, p + guarded.used)).and_then(
            body(t, p + guarded.used + 1).wrap(SyntaxKind::Body),
        )
    } else {
        guarded
    };
    whole.wrap(SyntaxKind::Plan)
}

/// A belief or a rule: a literal, the head; behind `:-` a term, which makes
/// it a rule; then `.`, or a recovery up to and including the next `.`.
#[verifier::opaque]
pub open spec fn clause(t: Seq<Tok>, p: nat) -> Out {
    let lit = literal(t, p);
    let head = lit.and_then(noise(t, p + lit.used));
    let is_rule = kind_at(t, p + head.used) == Some(SyntaxKind::Define);
    let inner = if is_rule {
        let defined = head.and_then(take(t, p + head.used)).and_then(term(t, p + head.used + 1));
        defined.and_then(noise(t, p + defined.used))
    } else {
        head
    };
    let end = if kind_at(t, p + inner.used) == Some(SyntaxKind::Dot) {
        take(t, p + inner.used)
    } else {
        recover(
            t,
            p + inner.used,
            "expected '.' after rule or belief"@,
            Until::Dot,
            Until::Never,
        )
    };
    inner.and_then(end).wrap(
        if is_rule {
            SyntaxKind::Rule
        } else {
            SyntaxKind::Belief
        },
    )
}

/// An initial goal, from its `!` at position `p`: a literal and `.`. Where
/// another token stands, a recovery takes the tokens up to and including the
/// next `.`; where the input ends, only that is noted.
#[verifier::opaque]
pub open spec fn initial_goal(t: Seq<Tok>, p: nat) -> Out {
    let bang = take(t, p).and_then(noise(t, p + 1));
    match kind_at(t, p + bang.used) {
        Some(k) => if k == SyntaxKind::Functor {
            let goal = bang.and_then(literal(t, p + bang.used));
            let end = goal.and_then(noise(t, p + goal.used));
            match kind_at(t, p + end.used) {
                Some(k2) => if k2 == SyntaxKind::Dot {
                    end.and_then(take(t, p + end.used)).wrap(SyntaxKind::InitialGoal)
                } else {
                    end.and_then(
                        recover(
                            t,
                            p + end.used,
                            message("expected '.' after initial goal, got "@, k2),
                            Until::Dot,
                            Until::Never,
                        ),
                    ).wrap(SyntaxKind::InitialGoal)
                },
                None => end.and_then(Out::eof()).wrap(SyntaxKind::InitialGoal),
            }
        } else {
            bang.and_then(
                recover(
                    t,
                    p + bang.used,
                    message("expected functor after '!', got "@, k),
                    Until::Dot,
                    Until::Never,
                ),
            ).wrap(SyntaxKind::InitialGoal)
        },
        None => bang.and_then(Out::eof()).wrap(SyntaxKind::InitialGoal),
    }
}

/// The statement that starts with the token at position `p`, by the kind of
/// that token: a functor starts a belief or a rule, `!` an initial goal,
/// `@`, `+` or `-` a plan. Any other token is an error, and a recovery takes
/// the tokens up to and including the next `.`.
pub open spec fn statement(t: Seq<Tok>, p: nat) -> Out
    recommends
        p < t.len(),
{
    let k = t[p as int].kind;
    if k == SyntaxKind::Functor {
        clause(t, p)
    } else if k == SyntaxKind::Bang {
        initial_goal(t, p)
    } else if k == SyntaxKind::At || k == SyntaxKind::Plus || k == SyntaxKind::Minus {
        plan(t, p)
    } else {
        recover(t, p, message("unexpected token "@, k), Until::Dot, Until::Never)
    }
}

/// The statements from position `p` to the end of the input.
#[verifier::opaque]
pub open spec fn program(t: Seq<Tok>, p: nat) -> Out
    decreases left(t, p),
    via program_decreases
{
    let n = noise(t, p);
    let q = p + n.used;
    if q < t.len() {
        let first = statement(t, q);
        n.and_then(first).and_then(program(t, q + first.used))
    } else {
        n
    }
}

#[via_fn]
proof fn program_decreases(t: Seq<Tok>, p: nat) {
    let n = noise(t, p);
    let q = p + n.used;
    if q < t.len() {
        lemma_noise_stops(t, p);
        lemma_statement_progress(t, q);
    }
}

/// Behind a run of noise stands a token that is no noise, or none.
pub proof fn lemma_noise_stops(t: Seq<Tok>, p: nat)
    ensures
        p + noise(t, p).used <= t.len() || noise(t, p).used == 0,
        p + noise(t, p).used < t.len() ==> !t[(p + noise(t, p).used) as int].kind.is_noise(),
        p <= t.len() ==> p + noise(t, p).used <= t.len(),
        noise(t, p + noise(t, p).used) == Out::empty(),
    decreases left(t, p),
{
    reveal(noise);
    if p < t.len() && t[p as int].kind.is_noise() {
        lemma_noise_stops(t, p + 1);
    }
}

/// A statement takes at least the token that it starts with.
pub proof fn lemma_statement_progress(t: Seq<Tok>, p: nat)
    requires
        p < t.len(),
        !t[p as int].kind.is_noise(),
    ensures
        statement(t, p).used >= 1,
{
    let k = t[p as int].kind;
    if k == SyntaxKind::Functor {
        lemma_clause_progress(t, p);
    } else if k == SyntaxKind::Bang {
        reveal(initial_goal);
    } else if k == SyntaxKind::At || k == SyntaxKind::Plus || k == SyntaxKind::Minus {
        lemma_plan_progress(t, p);
    } else {
        lemma_recover_progress(t, p, Until::Dot);
    }
}

proof fn lemma_clause_progress(t: Seq<Tok>, p: nat)
    requires
        p < t.len(),
        t[p as int].kind == SyntaxKind::Functor,
    ensures
        clause(t, p).used >= 1,
{
    reveal(clause);
    reveal(literal);
    reveal(noise);
    assert(noise(t, p) == Out::empty());
    assert(literal(t, p).used >= 1);
}

proof fn lemma_plan_progress(t: Seq<Tok>, p: nat)
    requires
        p < t.len(),
        t[p as int].kind == SyntaxKind::At || t[p as int].kind == SyntaxKind::Plus || t[p as int].kind
            == SyntaxKind::Minus,
    ensures
        plan(t, p).used >= 1,
{
    reveal(plan);
    reveal(plan_annotations);
    reveal(noise);
    assert(noise(t, p) == Out::empty());
    let notes = plan_annotations(t, p);
    let signed = match kind_at(t, p + notes.used) {
        Some(k) => if k == SyntaxKind::Plus || k == SyntaxKind::Minus {
            notes.and_then(take(t, p + notes.used))
        } else {
            notes.and_then(Out::error("expected '+' or '-' for plan trigger"@, p + notes.used))
        },
        None => notes.and_then(Out::error("expected '+' or '-' for plan trigger"@, p + notes.used)),
    };
    assert(signed.used >= 1);
    let sign = signed.and_then(noise(t, p + signed.used));
    let trigger = if kind_at(t, p + sign.used) == Some(SyntaxKind::Bang) {
        sign.and_then(take(t, p + sign.used))
    } else {
        sign
    };
    assert(trigger.used >= 1);
    let event = trigger.and_then(literal(t, p + trigger.used));
    let head = event.and_then(noise(t, p + event.used));
    assert(head.used >= 1);
    let context = if kind_at(t, p + head.used) == Some(SyntaxKind::Colon) {
        head.and_then(take(t, p + head.used)).and_then(
            term(t, p + head.used + 1).wrap(SyntaxKind::PlanContext),
        )
    } else {
        head
    };
    assert(context.used >= 1);
    let guarded = context.and_then(noise(t, p + context.used));
    let whole = if kind_at(t, p + guarded.used) == Some(SyntaxKind::Arrow) {
        guarded.and_then(take(t, p + guarded.used)).and_then(
            body(t, p + guarded.used + 1).wrap(SyntaxKind::Body),
        )
    } else {
        guarded
    };
    assert(whole.used >= 1);
}

} // verus!
