use crate::grammar::{
    additive, additive_rest, annotations, arguments, atom, body, clause, closing, comparison,
    conjunction, conjunction_rest, exponentiation, exponentiation_rest, formula, initial_goal,
    is_plain_atom, kind_at, leaf, left, lemma_noise_stops, lemma_recover_progress,
    lemma_statement_progress, literal, message, multiplicative, multiplicative_rest, negation,
    noise, plan, plan_annotations, program, recover, skip, statement, stop_at, take, term,
    term_list, term_rest, unary, Out, Until,
};
use crate::syntax::{LexedStr, SyntaxKind, Tok};
use crate::tree::{
    forest_free_of, forest_leaves, leaves_text, lemma_forest_free_add, lemma_forest_leaves_add,
    lemma_forest_of_one, Tree,
};
use vstd::prelude::*;

verus! {

/// The tokens from position `from` up to position `to`, as leaves.
pub open spec fn token_leaves(t: Seq<Tok>, from: nat, to: nat) -> Seq<Tree> {
    Seq::new((to - from) as nat, |i: int| leaf(t, (from + i) as nat))
}

/// What holds of all that a production yields from position `p`: it takes
/// tokens that are there; the leaves of what it appends are the tokens it
/// takes, in order; it appends no `Root` node; and each of its errors names
/// a token of the text or the end of the text.
#[verifier::opaque]
pub open spec fn sound(out: Out, t: Seq<Tok>, p: nat) -> bool {
    &&& p + out.used <= t.len()
    &&& forest_leaves(out.items) == token_leaves(t, p, p + out.used)
    &&& forest_free_of(out.items, SyntaxKind::Root.raw())
    &&& forall|i: int| 0 <= i < out.errors.len() ==> (#[trigger] out.errors[i]).token_idx <= t.len()
}

/// What is sound takes no more tokens than there are.
pub proof fn lemma_sound_bounds(out: Out, t: Seq<Tok>, p: nat)
    requires
        sound(out, t, p),
    ensures
        p + out.used <= t.len(),
{
    reveal(sound);
}

/// `b` behind `a` is sound where both are and `b` starts where `a` ends.
pub proof fn lemma_then(a: Out, b: Out, t: Seq<Tok>, p: nat, q: nat)
    requires
        sound(a, t, p),
        sound(b, t, q),
        q == p + a.used,
    ensures
        sound(a.and_then(b), t, p),
        p + a.and_then(b).used <= t.len(),
{
    reveal(sound);
    lemma_forest_leaves_add(a.items, b.items);
    lemma_forest_free_add(a.items, b.items, SyntaxKind::Root.raw());
    assert(token_leaves(t, p, p + a.used) + token_leaves(t, p + a.used, p + a.used + b.used)
        =~= token_leaves(t, p, p + a.used + b.used));
}

/// A node of another kind than `Root` over what is sound is sound.
pub proof fn lemma_wrap(a: Out, kind: SyntaxKind, t: Seq<Tok>, p: nat)
    requires
        sound(a, t, p),
        kind != SyntaxKind::Root,
    ensures
        sound(a.wrap(kind), t, p),
{
    reveal(sound);
    lemma_forest_of_one(
        Tree::Node { kind: kind.raw(), children: a.items },
        SyntaxKind::Root.raw(),
    );
}

/// One token that is there is sound.
pub proof fn lemma_take(t: Seq<Tok>, p: nat)
    requires
        p < t.len(),
    ensures
        sound(take(t, p), t, p),
{
    reveal(sound);
    lemma_forest_of_one(leaf(t, p), SyntaxKind::Root.raw());
    assert(token_leaves(t, p, p + 1) =~= seq![leaf(t, p)]);
}

/// Nothing is sound, and so is the end of the text.
pub proof fn lemma_nothing(t: Seq<Tok>, p: nat)
    requires
        p <= t.len(),
    ensures
        sound(Out::empty(), t, p),
        sound(Out::eof(), t, p),
{
    reveal(sound);
    assert(token_leaves(t, p, p) =~= Seq::<Tree>::empty());
}

/// An error at a place in the text is sound.
pub proof fn lemma_error(text: Seq<char>, t: Seq<Tok>, p: nat)
    requires
        p <= t.len(),
    ensures
        sound(Out::error(text, p), t, p),
{
    reveal(sound);
    assert(token_leaves(t, p, p) =~= Seq::<Tree>::empty());
}

/// What `noise` yields is sound.
pub proof fn lemma_sound_noise(t: Seq<Tok>, p: nat)
    requires
        p <= t.len(),
    ensures
        sound(noise(t, p), t, p),
        p + noise(t, p).used <= t.len(),
    decreases t.len() - p,
{
    reveal(noise);
    if p < t.len() && t[p as int].kind.is_noise() {
        lemma_sound_noise(t, p + 1);
        lemma_take(t, p);
        lemma_then(take(t, p), noise(t, p + 1), t, p, p + 1);
    } else {
        lemma_nothing(t, p);
    }
}

/// What `skip` yields is sound.
pub proof fn lemma_sound_skip(t: Seq<Tok>, p: nat, inclusive: Until, exclusive: Until)
    requires
        p <= t.len(),
    ensures
        sound(skip(t, p, inclusive, exclusive), t, p),
    decreases left(t, p),
{
    reveal(skip);
    lemma_sound_noise(t, p);
    let n = noise(t, p);
    let q = p + n.used;
    if q < t.len() {
        lemma_take(t, q);
        lemma_then(n, take(t, q), t, p, q);
        lemma_sound_skip(t, q + 1, inclusive, exclusive);
        lemma_then(n.and_then(take(t, q)), skip(t, q + 1, inclusive, exclusive), t, p, q + 1);
    }
}

/// What `recover` yields is sound.
pub proof fn lemma_sound_recover(
    t: Seq<Tok>,
    p: nat,
    text: Seq<char>,
    inclusive: Until,
    exclusive: Until,
)
    requires
        p <= t.len(),
    ensures
        sound(recover(t, p, text, inclusive, exclusive), t, p),
{
    lemma_sound_skip(t, p, inclusive, exclusive);
    lemma_error(text, t, p);
    lemma_wrap(skip(t, p, inclusive, exclusive), SyntaxKind::Error, t, p);
    lemma_then(
        Out::error(text, p),
        skip(t, p, inclusive, exclusive).wrap(SyntaxKind::Error),
        t,
        p,
        p,
    );
}

/// Behind what is sound up to position `q`, what ends a list or a statement
/// there: the token that is asked for, a recovery, or the end of the text.
proof fn lemma_end(
    held: Out,
    t: Seq<Tok>,
    p: nat,
    q: nat,
    text: Seq<char>,
    inclusive: Until,
    exclusive: Until,
)
    requires
        sound(held, t, p),
        q == p + held.used,
    ensures
        q < t.len() ==> sound(held.and_then(take(t, q)), t, p),
        sound(held.and_then(recover(t, q, text, inclusive, exclusive)), t, p),
        sound(held.and_then(Out::eof()), t, p),
{
    lemma_sound_bounds(held, t, p);
    if q < t.len() {
        lemma_take(t, q);
        lemma_then(held, take(t, q), t, p, q);
    }
    lemma_sound_recover(t, q, text, inclusive, exclusive);
    lemma_then(held, recover(t, q, text, inclusive, exclusive), t, p, q);
    lemma_nothing(t, q);
    lemma_then(held, Out::eof(), t, p, q);
}

/// What `closing` yields is sound.
pub proof fn lemma_sound_closing(t: Seq<Tok>, p: nat, close: SyntaxKind, prefix: Seq<char>)
    requires
        p <= t.len(),
    ensures
        sound(closing(t, p, close, prefix), t, p),
{
    lemma_sound_noise(t, p);
    let n = noise(t, p);
    let q = p + n.used;
    match kind_at(t, q) {
        Some(k) => {
            lemma_end(n, t, p, q, message(prefix, k), stop_at(close), Until::DotOrSemi);
        },
        None => {
            lemma_end(n, t, p, q, prefix, stop_at(close), Until::DotOrSemi);
        },
    }
}

/// `term` is its first operand and the rest behind it.
proof fn lemma_sound_term_unfold(t: Seq<Tok>, p: nat)
    ensures
        term(t, p) == term_rest(t, p + conjunction(t, p).used, conjunction(t, p)),
{
    reveal(term);
    reveal(term_rest);
    reveal(conjunction);
}

/// What `term` yields is sound.
proof fn lemma_sound_term(t: Seq<Tok>, p: nat)
    requires
        p <= t.len(),
    ensures
        sound(term(t, p), t, p),
    decreases left(t, p), 20int,
{
    lemma_sound_term_unfold(t, p);
    lemma_sound_conjunction(t, p);
    lemma_sound_term_rest(t, p, p + conjunction(t, p).used, conjunction(t, p));
}

/// What `term_rest` yields behind what is sound from `start` is sound from `start`.
proof fn lemma_sound_term_rest(t: Seq<Tok>, start: nat, p: nat, acc: Out)
    requires
        sound(acc, t, start),
        p == start + acc.used,
    ensures
        sound(term_rest(t, p, acc), t, start),
    decreases left(t, p), 0int,
{
    reveal(term_rest);
    reveal(conjunction);
    lemma_sound_bounds(acc, t, start);
    lemma_sound_noise(t, p);
    let n = noise(t, p);
    let q = p + n.used;
    lemma_then(acc, n, t, start, p);
    if kind_at(t, q) == Some(SyntaxKind::Or) {
        lemma_take(t, q);
        lemma_then(acc.and_then(n), take(t, q), t, start, q);
        lemma_sound_conjunction(t, q + 1);
        let rhs = conjunction(t, q + 1);
        let whole = acc.and_then(n).and_then(take(t, q)).and_then(rhs);
        lemma_then(acc.and_then(n).and_then(take(t, q)), rhs, t, start, q + 1);
        lemma_wrap(whole, SyntaxKind::Disjunction, t, start);
        lemma_sound_term_rest(t, start, q + 1 + rhs.used, whole.wrap(SyntaxKind::Disjunction));
    }
}

/// `conjunction` is its first operand and the rest behind it.
proof fn lemma_sound_conjunction_unfold(t: Seq<Tok>, p: nat)
    ensures
        conjunction(t, p) == conjunction_rest(t, p + negation(t, p).used, negation(t, p)),
{
    reveal(conjunction);
    reveal(conjunction_rest);
    reveal(negation);
}

/// What `conjunction` yields is sound.
proof fn lemma_sound_conjunction(t: Seq<Tok>, p: nat)
    requires
        p <= t.len(),
    ensures
        sound(conjunction(t, p), t, p),
    decreases left(t, p), 18int,
{
    lemma_sound_conjunction_unfold(t, p);
    lemma_sound_negation(t, p);
    lemma_sound_conjunction_rest(t, p, p + negation(t, p).used, negation(t, p));
}

/// What `conjunction_rest` yields behind what is sound from `start` is sound from `start`.
proof fn lemma_sound_conjunction_rest(t: Seq<Tok>, start: nat, p: nat, acc: Out)
    requires
        sound(acc, t, start),
        p == start + acc.used,
    ensures
        sound(conjunction_rest(t, p, acc), t, start),
    decreases left(t, p), 0int,
{
    reveal(conjunction_rest);
    reveal(negation);
    lemma_sound_bounds(acc, t, start);
    lemma_sound_noise(t, p);
    let n = noise(t, p);
    let q = p + n.used;
    lemma_then(acc, n, t, start, p);
    if kind_at(t, q) == Some(SyntaxKind::And) {
        lemma_take(t, q);
        lemma_then(acc.and_then(n), take(t, q), t, start, q);
        lemma_sound_negation(t, q + 1);
        let rhs = negation(t, q + 1);
        let whole = acc.and_then(n).and_then(take(t, q)).and_then(rhs);
        lemma_then(acc.and_then(n).and_then(take(t, q)), rhs, t, start, q + 1);
        lemma_wrap(whole, SyntaxKind::Conjunction, t, start);
        lemma_sound_conjunction_rest(t, start, q + 1 + rhs.used, whole.wrap(SyntaxKind::Conjunction));
    }
}

/// What `negation` yields is sound.
proof fn lemma_sound_negation(t: Seq<Tok>, p: nat)
    requires
        p <= t.len(),
    ensures
        sound(negation(t, p), t, p),
    decreases left(t, p), 16int,
{
    reveal(negation);
    reveal(comparison);
    lemma_sound_noise(t, p);
    let n = noise(t, p);
    let q = p + n.used;
    if kind_at(t, q) == Some(SyntaxKind::Not) {
        lemma_take(t, q);
        lemma_sound_negation(t, q + 1);
        lemma_then(take(t, q), negation(t, q + 1), t, q, q + 1);
        lemma_wrap(take(t, q).and_then(negation(t, q + 1)), SyntaxKind::Negation, t, q);
        lemma_then(n, take(t, q).and_then(negation(t, q + 1)).wrap(SyntaxKind::Negation), t, p, q);
    } else {
        lemma_sound_comparison(t, q);
        lemma_then(n, comparison(t, q), t, p, q);
    }
}

/// What `comparison` yields is sound.
proof fn lemma_sound_comparison(t: Seq<Tok>, p: nat)
    requires
        p <= t.len(),
    ensures
        sound(comparison(t, p), t, p),
    decreases left(t, p), 14int,
{
    reveal(comparison);
    reveal(additive);
    lemma_sound_additive(t, p);
    let first = additive(t, p);
    lemma_sound_bounds(first, t, p);
    lemma_sound_noise(t, p + first.used);
    let n = noise(t, p + first.used);
    let q = p + first.used + n.used;
    lemma_then(first, n, t, p, p + first.used);
    if q < t.len() && t[q as int].kind.comparison().is_some() {
        lemma_take(t, q);
        lemma_then(first.and_then(n), take(t, q), t, p, q);
        lemma_sound_additive(t, q + 1);
        lemma_then(first.and_then(n).and_then(take(t, q)), additive(t, q + 1), t, p, q + 1);
        lemma_wrap(
            first.and_then(n).and_then(take(t, q)).and_then(additive(t, q + 1)),
            SyntaxKind::Comparison,
            t,
            p,
        );
    }
}

/// `additive` is its first operand and the rest behind it.
proof fn lemma_sound_additive_unfold(t: Seq<Tok>, p: nat)
    ensures
        additive(t, p) == additive_rest(t, p + multiplicative(t, p).used, multiplicative(t, p)),
{
    reveal(additive);
    reveal(additive_rest);
    reveal(multiplicative);
}

/// What `additive` yields is sound.
proof fn lemma_sound_additive(t: Seq<Tok>, p: nat)
    requires
        p <= t.len(),
    ensures
        sound(additive(t, p), t, p),
    decreases left(t, p), 12int,
{
    lemma_sound_additive_unfold(t, p);
    lemma_sound_multiplicative(t, p);
    lemma_sound_additive_rest(t, p, p + multiplicative(t, p).used, multiplicative(t, p));
}

/// What `additive_rest` yields behind what is sound from `start` is sound from `start`.
proof fn lemma_sound_additive_rest(t: Seq<Tok>, start: nat, p: nat, acc: Out)
    requires
        sound(acc, t, start),
        p == start + acc.used,
    ensures
        sound(additive_rest(t, p, acc), t, start),
    decreases left(t, p), 0int,
{
    reveal(additive_rest);
    reveal(multiplicative);
    lemma_sound_bounds(acc, t, start);
    lemma_sound_noise(t, p);
    let n = noise(t, p);
    let q = p + n.used;
    lemma_then(acc, n, t, start, p);
    if q < t.len() && t[q as int].kind.additive().is_some() {
        lemma_take(t, q);
        lemma_then(acc.and_then(n), take(t, q), t, start, q);
        lemma_sound_multiplicative(t, q + 1);
        let rhs = multiplicative(t, q + 1);
        let whole = acc.and_then(n).and_then(take(t, q)).and_then(rhs);
        lemma_then(acc.and_then(n).and_then(take(t, q)), rhs, t, start, q + 1);
        lemma_wrap(whole, SyntaxKind::AdditiveExpression, t, start);
        lemma_sound_additive_rest(t, start, q + 1 + rhs.used, whole.wrap(SyntaxKind::AdditiveExpression));
    }
}

/// `multiplicative` is its first operand and the rest behind it.
proof fn lemma_sound_multiplicative_unfold(t: Seq<Tok>, p: nat)
    ensures
        multiplicative(t, p) == multiplicative_rest(t, p + unary(t, p).used, unary(t, p)),
{
    reveal(multiplicative);
    reveal(multiplicative_rest);
    reveal(unary);
}

/// What `multiplicative` yields is sound.
proof fn lemma_sound_multiplicative(t: Seq<Tok>, p: nat)
    requires
        p <= t.len(),
    ensures
        sound(multiplicative(t, p), t, p),
    decreases left(t, p), 10int,
{
    lemma_sound_multiplicative_unfold(t, p);
    lemma_sound_unary(t, p);
    lemma_sound_multiplicative_rest(t, p, p + unary(t, p).used, unary(t, p));
}

/// What `multiplicative_rest` yields behind what is sound from `start` is sound from `start`.
proof fn lemma_sound_multiplicative_rest(t: Seq<Tok>, start: nat, p: nat, acc: Out)
    requires
        sound(acc, t, start),
        p == start + acc.used,
    ensures
        sound(multiplicative_rest(t, p, acc), t, start),
    decreases left(t, p), 0int,
{
    reveal(multiplicative_rest);
    reveal(unary);
    lemma_sound_bounds(acc, t, start);
    lemma_sound_noise(t, p);
    let n = noise(t, p);
    let q = p + n.used;
    lemma_then(acc, n, t, start, p);
    if q < t.len() && t[q as int].kind.multiplicative().is_some() {
        lemma_take(t, q);
        lemma_then(acc.and_then(n), take(t, q), t, start, q);
        lemma_sound_unary(t, q + 1);
        let rhs = unary(t, q + 1);
        let whole = acc.and_then(n).and_then(take(t, q)).and_then(rhs);
        lemma_then(acc.and_then(n).and_then(take(t, q)), rhs, t, start, q + 1);
        lemma_wrap(whole, SyntaxKind::MultiplicativeExpression, t, start);
        lemma_sound_multiplicative_rest(t, start, q + 1 + rhs.used, whole.wrap(SyntaxKind::MultiplicativeExpression));
    }
}

/// What `unary` yields is sound.
proof fn lemma_sound_unary(t: Seq<Tok>, p: nat)
    requires
        p <= t.len(),
    ensures
        sound(unary(t, p), t, p),
    decreases left(t, p), 8int,
{
    reveal(unary);
    reveal(exponentiation);
    lemma_sound_noise(t, p);
    let n = noise(t, p);
    let q = p + n.used;
    if q < t.len() && t[q as int].kind.unary().is_some() {
        lemma_take(t, q);
        lemma_sound_unary(t, q + 1);
        lemma_then(take(t, q), unary(t, q + 1), t, q, q + 1);
        lemma_wrap(take(t, q).and_then(unary(t, q + 1)), SyntaxKind::UnaryExpression, t, q);
        lemma_then(n, take(t, q).and_then(unary(t, q + 1)).wrap(SyntaxKind::UnaryExpression), t, p, q);
    } else {
        lemma_sound_exponentiation(t, q);
        lemma_then(n, exponentiation(t, q), t, p, q);
    }
}

/// `exponentiation` is its first operand and the rest behind it.
proof fn lemma_sound_exponentiation_unfold(t: Seq<Tok>, p: nat)
    ensures
        exponentiation(t, p) == exponentiation_rest(t, p + atom(t, p).used, atom(t, p)),
{
    reveal(exponentiation);
    reveal(exponentiation_rest);
    reveal(atom);
}

/// What `exponentiation` yields is sound.
proof fn lemma_sound_exponentiation(t: Seq<Tok>, p: nat)
    requires
        p <= t.len(),
    ensures
        sound(exponentiation(t, p), t, p),
    decreases left(t, p), 6int,
{
    lemma_sound_exponentiation_unfold(t, p);
    lemma_sound_atom(t, p);
    lemma_sound_exponentiation_rest(t, p, p + atom(t, p).used, atom(t, p));
}

/// What `exponentiation_rest` yields behind what is sound from `start` is sound from `start`.
proof fn lemma_sound_exponentiation_rest(t: Seq<Tok>, start: nat, p: nat, acc: Out)
    requires
        sound(acc, t, start),
        p == start + acc.used,
    ensures
        sound(exponentiation_rest(t, p, acc), t, start),
    decreases left(t, p), 0int,
{
    reveal(exponentiation_rest);
    reveal(unary);
    lemma_sound_bounds(acc, t, start);
    lemma_sound_noise(t, p);
    let n = noise(t, p);
    let q = p + n.used;
    lemma_then(acc, n, t, start, p);
    if kind_at(t, q) == Some(SyntaxKind::Pow) {
        lemma_take(t, q);
        lemma_then(acc.and_then(n), take(t, q), t, start, q);
        lemma_sound_unary(t, q + 1);
        let rhs = unary(t, q + 1);
        let whole = acc.and_then(n).and_then(take(t, q)).and_then(rhs);
        lemma_then(acc.and_then(n).and_then(take(t, q)), rhs, t, start, q + 1);
        lemma_wrap(whole, SyntaxKind::Exponentiation, t, start);
        lemma_sound_exponentiation_rest(t, start, q + 1 + rhs.used, whole.wrap(SyntaxKind::Exponentiation));
    }
}

/// What `atom` yields is sound.
proof fn lemma_sound_atom(t: Seq<Tok>, p: nat)
    requires
        p <= t.len(),
    ensures
        sound(atom(t, p), t, p),
    decreases left(t, p), 4int,
{
    reveal(atom);
    reveal(literal);
    reveal(term);
    lemma_sound_noise(t, p);
    let n = noise(t, p);
    let q = p + n.used;
    match kind_at(t, q) {
        Some(k) => {
            if is_plain_atom(k) {
                lemma_take(t, q);
                lemma_then(n, take(t, q), t, p, q);
            } else if k == SyntaxKind::Functor {
                lemma_sound_literal(t, q);
                lemma_then(n, literal(t, q), t, p, q);
            } else if k == SyntaxKind::OpenParen {
                lemma_take(t, q);
                lemma_then(n, take(t, q), t, p, q);
                lemma_sound_term(t, q + 1);
                let inner = n.and_then(take(t, q)).and_then(term(t, q + 1));
                lemma_then(n.and_then(take(t, q)), term(t, q + 1), t, p, q + 1);
                lemma_sound_closing(t, p + inner.used, SyntaxKind::CloseParen, "expected ')', got "@);
                lemma_then(
                    inner,
                    closing(t, p + inner.used, SyntaxKind::CloseParen, "expected ')', got "@),
                    t,
                    p,
                    p + inner.used,
                );
            } else {
                lemma_end(
                    n,
                    t,
                    p,
                    q,
                    message("expected atom, got "@, k),
                    Until::Never,
                    Until::DotSemiOrCloseParen,
                );
            }
        },
        None => {
            lemma_end(n, t, p, q, Seq::empty(), Until::Never, Until::Never);
        },
    }
}

/// What `literal` yields is sound.
proof fn lemma_sound_literal(t: Seq<Tok>, p: nat)
    requires
        p <= t.len(),
    ensures
        sound(literal(t, p), t, p),
    decreases left(t, p), 3int,
{
    reveal(literal);
    reveal(arguments);
    reveal(annotations);
    lemma_sound_noise(t, p);
    let n = noise(t, p);
    let q = p + n.used;
    match kind_at(t, q) {
        Some(k) => {
            if k == SyntaxKind::Functor {
                lemma_take(t, q);
                lemma_then(n, take(t, q), t, p, q);
                lemma_sound_arguments(t, q + 1);
                let args = arguments(t, q + 1);
                lemma_then(n.and_then(take(t, q)), args, t, p, q + 1);
                lemma_sound_annotations(t, q + 1 + args.used);
                let whole = n.and_then(take(t, q)).and_then(args).and_then(
                    annotations(t, q + 1 + args.used),
                );
                lemma_then(
                    n.and_then(take(t, q)).and_then(args),
                    annotations(t, q + 1 + args.used),
                    t,
                    p,
                    q + 1 + args.used,
                );
                lemma_wrap(whole, SyntaxKind::Literal, t, p);
            } else {
                let text = message("expected literal, got "@, k);
                lemma_end(n, t, p, q, text, Until::Never, Until::DotOrSemi);
                lemma_wrap(
                    n.and_then(recover(t, q, text, Until::Never, Until::DotOrSemi)),
                    SyntaxKind::Literal,
                    t,
                    p,
                );
            }
        },
        None => {
            lemma_end(n, t, p, q, Seq::empty(), Until::Never, Until::Never);
            let end = n.and_then(Out::eof());
            lemma_sound_arguments(t, q);
            let args = arguments(t, q);
            lemma_then(end, args, t, p, q);
            lemma_sound_annotations(t, q + args.used);
            lemma_then(end.and_then(args), annotations(t, q + args.used), t, p, q + args.used);
            lemma_wrap(
                end.and_then(args).and_then(annotations(t, q + args.used)),
                SyntaxKind::Literal,
                t,
                p,
            );
        },
    }
}

/// What `term_list` yields is sound.
proof fn lemma_sound_term_list(t: Seq<Tok>, p: nat)
    requires
        p <= t.len(),
    ensures
        sound(term_list(t, p), t, p),
    decreases left(t, p), 0int,
{
    reveal(term_list);
    reveal(term);
    lemma_sound_noise(t, p);
    let n = noise(t, p);
    let q = p + n.used;
    if kind_at(t, q) == Some(SyntaxKind::Comma) {
        lemma_take(t, q);
        lemma_then(n, take(t, q), t, p, q);
        lemma_sound_term(t, q + 1);
        let item = term(t, q + 1);
        lemma_then(n.and_then(take(t, q)), item, t, p, q + 1);
        lemma_sound_term_list(t, q + 1 + item.used);
        lemma_then(
            n.and_then(take(t, q)).and_then(item),
            term_list(t, q + 1 + item.used),
            t,
            p,
            q + 1 + item.used,
        );
    }
}

/// What `arguments` yields is sound.
proof fn lemma_sound_arguments(t: Seq<Tok>, p: nat)
    requires
        p <= t.len(),
    ensures
        sound(arguments(t, p), t, p),
    decreases left(t, p), 2int,
{
    reveal(arguments);
    reveal(term);
    reveal(term_list);
    lemma_sound_noise(t, p);
    let n = noise(t, p);
    let q = p + n.used;
    if kind_at(t, q) == Some(SyntaxKind::OpenParen) {
        lemma_take(t, q);
        lemma_sound_term(t, q + 1);
        let first = term(t, q + 1);
        lemma_then(take(t, q), first, t, q, q + 1);
        lemma_sound_term_list(t, q + 1 + first.used);
        let inner = take(t, q).and_then(first).and_then(term_list(t, q + 1 + first.used));
        lemma_then(
            take(t, q).and_then(first),
            term_list(t, q + 1 + first.used),
            t,
            q,
            q + 1 + first.used,
        );
        let close = closing(
            t,
            q + inner.used,
            SyntaxKind::CloseParen,
            "expected ')' to close literal, got "@,
        );
        lemma_sound_closing(
            t,
            q + inner.used,
            SyntaxKind::CloseParen,
            "expected ')' to close literal, got "@,
        );
        lemma_then(inner, close, t, q, q + inner.used);
        lemma_wrap(inner.and_then(close), SyntaxKind::LiteralTerms, t, q);
        lemma_then(n, inner.and_then(close).wrap(SyntaxKind::LiteralTerms), t, p, q);
    }
}

/// What `annotations` yields is sound.
proof fn lemma_sound_annotations(t: Seq<Tok>, p: nat)
    requires
        p <= t.len(),
    ensures
        sound(annotations(t, p), t, p),
    decreases left(t, p), 1int,
{
    reveal(annotations);
    reveal(term);
    reveal(term_list);
    lemma_sound_noise(t, p);
    let n = noise(t, p);
    let q = p + n.used;
    if kind_at(t, q) == Some(SyntaxKind::OpenBracket) {
        lemma_take(t, q);
        lemma_sound_noise(t, q + 1);
        let open = take(t, q).and_then(noise(t, q + 1));
        lemma_then(take(t, q), noise(t, q + 1), t, q, q + 1);
        if kind_at(t, q + open.used) == Some(SyntaxKind::CloseBracket) {
            lemma_take(t, q + open.used);
            lemma_then(open, take(t, q + open.used), t, q, q + open.used);
            lemma_wrap(open.and_then(take(t, q + open.used)), SyntaxKind::LiteralAnnotations, t, q);
            lemma_then(
                n,
                open.and_then(take(t, q + open.used)).wrap(SyntaxKind::LiteralAnnotations),
                t,
                p,
                q,
            );
        } else {
            lemma_sound_term(t, q + open.used);
            let first = term(t, q + open.used);
            lemma_then(open, first, t, q, q + open.used);
            lemma_sound_term_list(t, q + open.used + first.used);
            let list = open.and_then(first).and_then(term_list(t, q + open.used + first.used));
            lemma_then(
                open.and_then(first),
                term_list(t, q + open.used + first.used),
                t,
                q,
                q + open.used + first.used,
            );
            let close = closing(
                t,
                q + list.used,
                SyntaxKind::CloseBracket,
                "expected ']' to close literal annotation, got "@,
            );
            lemma_sound_closing(
                t,
                q + list.used,
                SyntaxKind::CloseBracket,
                "expected ']' to close literal annotation, got "@,
            );
            lemma_then(list, close, t, q, q + list.used);
            lemma_wrap(list.and_then(close), SyntaxKind::LiteralAnnotations, t, q);
            lemma_then(n, list.and_then(close).wrap(SyntaxKind::LiteralAnnotations), t, p, q);
        }
    }
}

/// What `formula` yields is sound.
proof fn lemma_sound_formula(t: Seq<Tok>, p: nat)
    requires
        p <= t.len(),
    ensures
        sound(formula(t, p), t, p),
{
    reveal(formula);
    lemma_sound_noise(t, p);
    let n = noise(t, p);
    let q = p + n.used;
    if q < t.len() && t[q as int].kind.formula().is_some() {
        lemma_take(t, q);
        lemma_then(n, take(t, q), t, p, q);
        lemma_sound_term(t, q + 1);
        lemma_then(n.and_then(take(t, q)), term(t, q + 1), t, p, q + 1);
        lemma_wrap(n.and_then(take(t, q)).and_then(term(t, q + 1)), SyntaxKind::Formula, t, p);
    } else if q < t.len() {
        lemma_sound_term(t, q);
        lemma_then(n, term(t, q), t, p, q);
        lemma_wrap(n.and_then(term(t, q)), SyntaxKind::Formula, t, p);
    } else {
        lemma_end(n, t, p, q, Seq::empty(), Until::Never, Until::Never);
        lemma_sound_term(t, q);
        lemma_then(n.and_then(Out::eof()), term(t, q), t, p, q);
        lemma_wrap(n.and_then(Out::eof()).and_then(term(t, q)), SyntaxKind::Formula, t, p);
    }
}

/// What `body` yields is sound.
proof fn lemma_sound_body(t: Seq<Tok>, p: nat)
    requires
        p <= t.len(),
    ensures
        sound(body(t, p), t, p),
    decreases left(t, p),
{
    reveal(body);
    lemma_sound_formula(t, p);
    let first = formula(t, p);
    lemma_sound_bounds(first, t, p);
    lemma_sound_noise(t, p + first.used);
    let head = first.and_then(noise(t, p + first.used));
    lemma_then(first, noise(t, p + first.used), t, p, p + first.used);
    let q = p + head.used;
    match kind_at(t, q) {
        Some(k) => {
            let text = message("expected ';' or '.', got "@, k);
            lemma_end(head, t, p, q, text, Until::DotOrSemi, Until::Never);
            if k == SyntaxKind::Semi {
                lemma_sound_body(t, q + 1);
                lemma_then(head.and_then(take(t, q)), body(t, q + 1), t, p, q + 1);
            } else if k == SyntaxKind::Dot {
            } else {
                let lost = recover(t, q, text, Until::DotOrSemi, Until::Never);
                lemma_recover_progress(t, q, Until::DotOrSemi);
                lemma_sound_bounds(head.and_then(lost), t, p);
                lemma_sound_body(t, q + lost.used);
                lemma_then(head.and_then(lost), body(t, q + lost.used), t, p, q + lost.used);
            }
        },
        None => {
            lemma_end(head, t, p, q, Seq::empty(), Until::Never, Until::Never);
        },
    }
}

/// What `plan_annotations` yields is sound.
proof fn lemma_sound_plan_annotations(t: Seq<Tok>, p: nat)
    requires
        p <= t.len(),
    ensures
        sound(plan_annotations(t, p), t, p),
    decreases left(t, p),
{
    reveal(plan_annotations);
    lemma_sound_noise(t, p);
    let n = noise(t, p);
    let q = p + n.used;
    if kind_at(t, q) == Some(SyntaxKind::At) {
        lemma_take(t, q);
        lemma_sound_literal(t, q + 1);
        let note = take(t, q).and_then(literal(t, q + 1));
        lemma_then(take(t, q), literal(t, q + 1), t, q, q + 1);
        lemma_wrap(note, SyntaxKind::PlanAnnotation, t, q);
        lemma_then(n, note.wrap(SyntaxKind::PlanAnnotation), t, p, q);
        lemma_sound_plan_annotations(t, q + note.used);
        lemma_then(
            n.and_then(note.wrap(SyntaxKind::PlanAnnotation)),
            plan_annotations(t, q + note.used),
            t,
            p,
            q + note.used,
        );
    }
}

/// What `plan` yields is sound.
proof fn lemma_sound_plan(t: Seq<Tok>, p: nat)
    requires
        p <= t.len(),
    ensures
        sound(plan(t, p), t, p),
{
    reveal(plan);
    lemma_sound_plan_annotations(t, p);
    let notes = plan_annotations(t, p);
    lemma_sound_bounds(notes, t, p);
    let text = "expected '+' or '-' for plan trigger"@;
    let mark = Out::error(text, p + notes.used);
    lemma_error(text, t, p + notes.used);
    lemma_then(notes, mark, t, p, p + notes.used);
    if p + notes.used < t.len() {
        lemma_take(t, p + notes.used);
        lemma_then(notes, take(t, p + notes.used), t, p, p + notes.used);
    }
    let signed = match kind_at(t, p + notes.used) {
        Some(k) => if k == SyntaxKind::Plus || k == SyntaxKind::Minus {
            notes.and_then(take(t, p + notes.used))
        } else {
            notes.and_then(mark)
        },
        None => notes.and_then(mark),
    };
    lemma_sound_bounds(signed, t, p);
    lemma_sound_noise(t, p + signed.used);
    let sign = signed.and_then(noise(t, p + signed.used));
    lemma_then(signed, noise(t, p + signed.used), t, p, p + signed.used);
    if p + sign.used < t.len() {
        lemma_take(t, p + sign.used);
        lemma_then(sign, take(t, p + sign.used), t, p, p + sign.used);
    }
    let trigger = if kind_at(t, p + sign.used) == Some(SyntaxKind::Bang) {
        sign.and_then(take(t, p + sign.used))
    } else {
        sign
    };
    lemma_sound_bounds(trigger, t, p);
    lemma_sound_literal(t, p + trigger.used);
    let event = trigger.and_then(literal(t, p + trigger.used));
    lemma_then(trigger, literal(t, p + trigger.used), t, p, p + trigger.used);
    lemma_sound_noise(t, p + event.used);
    let head = event.and_then(noise(t, p + event.used));
    lemma_then(event, noise(t, p + event.used), t, p, p + event.used);
    if p + head.used < t.len() {
        let at = p + head.used;
        lemma_take(t, at);
        lemma_then(head, take(t, at), t, p, at);
        lemma_sound_term(t, at + 1);
        lemma_wrap(term(t, at + 1), SyntaxKind::PlanContext, t, at + 1);
        lemma_then(
            head.and_then(take(t, at)),
            term(t, at + 1).wrap(SyntaxKind::PlanContext),
            t,
            p,
            at + 1,
        );
    }
    let context = if kind_at(t, p + head.used) == Some(SyntaxKind::Colon) {
        head.and_then(take(t, p + head.used)).and_then(
            term(t, p + head.used + 1).wrap(SyntaxKind::PlanContext),
        )
    } else {
        head
    };
    lemma_sound_bounds(context, t, p);
    lemma_sound_noise(t, p + context.used);
    let guarded = context.and_then(noise(t, p + context.used));
    lemma_then(context, noise(t, p + context.used), t, p, p + context.used);
    if p + guarded.used < t.len() {
        let at = p + guarded.used;
        lemma_take(t, at);
        lemma_then(guarded, take(t, at), t, p, at);
        lemma_sound_body(t, at + 1);
        lemma_wrap(body(t, at + 1), SyntaxKind::Body, t, at + 1);
        lemma_then(guarded.and_then(take(t, at)), body(t, at + 1).wrap(SyntaxKind::Body), t, p, at + 1);
    }
    let whole = if kind_at(t, p + guarded.used) == Some(SyntaxKind::Arrow) {
        guarded.and_then(take(t, p + guarded.used)).and_then(
            body(t, p + guarded.used + 1).wrap(SyntaxKind::Body),
        )
    } else {
        guarded
    };
    lemma_wrap(whole, SyntaxKind::Plan, t, p);
}

/// What `clause` yields is sound.
proof fn lemma_sound_clause(t: Seq<Tok>, p: nat)
    requires
        p <= t.len(),
    ensures
        sound(clause(t, p), t, p),
{
    reveal(clause);
    lemma_sound_literal(t, p);
    let lit = literal(t, p);
    lemma_sound_bounds(lit, t, p);
    lemma_sound_noise(t, p + lit.used);
    let head = lit.and_then(noise(t, p + lit.used));
    lemma_then(lit, noise(t, p + lit.used), t, p, p + lit.used);
    let is_rule = kind_at(t, p + head.used) == Some(SyntaxKind::Define);
    if is_rule {
        let at = p + head.used;
        lemma_take(t, at);
        lemma_then(head, take(t, at), t, p, at);
        lemma_sound_term(t, at + 1);
        let defined = head.and_then(take(t, at)).and_then(term(t, at + 1));
        lemma_then(head.and_then(take(t, at)), term(t, at + 1), t, p, at + 1);
        lemma_sound_bounds(defined, t, p);
        lemma_sound_noise(t, p + defined.used);
        lemma_then(defined, noise(t, p + defined.used), t, p, p + defined.used);
    }
    let inner = if is_rule {
        let defined = head.and_then(take(t, p + head.used)).and_then(term(t, p + head.used + 1));
        defined.and_then(noise(t, p + defined.used))
    } else {
        head
    };
    let text = "expected '.' after rule or belief"@;
    lemma_end(inner, t, p, p + inner.used, text, Until::Dot, Until::Never);
    let end = if kind_at(t, p + inner.used) == Some(SyntaxKind::Dot) {
        take(t, p + inner.used)
    } else {
        recover(t, p + inner.used, text, Until::Dot, Until::Never)
    };
    lemma_wrap(inner.and_then(end), SyntaxKind::Rule, t, p);
    lemma_wrap(inner.and_then(end), SyntaxKind::Belief, t, p);
}

/// What `initial_goal` yields is sound.
proof fn lemma_sound_initial_goal(t: Seq<Tok>, p: nat)
    requires
        p < t.len(),
    ensures
        sound(initial_goal(t, p), t, p),
{
    reveal(initial_goal);
    lemma_take(t, p);
    lemma_sound_noise(t, p + 1);
    let bang = take(t, p).and_then(noise(t, p + 1));
    lemma_then(take(t, p), noise(t, p + 1), t, p, p + 1);
    match kind_at(t, p + bang.used) {
        Some(k) => {
            if k == SyntaxKind::Functor {
                lemma_sound_literal(t, p + bang.used);
                let goal = bang.and_then(literal(t, p + bang.used));
                lemma_then(bang, literal(t, p + bang.used), t, p, p + bang.used);
                lemma_sound_bounds(goal, t, p);
                lemma_sound_noise(t, p + goal.used);
                let end = goal.and_then(noise(t, p + goal.used));
                lemma_then(goal, noise(t, p + goal.used), t, p, p + goal.used);
                match kind_at(t, p + end.used) {
                    Some(k2) => {
                        let text = message("expected '.' after initial goal, got "@, k2);
                        lemma_end(end, t, p, p + end.used, text, Until::Dot, Until::Never);
                        lemma_wrap(
                            end.and_then(take(t, p + end.used)),
                            SyntaxKind::InitialGoal,
                            t,
                            p,
                        );
                        lemma_wrap(
                            end.and_then(recover(t, p + end.used, text, Until::Dot, Until::Never)),
                            SyntaxKind::InitialGoal,
                            t,
                            p,
                        );
                    },
                    None => {
                        lemma_end(end, t, p, p + end.used, Seq::empty(), Until::Dot, Until::Never);
                        lemma_wrap(end.and_then(Out::eof()), SyntaxKind::InitialGoal, t, p);
                    },
                }
            } else {
                let text = message("expected functor after '!', got "@, k);
                lemma_end(bang, t, p, p + bang.used, text, Until::Dot, Until::Never);
                lemma_wrap(
                    bang.and_then(recover(t, p + bang.used, text, Until::Dot, Until::Never)),
                    SyntaxKind::InitialGoal,
                    t,
                    p,
                );
            }
        },
        None => {
            lemma_end(bang, t, p, p + bang.used, Seq::empty(), Until::Dot, Until::Never);
            lemma_wrap(bang.and_then(Out::eof()), SyntaxKind::InitialGoal, t, p);
        },
    }
}

/// What `statement` yields is sound.
proof fn lemma_sound_statement(t: Seq<Tok>, p: nat)
    requires
        p < t.len(),
    ensures
        sound(statement(t, p), t, p),
{
    let k = t[p as int].kind;
    if k == SyntaxKind::Functor {
        lemma_sound_clause(t, p);
    } else if k == SyntaxKind::Bang {
        lemma_sound_initial_goal(t, p);
    } else if k == SyntaxKind::At || k == SyntaxKind::Plus || k == SyntaxKind::Minus {
        lemma_sound_plan(t, p);
    } else {
        lemma_sound_recover(t, p, message("unexpected token "@, k), Until::Dot, Until::Never);
    }
}

/// What the grammar yields for a text from position `p` on is sound, and it
/// takes every token that is left.
pub proof fn lemma_sound_program(t: Seq<Tok>, p: nat)
    requires
        p <= t.len(),
    ensures
        sound(program(t, p), t, p),
        p + program(t, p).used == t.len(),
    decreases left(t, p),
{
    reveal(program);
    lemma_sound_noise(t, p);
    lemma_noise_stops(t, p);
    let n = noise(t, p);
    let q = p + n.used;
    if q < t.len() {
        lemma_sound_statement(t, q);
        lemma_statement_progress(t, q);
        let first = statement(t, q);
        lemma_then(n, first, t, p, q);
        lemma_sound_program(t, q + first.used);
        lemma_then(n.and_then(first), program(t, q + first.used), t, p, q + first.used);
    }
}

/// The texts of the first `n` tokens of a lexed text, one after the other,
/// are the text up to the end of the last of them.
pub proof fn lemma_tokens_text(lexed: &LexedStr, n: nat)
    requires
        lexed.wf(),
        n <= lexed.count(),
    ensures
        leaves_text(token_leaves(lexed.toks(), 0, n)) == lexed.source().subrange(
            0,
            lexed.cuts()[n as int],
        ),
    decreases n,
{
    let t = lexed.toks();
    let src = lexed.source();
    if n == 0 {
        assert(src.subrange(0, 0) =~= Seq::<char>::empty());
    } else {
        lemma_tokens_text(lexed, (n - 1) as nat);
        let all = token_leaves(t, 0, n);
        assert(all.drop_last() =~= token_leaves(t, 0, (n - 1) as nat));
        assert(all.last() == leaf(t, (n - 1) as nat));
        let a = lexed.cuts()[n - 1];
        let b = lexed.cuts()[n as int];
        assert(src.subrange(0, a) + src.subrange(a, b) =~= src.subrange(0, b));
    }
}

/// Losslessness of the tree: the leaves of the tree that the grammar states
/// for a lexed text are the tokens of the text, in order, and their texts one
/// after the other are the text.
pub proof fn lemma_tree_lossless(lexed: &LexedStr)
    requires
        lexed.wf(),
    ensures
        forest_leaves(program(lexed.toks(), 0).items) == token_leaves(
            lexed.toks(),
            0,
            lexed.count(),
        ),
        leaves_text(forest_leaves(program(lexed.toks(), 0).items)) == lexed.source(),
{
    let t = lexed.toks();
    lemma_sound_program(t, 0);
    reveal(sound);
    lemma_tokens_text(lexed, lexed.count());
    assert(lexed.source().subrange(0, lexed.source().len() as int) =~= lexed.source());
}

/// One root: under the `Root` node that holds what the grammar states for a
/// text, no node is a `Root`.
pub proof fn lemma_single_root(t: Seq<Tok>)
    ensures
        forest_free_of(program(t, 0).items, SyntaxKind::Root.raw()),
{
    lemma_sound_program(t, 0);
    reveal(sound);
}

/// Each error that the grammar states for a text names a token of the text,
/// or the end of the text.
pub proof fn lemma_errors_in_text(t: Seq<Tok>)
    ensures
        forall|i: int|
            0 <= i < program(t, 0).errors.len() ==> (#[trigger] program(t, 0).errors[i]).token_idx
                <= t.len(),
{
    lemma_sound_program(t, 0);
    reveal(sound);
}

} // verus!
