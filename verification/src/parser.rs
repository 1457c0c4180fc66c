use crate::grammar::{
    additive, additive_rest, annotations, arguments, atom, body, clause, closing, comparison,
    conjunction, conjunction_rest, exponentiation, exponentiation_rest, formula, initial_goal,
    is_plain_atom_kind, kind_at, left, lemma_and_then_assoc, lemma_and_then_empty, lemma_annotations, lemma_arguments,
    lemma_empty_and_then, lemma_noise_stops, lemma_recover_progress, lemma_regroup3,
    lemma_statement_progress, lemma_regroup4, literal, message, multiplicative,
    multiplicative_rest, negation, noise, plan, plan_annotations, program, recover, skip,
    statement, stop_at, take, term, term_list, term_rest, unary, Diagnostic, Out, Until,
};
use crate::soundness::{lemma_errors_in_text, lemma_tree_lossless, token_leaves};
use crate::syntax::{LexedStr, LexedStrIter, SyntaxKind, Tok, TokenIdx};
use crate::text::byte_len;
use crate::tree::{
    builder_checkpoint, builder_children, builder_finish, builder_finish_node, builder_new,
    builder_parents, builder_start_node, builder_start_node_at, builder_token,
    checkpoint_index, forest_bytes, green_tree, leaves_text, lemma_forest_bytes_add,
    lemma_forest_bytes_push, parents_ordered, tree_leaves, OpenNode, Tree,
};
use vstd::prelude::*;
use vstd::string::StringExecFns;

verus! {


/// What parsing yields: the tree, the syntactic errors, and whether the input
/// ended where a token was expected.
#[derive(Debug)]
pub struct Parsed {
    pub green_node: rowan::GreenNode,
    pub errors: Vec<ParserError>,
    pub unexpected_eof: bool,
}

/// A syntactic error: what was expected, and the index of the token at which
/// it was found.
#[derive(Debug)]
pub struct ParserError {
    pub message: String,
    pub token_idx: TokenIdx,
}

impl View for ParserError {
    type V = Diagnostic;

    open spec fn view(&self) -> Diagnostic {
        Diagnostic { message: self.message@, token_idx: self.token_idx.0 as nat }
    }
}

impl ParserError {
    /// The message.
    pub fn to_string(&self) -> (text: String)
        ensures
            text@ == self.message@,
    {
        self.message.clone()
    }
}

/// The errors of a list as the grammar states them.
pub open spec fn diagnostics_of(errors: Seq<ParserError>) -> Seq<Diagnostic> {
    Seq::new(errors.len(), |i: int| errors[i]@)
}

impl Parsed {
    /// The tree.
    pub open spec fn tree(&self) -> Tree {
        green_tree(self.green_node)
    }

    /// The errors, in the order in which they were found.
    pub open spec fn diagnostics(&self) -> Seq<Diagnostic> {
        diagnostics_of(self.errors@)
    }
}

/// A state of the parser to which later states are compared.
struct Frame<'a> {
    lexed: LexedStr<'a>,
    pos: nat,
    children: Seq<Tree>,
    parents: Seq<OpenNode>,
    errors: Seq<Diagnostic>,
    eof: bool,
}

impl<'a> Frame<'a> {
    /// The frame in which a node of kind `kind` was opened behind `acc`.
    spec fn opened(self, acc: Out, kind: SyntaxKind) -> Frame<'a> {
        Frame {
            lexed: self.lexed,
            pos: self.pos + acc.used,
            children: self.children + acc.items,
            parents: self.parents.push(
                OpenNode { kind: kind.raw(), first_child: self.children.len() + acc.items.len() },
            ),
            errors: self.errors + acc.errors,
            eof: self.eof || acc.eof,
        }
    }
}

/// The state of a parse: the tree under construction, the place in the
/// tokens, and what was found wrong so far.
struct Parser<'a> {
    builder: rowan::GreenNodeBuilder<'static>,
    tokens: LexedStrIter<'a>,
    errors: Vec<ParserError>,
    unexpected_eof: bool,
}

impl<'a> Parser<'a> {
    /// The tokens of the text.
    spec fn toks(&self) -> Seq<Tok> {
        self.tokens.lexed().toks()
    }

    /// Index of the next token.
    spec fn pos(&self) -> nat {
        self.tokens.index()
    }

    /// The cursor stands in its text, the open nodes are in order, and the
    /// builder has counted the bytes of the tokens that were taken.
    #[verifier::opaque]
    spec fn wf(&self) -> bool {
        &&& self.tokens.wf()
        &&& parents_ordered(builder_parents(self.builder), builder_children(self.builder).len())
        &&& byte_len(self.tokens.lexed().source()) <= u32::MAX
        &&& forest_bytes(builder_children(self.builder)) == self.tokens.lexed().starts()[self.pos() as int]
    }

    /// The parser has gone on from `base` by `out`.
    #[verifier::opaque]
    spec fn reached(&self, base: Frame<'a>, out: Out) -> bool {
        &&& self.tokens.lexed() == base.lexed
        &&& self.pos() == base.pos + out.used
        &&& builder_children(self.builder) == base.children + out.items
        &&& builder_parents(self.builder) == base.parents
        &&& diagnostics_of(self.errors@) == base.errors + out.errors
        &&& self.unexpected_eof == (base.eof || out.eof)
    }

    /// The state as a frame.
    spec fn frame(&self) -> Frame<'a> {
        Frame {
            lexed: self.tokens.lexed(),
            pos: self.pos(),
            children: builder_children(self.builder),
            parents: builder_parents(self.builder),
            errors: diagnostics_of(self.errors@),
            eof: self.unexpected_eof,
        }
    }

    /// A parser has gone on from its own state by nothing.
    proof fn lemma_reached_self(&self)
        ensures
            self.reached(self.frame(), Out::empty()),
    {
        reveal(Parser::reached);
        assert(builder_children(self.builder) + Seq::<Tree>::empty() =~= builder_children(
            self.builder,
        ));
        assert(diagnostics_of(self.errors@) + Seq::<Diagnostic>::empty() =~= diagnostics_of(
            self.errors@,
        ));
    }

    /// Takes the next token into the tree.
    fn bump(&mut self, Ghost(base): Ghost<Frame<'a>>, Ghost(acc): Ghost<Out>)
        requires
            old(self).wf(),
            old(self).reached(base, acc),
            old(self).pos() < old(self).toks().len(),
        ensures
            final(self).wf(),
            final(self).reached(base, acc.and_then(take(old(self).toks(), old(self).pos()))),
            final(self).toks() == old(self).toks(),
            final(self).pos() == old(self).pos() + 1,
    {
        proof {
            reveal(Parser::wf);
            reveal(Parser::reached);
            self.tokens.lexed().lemma_token_bytes(self.pos() as int);
        }
        let (token, text) = self.tokens.next().unwrap();
        builder_token(&mut self.builder, token.to_raw(), text);
        proof {
            let t = old(self).toks();
            let p = old(self).pos();
            lemma_forest_bytes_push(
                builder_children(old(self).builder),
                Tree::Token { kind: token.raw(), text: text@ },
            );
            assert(builder_children(self.builder) =~= base.children + acc.and_then(
                take(t, p),
            ).items);
            assert(base.errors + acc.and_then(take(t, p)).errors =~= base.errors + acc.errors);
        }
    }

    /// Takes the whitespace and the comments that come next into the tree.
    fn skip_noise(&mut self, Ghost(base): Ghost<Frame<'a>>, Ghost(acc): Ghost<Out>)
        requires
            old(self).wf(),
            old(self).reached(base, acc),
        ensures
            final(self).wf(),
            final(self).reached(base, acc.and_then(noise(old(self).toks(), old(self).pos()))),
            final(self).toks() == old(self).toks(),
            final(self).pos() == old(self).pos() + noise(old(self).toks(), old(self).pos()).used,
            noise(final(self).toks(), final(self).pos()) == Out::empty(),
    {
        let ghost t = self.toks();
        let ghost start = self.pos();
        let ghost mut seen = Out::empty();
        proof {
            lemma_and_then_empty(acc);
            lemma_empty_and_then(noise(t, start));
        }
        loop
            invariant
                self.wf(),
                self.toks() == t,
                self.reached(base, acc.and_then(seen)),
                self.pos() == start + seen.used,
                noise(t, start) == seen.and_then(noise(t, self.pos())),
            ensures
                self.wf(),
                self.toks() == t,
                self.reached(base, acc.and_then(noise(t, start))),
                self.pos() == start + noise(t, start).used,
                noise(self.toks(), self.pos()) == Out::empty(),
            decreases left(t, self.pos()),
        {
            proof {
                reveal(noise);
                reveal(Parser::wf);
                lemma_and_then_empty(seen);
            }
            match self.tokens.peek() {
                Some((kind, _)) => {
                    if kind.is_noise_kind() {
                        let ghost q = self.pos();
                        self.bump(Ghost(base), Ghost(acc.and_then(seen)));
                        proof {
                            lemma_and_then_assoc(acc, seen, take(t, q));
                            lemma_and_then_assoc(seen, take(t, q), noise(t, q + 1));
                            seen = seen.and_then(take(t, q));
                        }
                    } else {
                        break ;
                    }
                },
                None => {
                    break ;
                },
            }
        }
    }

    /// The kind of the next token that is no noise. The noise before it goes
    /// into the tree as it is passed.
    fn current(&mut self, Ghost(base): Ghost<Frame<'a>>, Ghost(acc): Ghost<Out>) -> (kind: Option<
        SyntaxKind,
    >)
        requires
            old(self).wf(),
            old(self).reached(base, acc),
        ensures
            final(self).wf(),
            final(self).reached(base, acc.and_then(noise(old(self).toks(), old(self).pos()))),
            final(self).toks() == old(self).toks(),
            final(self).pos() == old(self).pos() + noise(old(self).toks(), old(self).pos()).used,
            noise(final(self).toks(), final(self).pos()) == Out::empty(),
            kind == kind_at(final(self).toks(), final(self).pos()),
    {
        self.skip_noise(Ghost(base), Ghost(acc));
        proof {
            reveal(Parser::wf);
        }
        match self.tokens.peek() {
            Some((token, _)) => Some(token),
            None => None,
        }
    }

    /// `bump` as the first step in a node that was just opened.
    fn bump_first(&mut self, Ghost(base): Ghost<Frame<'a>>)
        requires
            old(self).wf(),
            old(self).reached(base, Out::empty()),
            old(self).pos() < old(self).toks().len(),
        ensures
            final(self).wf(),
            final(self).reached(base, take(old(self).toks(), old(self).pos())),
            final(self).toks() == old(self).toks(),
            final(self).pos() == old(self).pos() + 1,
    {
        proof {
            lemma_empty_and_then(take(self.toks(), self.pos()));
        }
        self.bump(Ghost(base), Ghost(Out::empty()));
    }

    /// `current` as the first step in a node that was just opened.
    fn current_first(&mut self, Ghost(base): Ghost<Frame<'a>>) -> (kind: Option<SyntaxKind>)
        requires
            old(self).wf(),
            old(self).reached(base, Out::empty()),
        ensures
            final(self).wf(),
            final(self).reached(base, noise(old(self).toks(), old(self).pos())),
            final(self).toks() == old(self).toks(),
            final(self).pos() == old(self).pos() + noise(old(self).toks(), old(self).pos()).used,
            noise(final(self).toks(), final(self).pos()) == Out::empty(),
            kind == kind_at(final(self).toks(), final(self).pos()),
    {
        proof {
            lemma_empty_and_then(noise(self.toks(), self.pos()));
        }
        self.current(Ghost(base), Ghost(Out::empty()))
    }

    /// Marks the place behind what came so far, for a node that may later
    /// take in what comes from here on.
    fn checkpoint(&self, Ghost(base): Ghost<Frame<'a>>, Ghost(acc): Ghost<Out>) -> (checkpoint:
        rowan::Checkpoint)
        requires
            self.wf(),
            self.reached(base, acc),
        ensures
            checkpoint_index(checkpoint) == base.children.len() + acc.items.len(),
            parents_ordered(base.parents, base.children.len() + acc.items.len()),
    {
        proof {
            reveal(Parser::wf);
            reveal(Parser::reached);
        }
        builder_checkpoint(&self.builder)
    }

    /// Opens a node of kind `kind`.
    fn start_node(&mut self, kind: SyntaxKind, Ghost(base): Ghost<Frame<'a>>, Ghost(acc): Ghost<Out>)
        requires
            old(self).wf(),
            old(self).reached(base, acc),
        ensures
            final(self).wf(),
            final(self).reached(base.opened(acc, kind), Out::empty()),
            final(self).toks() == old(self).toks(),
            final(self).pos() == old(self).pos(),
    {
        proof {
            reveal(Parser::wf);
            reveal(Parser::reached);
        }
        builder_start_node(&mut self.builder, kind.to_raw());
        proof {
            let inner = base.opened(acc, kind);
            assert(inner.children + Seq::<Tree>::empty() =~= inner.children);
            assert(inner.errors + Seq::<Diagnostic>::empty() =~= inner.errors);
        }
    }

    /// Opens a node of kind `kind` that takes in all that came behind
    /// `before`: the checkpoint was taken where the parser had reached
    /// `before` from `base`.
    fn start_node_at(
        &mut self,
        checkpoint: rowan::Checkpoint,
        kind: SyntaxKind,
        Ghost(base): Ghost<Frame<'a>>,
        Ghost(before): Ghost<Out>,
        Ghost(since): Ghost<Out>,
    )
        requires
            old(self).wf(),
            old(self).reached(base, before.and_then(since)),
            checkpoint_index(checkpoint) == base.children.len() + before.items.len(),
            parents_ordered(base.parents, base.children.len() + before.items.len()),
        ensures
            final(self).wf(),
            final(self).reached(base.opened(before, kind), since),
            final(self).toks() == old(self).toks(),
            final(self).pos() == old(self).pos(),
    {
        proof {
            reveal(Parser::wf);
            reveal(Parser::reached);
        }
        builder_start_node_at(&mut self.builder, checkpoint, kind.to_raw());
        proof {
            let inner = base.opened(before, kind);
            assert(inner.children + since.items =~= base.children + before.and_then(since).items);
            assert(inner.errors + since.errors =~= base.errors + before.and_then(since).errors);
        }
    }

    /// Closes the innermost open node: it holds all that came since it was
    /// opened.
    fn finish_node(
        &mut self,
        Ghost(base): Ghost<Frame<'a>>,
        Ghost(acc): Ghost<Out>,
        Ghost(kind): Ghost<SyntaxKind>,
        Ghost(inner): Ghost<Out>,
    )
        requires
            old(self).wf(),
            old(self).reached(base.opened(acc, kind), inner),
        ensures
            final(self).wf(),
            final(self).reached(base, acc.and_then(inner.wrap(kind))),
            final(self).toks() == old(self).toks(),
            final(self).pos() == old(self).pos(),
    {
        let ghost open = base.opened(acc, kind);
        proof {
            reveal(Parser::wf);
            reveal(Parser::reached);
            self.tokens.lexed().lemma_token_bytes(self.pos() as int);
            let first = (base.children.len() + acc.items.len()) as int;
            let pending = builder_children(self.builder);
            assert(pending.take(first) + pending.skip(first) =~= pending);
            lemma_forest_bytes_add(pending.take(first), pending.skip(first));
        }
        builder_finish_node(&mut self.builder);
        proof {
            let first = base.children.len() + acc.items.len();
            let pending = open.children + inner.items;
            lemma_forest_bytes_push(
                pending.take(first as int),
                Tree::Node { kind: kind.raw(), children: pending.skip(first as int) },
            );
            assert(open.parents.last().first_child == first);
            assert(open.parents.drop_last() =~= base.parents);
            assert(pending.take(first as int) =~= base.children + acc.items);
            assert(pending.skip(first as int) =~= inner.items);
            assert(builder_children(self.builder) =~= base.children + acc.and_then(
                inner.wrap(kind),
            ).items);
            assert(base.errors + acc.and_then(inner.wrap(kind)).errors =~= open.errors
                + inner.errors);
        }
    }

    /// Reports `message` at the current token.
    fn push_error(&mut self, message: String, Ghost(base): Ghost<Frame<'a>>, Ghost(acc): Ghost<Out>)
        requires
            old(self).wf(),
            old(self).reached(base, acc),
        ensures
            final(self).wf(),
            final(self).reached(base, acc.and_then(Out::error(message@, old(self).pos()))),
            final(self).toks() == old(self).toks(),
            final(self).pos() == old(self).pos(),
    {
        proof {
            reveal(Parser::wf);
            reveal(Parser::reached);
        }
        let ghost added = Out::error(message@, self.pos());
        let error = ParserError { message, token_idx: self.tokens.current_token_idx() };
        self.errors.push(error);
        proof {
            assert(diagnostics_of(self.errors@) =~= diagnostics_of(old(self).errors@).push(error@));
            assert(diagnostics_of(self.errors@) =~= base.errors + acc.and_then(added).errors);
            assert(base.children + acc.and_then(added).items =~= base.children + acc.items);
        }
    }

    /// Notes that the input ended where a token was expected.
    fn note_eof(&mut self, Ghost(base): Ghost<Frame<'a>>, Ghost(acc): Ghost<Out>)
        requires
            old(self).wf(),
            old(self).reached(base, acc),
        ensures
            final(self).wf(),
            final(self).reached(base, acc.and_then(Out::eof())),
            final(self).toks() == old(self).toks(),
            final(self).pos() == old(self).pos(),
    {
        proof {
            reveal(Parser::wf);
            reveal(Parser::reached);
        }
        self.unexpected_eof = true;
        proof {
            assert(base.children + acc.and_then(Out::eof()).items =~= base.children + acc.items);
            assert(base.errors + acc.and_then(Out::eof()).errors =~= base.errors + acc.errors);
        }
    }
}


/// `prefix`, then the name of the kind that was found.
fn describe(prefix: &str, found: SyntaxKind) -> (text: String)
    ensures
        text@ == message(prefix@, found),
{
    let mut text = prefix.to_owned();
    text.append(found.name());
    text
}

impl<'a> Parser<'a> {
    /// Reports `message` at the current token and puts the tokens from there
    /// under one `Error` node: up to a token of a kind in `exclusive`, which
    /// stays, or up to and including one of a kind in `inclusive`, or to the
    /// end of the input.
    fn recover(
        &mut self,
        message: String,
        inclusive: Until,
        exclusive: Until,
        Ghost(base): Ghost<Frame<'a>>,
        Ghost(acc): Ghost<Out>,
    )
        requires
            old(self).wf(),
            old(self).reached(base, acc),
        ensures
            final(self).wf(),
            final(self).reached(
                base,
                acc.and_then(
                    recover(old(self).toks(), old(self).pos(), message@, inclusive, exclusive),
                ),
            ),
            final(self).toks() == old(self).toks(),
            final(self).pos() == old(self).pos() + recover(
                old(self).toks(),
                old(self).pos(),
                message@,
                inclusive,
                exclusive,
            ).used,
    {
        let ghost t = self.toks();
        let ghost p = self.pos();
        let ghost text = message@;
        self.push_error(message, Ghost(base), Ghost(acc));
        let ghost outer = acc.and_then(Out::error(text, p));
        self.start_node(SyntaxKind::Error, Ghost(base), Ghost(outer));
        let ghost inner = base.opened(outer, SyntaxKind::Error);
        let ghost mut held = Out::empty();
        proof {
            lemma_empty_and_then(skip(t, p, inclusive, exclusive));
        }
        loop
            invariant_except_break
                self.wf(),
                self.toks() == t,
                self.reached(inner, held),
                self.pos() == p + held.used,
                skip(t, p, inclusive, exclusive) == held.and_then(
                    skip(t, self.pos(), inclusive, exclusive),
                ),
            ensures
                self.wf(),
                self.toks() == t,
                self.reached(inner, skip(t, p, inclusive, exclusive)),
                self.pos() == p + skip(t, p, inclusive, exclusive).used,
            decreases left(t, self.pos()),
        {
            let ghost at = self.pos();
            let ghost n = noise(t, at);
            proof {
                reveal(skip);
            }
            match self.current(Ghost(inner), Ghost(held)) {
                Some(token) => {
                    if exclusive.test(token) {
                        break ;
                    }
                    let ghost q = self.pos();
                    self.bump(Ghost(inner), Ghost(held.and_then(n)));
                    proof {
                        lemma_and_then_assoc(held, n, take(t, q));
                        lemma_regroup3(held, n, take(t, q), skip(t, q + 1, inclusive, exclusive));
                        held = held.and_then(n).and_then(take(t, q));
                    }
                    if inclusive.test(token) {
                        break ;
                    }
                },
                None => {
                    break ;
                },
            }
        }
        self.finish_node(
            Ghost(base),
            Ghost(outer),
            Ghost(SyntaxKind::Error),
            Ghost(skip(t, p, inclusive, exclusive)),
        );
        proof {
            lemma_and_then_assoc(
                acc,
                Out::error(text, p),
                skip(t, p, inclusive, exclusive).wrap(SyntaxKind::Error),
            );
        }
    }

    /// A term: conjunctions with `|` between them.
    fn parse_term(&mut self, Ghost(base): Ghost<Frame<'a>>, Ghost(acc): Ghost<Out>)
        requires
            old(self).wf(),
            old(self).reached(base, acc),
        ensures
            final(self).wf(),
            final(self).reached(base, acc.and_then(term(old(self).toks(), old(self).pos()))),
            final(self).toks() == old(self).toks(),
            final(self).pos() == old(self).pos() + term(old(self).toks(), old(self).pos()).used,
        decreases left(old(self).toks(), old(self).pos()), 20int,
    {
        let ghost t = self.toks();
        let ghost p = self.pos();
        let checkpoint = self.checkpoint(Ghost(base), Ghost(acc));
        self.parse_conjunction(Ghost(base), Ghost(acc));
        let ghost mut held = conjunction(t, p);
        proof {
            reveal(term);
            reveal(term_rest);
            reveal(conjunction);
        }
        loop
            invariant_except_break
                self.wf(),
                self.toks() == t,
                self.reached(base, acc.and_then(held)),
                self.pos() == p + held.used,
                term(t, p) == term_rest(t, self.pos(), held),
            invariant
                t == old(self).toks(),
                p == old(self).pos(),
                checkpoint_index(checkpoint) == base.children.len() + acc.items.len(),
                parents_ordered(base.parents, base.children.len() + acc.items.len()),
            ensures
                self.wf(),
                self.toks() == t,
                self.reached(base, acc.and_then(term(t, p))),
                self.pos() == p + term(t, p).used,
            decreases left(t, self.pos()),
        {
            let ghost at = self.pos();
            let kind = self.current(Ghost(base), Ghost(acc.and_then(held)));
            let ghost seen = held.and_then(noise(t, at));
            let ghost q = self.pos();
            proof {
                reveal(term_rest);
                reveal(conjunction);
                lemma_and_then_assoc(acc, held, noise(t, at));
            }
            let more = match kind {
                Some(k) => k == SyntaxKind::Or,
                None => false,
            };
            if !more {
                break ;
            }
            self.start_node_at(
                checkpoint,
                SyntaxKind::Disjunction,
                Ghost(base),
                Ghost(acc),
                Ghost(seen),
            );
            let ghost inner = base.opened(acc, SyntaxKind::Disjunction);
            self.bump(Ghost(inner), Ghost(seen));
            self.parse_conjunction(Ghost(inner), Ghost(seen.and_then(take(t, q))));
            let ghost whole = seen.and_then(take(t, q)).and_then(conjunction(t, q + 1));
            self.finish_node(Ghost(base), Ghost(acc), Ghost(SyntaxKind::Disjunction), Ghost(whole));
            proof {
                held = whole.wrap(SyntaxKind::Disjunction);
            }
        }
    }

    /// A conjunction: negations with `&` between them.
    fn parse_conjunction(&mut self, Ghost(base): Ghost<Frame<'a>>, Ghost(acc): Ghost<Out>)
        requires
            old(self).wf(),
            old(self).reached(base, acc),
        ensures
            final(self).wf(),
            final(self).reached(base, acc.and_then(conjunction(old(self).toks(), old(self).pos()))),
            final(self).toks() == old(self).toks(),
            final(self).pos() == old(self).pos() + conjunction(old(self).toks(), old(self).pos()).used,
        decreases left(old(self).toks(), old(self).pos()), 18int,
    {
        let ghost t = self.toks();
        let ghost p = self.pos();
        let checkpoint = self.checkpoint(Ghost(base), Ghost(acc));
        self.parse_negation(Ghost(base), Ghost(acc));
        let ghost mut held = negation(t, p);
        proof {
            reveal(conjunction);
            reveal(conjunction_rest);
            reveal(negation);
        }
        loop
            invariant_except_break
                self.wf(),
                self.toks() == t,
                self.reached(base, acc.and_then(held)),
                self.pos() == p + held.used,
                conjunction(t, p) == conjunction_rest(t, self.pos(), held),
            invariant
                t == old(self).toks(),
                p == old(self).pos(),
                checkpoint_index(checkpoint) == base.children.len() + acc.items.len(),
                parents_ordered(base.parents, base.children.len() + acc.items.len()),
            ensures
                self.wf(),
                self.toks() == t,
                self.reached(base, acc.and_then(conjunction(t, p))),
                self.pos() == p + conjunction(t, p).used,
            decreases left(t, self.pos()),
        {
            let ghost at = self.pos();
            let kind = self.current(Ghost(base), Ghost(acc.and_then(held)));
            let ghost seen = held.and_then(noise(t, at));
            let ghost q = self.pos();
            proof {
                reveal(conjunction_rest);
                reveal(negation);
                lemma_and_then_assoc(acc, held, noise(t, at));
            }
            let more = match kind {
                Some(k) => k == SyntaxKind::And,
                None => false,
            };
            if !more {
                break ;
            }
            self.start_node_at(
                checkpoint,
                SyntaxKind::Conjunction,
                Ghost(base),
                Ghost(acc),
                Ghost(seen),
            );
            let ghost inner = base.opened(acc, SyntaxKind::Conjunction);
            self.bump(Ghost(inner), Ghost(seen));
            self.parse_negation(Ghost(inner), Ghost(seen.and_then(take(t, q))));
            let ghost whole = seen.and_then(take(t, q)).and_then(negation(t, q + 1));
            self.finish_node(Ghost(base), Ghost(acc), Ghost(SyntaxKind::Conjunction), Ghost(whole));
            proof {
                held = whole.wrap(SyntaxKind::Conjunction);
            }
        }
    }

    /// `not` and what it negates, or a comparison. The `not` is taken before
    /// what follows it is parsed.
    fn parse_negation(&mut self, Ghost(base): Ghost<Frame<'a>>, Ghost(acc): Ghost<Out>)
        requires
            old(self).wf(),
            old(self).reached(base, acc),
        ensures
            final(self).wf(),
            final(self).reached(base, acc.and_then(negation(old(self).toks(), old(self).pos()))),
            final(self).toks() == old(self).toks(),
            final(self).pos() == old(self).pos() + negation(old(self).toks(), old(self).pos()).used,
        decreases left(old(self).toks(), old(self).pos()), 16int,
    {
        let ghost t = self.toks();
        let ghost p = self.pos();
        let kind = self.current(Ghost(base), Ghost(acc));
        let ghost n = noise(t, p);
        let ghost q = self.pos();
        proof {
            reveal(negation);
            reveal(comparison);
        }
        let found = match kind {
            Some(k) => k == SyntaxKind::Not,
            None => false,
        };
        if found {
            self.start_node(SyntaxKind::Negation, Ghost(base), Ghost(acc.and_then(n)));
            let ghost inner = base.opened(acc.and_then(n), SyntaxKind::Negation);
            self.bump_first(Ghost(inner));
            self.parse_negation(Ghost(inner), Ghost(take(t, q)));
            let ghost whole = take(t, q).and_then(negation(t, q + 1));
            self.finish_node(
                Ghost(base),
                Ghost(acc.and_then(n)),
                Ghost(SyntaxKind::Negation),
                Ghost(whole),
            );
            proof {
                lemma_and_then_assoc(acc, n, whole.wrap(SyntaxKind::Negation));
            }
        } else {
            self.parse_comparison(Ghost(base), Ghost(acc.and_then(n)));
            proof {
                lemma_and_then_assoc(acc, n, comparison(t, q));
            }
        }
    }

    /// A comparison: a sum, or two sums with one comparison operator between
    /// them.
    fn parse_comparison(&mut self, Ghost(base): Ghost<Frame<'a>>, Ghost(acc): Ghost<Out>)
        requires
            old(self).wf(),
            old(self).reached(base, acc),
        ensures
            final(self).wf(),
            final(self).reached(base, acc.and_then(comparison(old(self).toks(), old(self).pos()))),
            final(self).toks() == old(self).toks(),
            final(self).pos() == old(self).pos() + comparison(old(self).toks(), old(self).pos()).used,
        decreases left(old(self).toks(), old(self).pos()), 14int,
    {
        let ghost t = self.toks();
        let ghost p = self.pos();
        let checkpoint = self.checkpoint(Ghost(base), Ghost(acc));
        self.parse_additive_expression(Ghost(base), Ghost(acc));
        let ghost first = additive(t, p);
        let kind = self.current(Ghost(base), Ghost(acc.and_then(first)));
        let ghost seen = first.and_then(noise(t, p + first.used));
        let ghost q = self.pos();
        proof {
            reveal(comparison);
            reveal(additive);
            lemma_and_then_assoc(acc, first, noise(t, p + first.used));
        }
        let compared = match kind {
            Some(k) => k.comparison_operator().is_some(),
            None => false,
        };
        if compared {
            self.start_node_at(
                checkpoint,
                SyntaxKind::Comparison,
                Ghost(base),
                Ghost(acc),
                Ghost(seen),
            );
            let ghost inner = base.opened(acc, SyntaxKind::Comparison);
            self.bump(Ghost(inner), Ghost(seen));
            self.parse_additive_expression(Ghost(inner), Ghost(seen.and_then(take(t, q))));
            self.finish_node(
                Ghost(base),
                Ghost(acc),
                Ghost(SyntaxKind::Comparison),
                Ghost(seen.and_then(take(t, q)).and_then(additive(t, q + 1))),
            );
        }
    }

    /// A sum: products with `+` or `-` between them.
    fn parse_additive_expression(&mut self, Ghost(base): Ghost<Frame<'a>>, Ghost(acc): Ghost<Out>)
        requires
            old(self).wf(),
            old(self).reached(base, acc),
        ensures
            final(self).wf(),
            final(self).reached(base, acc.and_then(additive(old(self).toks(), old(self).pos()))),
            final(self).toks() == old(self).toks(),
            final(self).pos() == old(self).pos() + additive(old(self).toks(), old(self).pos()).used,
        decreases left(old(self).toks(), old(self).pos()), 12int,
    {
        let ghost t = self.toks();
        let ghost p = self.pos();
        let checkpoint = self.checkpoint(Ghost(base), Ghost(acc));
        self.parse_multiplicative_expression(Ghost(base), Ghost(acc));
        let ghost mut held = multiplicative(t, p);
        proof {
            reveal(additive);
            reveal(additive_rest);
            reveal(multiplicative);
        }
        loop
            invariant_except_break
                self.wf(),
                self.toks() == t,
                self.reached(base, acc.and_then(held)),
                self.pos() == p + held.used,
                additive(t, p) == additive_rest(t, self.pos(), held),
            invariant
                t == old(self).toks(),
                p == old(self).pos(),
                checkpoint_index(checkpoint) == base.children.len() + acc.items.len(),
                parents_ordered(base.parents, base.children.len() + acc.items.len()),
            ensures
                self.wf(),
                self.toks() == t,
                self.reached(base, acc.and_then(additive(t, p))),
                self.pos() == p + additive(t, p).used,
            decreases left(t, self.pos()),
        {
            let ghost at = self.pos();
            let kind = self.current(Ghost(base), Ghost(acc.and_then(held)));
            let ghost seen = held.and_then(noise(t, at));
            let ghost q = self.pos();
            proof {
                reveal(additive_rest);
                reveal(multiplicative);
                lemma_and_then_assoc(acc, held, noise(t, at));
            }
            let more = match kind {
                Some(k) => k.additive_operator().is_some(),
                None => false,
            };
            if !more {
                break ;
            }
            self.start_node_at(
                checkpoint,
                SyntaxKind::AdditiveExpression,
                Ghost(base),
                Ghost(acc),
                Ghost(seen),
            );
            let ghost inner = base.opened(acc, SyntaxKind::AdditiveExpression);
            self.bump(Ghost(inner), Ghost(seen));
            self.parse_multiplicative_expression(Ghost(inner), Ghost(seen.and_then(take(t, q))));
            let ghost whole = seen.and_then(take(t, q)).and_then(multiplicative(t, q + 1));
            self.finish_node(Ghost(base), Ghost(acc), Ghost(SyntaxKind::AdditiveExpression), Ghost(whole));
            proof {
                held = whole.wrap(SyntaxKind::AdditiveExpression);
            }
        }
    }

    /// A product: unary expressions with `*`, `/`, `div` or `mod` between them.
    fn parse_multiplicative_expression(&mut self, Ghost(base): Ghost<Frame<'a>>, Ghost(acc): Ghost<Out>)
        requires
            old(self).wf(),
            old(self).reached(base, acc),
        ensures
            final(self).wf(),
            final(self).reached(base, acc.and_then(multiplicative(old(self).toks(), old(self).pos()))),
            final(self).toks() == old(self).toks(),
            final(self).pos() == old(self).pos() + multiplicative(old(self).toks(), old(self).pos()).used,
        decreases left(old(self).toks(), old(self).pos()), 10int,
    {
        let ghost t = self.toks();
        let ghost p = self.pos();
        let checkpoint = self.checkpoint(Ghost(base), Ghost(acc));
        self.parse_unary_expression(Ghost(base), Ghost(acc));
        let ghost mut held = unary(t, p);
        proof {
            reveal(multiplicative);
            reveal(multiplicative_rest);
            reveal(unary);
        }
        loop
            invariant_except_break
                self.wf(),
                self.toks() == t,
                self.reached(base, acc.and_then(held)),
                self.pos() == p + held.used,
                multiplicative(t, p) == multiplicative_rest(t, self.pos(), held),
            invariant
                t == old(self).toks(),
                p == old(self).pos(),
                checkpoint_index(checkpoint) == base.children.len() + acc.items.len(),
                parents_ordered(base.parents, base.children.len() + acc.items.len()),
            ensures
                self.wf(),
                self.toks() == t,
                self.reached(base, acc.and_then(multiplicative(t, p))),
                self.pos() == p + multiplicative(t, p).used,
            decreases left(t, self.pos()),
        {
            let ghost at = self.pos();
            let kind = self.current(Ghost(base), Ghost(acc.and_then(held)));
            let ghost seen = held.and_then(noise(t, at));
            let ghost q = self.pos();
            proof {
                reveal(multiplicative_rest);
                reveal(unary);
                lemma_and_then_assoc(acc, held, noise(t, at));
            }
            let more = match kind {
                Some(k) => k.multiplicative_operator().is_some(),
                None => false,
            };
            if !more {
                break ;
            }
            self.start_node_at(
                checkpoint,
                SyntaxKind::MultiplicativeExpression,
                Ghost(base),
                Ghost(acc),
                Ghost(seen),
            );
            let ghost inner = base.opened(acc, SyntaxKind::MultiplicativeExpression);
            self.bump(Ghost(inner), Ghost(seen));
            self.parse_unary_expression(Ghost(inner), Ghost(seen.and_then(take(t, q))));
            let ghost whole = seen.and_then(take(t, q)).and_then(unary(t, q + 1));
            self.finish_node(Ghost(base), Ghost(acc), Ghost(SyntaxKind::MultiplicativeExpression), Ghost(whole));
            proof {
                held = whole.wrap(SyntaxKind::MultiplicativeExpression);
            }
        }
    }

    /// A sign and what it applies to, or a power.
    fn parse_unary_expression(&mut self, Ghost(base): Ghost<Frame<'a>>, Ghost(acc): Ghost<Out>)
        requires
            old(self).wf(),
            old(self).reached(base, acc),
        ensures
            final(self).wf(),
            final(self).reached(base, acc.and_then(unary(old(self).toks(), old(self).pos()))),
            final(self).toks() == old(self).toks(),
            final(self).pos() == old(self).pos() + unary(old(self).toks(), old(self).pos()).used,
        decreases left(old(self).toks(), old(self).pos()), 8int,
    {
        let ghost t = self.toks();
        let ghost p = self.pos();
        let kind = self.current(Ghost(base), Ghost(acc));
        let ghost n = noise(t, p);
        let ghost q = self.pos();
        proof {
            reveal(unary);
            reveal(exponentiation);
        }
        let found = match kind {
            Some(k) => k.unary_operator().is_some(),
            None => false,
        };
        if found {
            self.start_node(SyntaxKind::UnaryExpression, Ghost(base), Ghost(acc.and_then(n)));
            let ghost inner = base.opened(acc.and_then(n), SyntaxKind::UnaryExpression);
            self.bump_first(Ghost(inner));
            self.parse_unary_expression(Ghost(inner), Ghost(take(t, q)));
            let ghost whole = take(t, q).and_then(unary(t, q + 1));
            self.finish_node(
                Ghost(base),
                Ghost(acc.and_then(n)),
                Ghost(SyntaxKind::UnaryExpression),
                Ghost(whole),
            );
            proof {
                lemma_and_then_assoc(acc, n, whole.wrap(SyntaxKind::UnaryExpression));
            }
        } else {
            self.parse_exponentiation(Ghost(base), Ghost(acc.and_then(n)));
            proof {
                lemma_and_then_assoc(acc, n, exponentiation(t, q));
            }
        }
    }

    /// A power: an atom, and behind each `**` a unary expression.
    fn parse_exponentiation(&mut self, Ghost(base): Ghost<Frame<'a>>, Ghost(acc): Ghost<Out>)
        requires
            old(self).wf(),
            old(self).reached(base, acc),
        ensures
            final(self).wf(),
            final(self).reached(base, acc.and_then(exponentiation(old(self).toks(), old(self).pos()))),
            final(self).toks() == old(self).toks(),
            final(self).pos() == old(self).pos() + exponentiation(old(self).toks(), old(self).pos()).used,
        decreases left(old(self).toks(), old(self).pos()), 6int,
    {
        let ghost t = self.toks();
        let ghost p = self.pos();
        let checkpoint = self.checkpoint(Ghost(base), Ghost(acc));
        self.parse_atom(Ghost(base), Ghost(acc));
        let ghost mut held = atom(t, p);
        proof {
            reveal(exponentiation);
            reveal(exponentiation_rest);
            reveal(atom);
        }
        loop
            invariant_except_break
                self.wf(),
                self.toks() == t,
                self.reached(base, acc.and_then(held)),
                self.pos() == p + held.used,
                exponentiation(t, p) == exponentiation_rest(t, self.pos(), held),
            invariant
                t == old(self).toks(),
                p == old(self).pos(),
                checkpoint_index(checkpoint) == base.children.len() + acc.items.len(),
                parents_ordered(base.parents, base.children.len() + acc.items.len()),
            ensures
                self.wf(),
                self.toks() == t,
                self.reached(base, acc.and_then(exponentiation(t, p))),
                self.pos() == p + exponentiation(t, p).used,
            decreases left(t, self.pos()),
        {
            let ghost at = self.pos();
            let kind = self.current(Ghost(base), Ghost(acc.and_then(held)));
            let ghost seen = held.and_then(noise(t, at));
            let ghost q = self.pos();
            proof {
                reveal(exponentiation_rest);
                reveal(unary);
                lemma_and_then_assoc(acc, held, noise(t, at));
            }
            let more = match kind {
                Some(k) => k == SyntaxKind::Pow,
                None => false,
            };
            if !more {
                break ;
            }
            self.start_node_at(
                checkpoint,
                SyntaxKind::Exponentiation,
                Ghost(base),
                Ghost(acc),
                Ghost(seen),
            );
            let ghost inner = base.opened(acc, SyntaxKind::Exponentiation);
            self.bump(Ghost(inner), Ghost(seen));
            self.parse_unary_expression(Ghost(inner), Ghost(seen.and_then(take(t, q))));
            let ghost whole = seen.and_then(take(t, q)).and_then(unary(t, q + 1));
            self.finish_node(Ghost(base), Ghost(acc), Ghost(SyntaxKind::Exponentiation), Ghost(whole));
            proof {
                held = whole.wrap(SyntaxKind::Exponentiation);
            }
        }
    }

    /// Behind a bracketed list: takes the closing token `close`, or recovers
    /// up to and including it, stopping before `.` and `;`.
    fn expect_close(
        &mut self,
        close: SyntaxKind,
        until: Until,
        prefix: &str,
        Ghost(base): Ghost<Frame<'a>>,
        Ghost(acc): Ghost<Out>,
    )
        requires
            old(self).wf(),
            old(self).reached(base, acc),
            until == stop_at(close),
        ensures
            final(self).wf(),
            final(self).reached(
                base,
                acc.and_then(closing(old(self).toks(), old(self).pos(), close, prefix@)),
            ),
            final(self).toks() == old(self).toks(),
            final(self).pos() == old(self).pos() + closing(
                old(self).toks(),
                old(self).pos(),
                close,
                prefix@,
            ).used,
    {
        let ghost t = self.toks();
        let ghost p = self.pos();
        let ghost n = noise(t, p);
        match self.current(Ghost(base), Ghost(acc)) {
            Some(token) => {
                let ghost q = self.pos();
                if token == close {
                    self.bump(Ghost(base), Ghost(acc.and_then(n)));
                    proof {
                        lemma_and_then_assoc(acc, n, take(t, q));
                    }
                } else {
                    self.recover(
                        describe(prefix, token),
                        until,
                        Until::DotOrSemi,
                        Ghost(base),
                        Ghost(acc.and_then(n)),
                    );
                    proof {
                        lemma_and_then_assoc(
                            acc,
                            n,
                            recover(t, q, message(prefix@, token), until, Until::DotOrSemi),
                        );
                    }
                }
            },
            None => {
                self.note_eof(Ghost(base), Ghost(acc.and_then(n)));
                proof {
                    lemma_and_then_assoc(acc, n, Out::eof());
                }
            },
        }
    }

    /// An atom: a variable, a wildcard, a number, a boolean, a string, a
    /// literal, or a term in parentheses.
    fn parse_atom(&mut self, Ghost(base): Ghost<Frame<'a>>, Ghost(acc): Ghost<Out>)
        requires
            old(self).wf(),
            old(self).reached(base, acc),
        ensures
            final(self).wf(),
            final(self).reached(base, acc.and_then(atom(old(self).toks(), old(self).pos()))),
            final(self).toks() == old(self).toks(),
            final(self).pos() == old(self).pos() + atom(old(self).toks(), old(self).pos()).used,
        decreases left(old(self).toks(), old(self).pos()), 4int,
    {
        let ghost t = self.toks();
        let ghost p = self.pos();
        let kind = self.current(Ghost(base), Ghost(acc));
        let ghost n = noise(t, p);
        let ghost q = self.pos();
        proof {
            reveal(atom);
            reveal(literal);
            reveal(term);
        }
        match kind {
            Some(token) => {
                if is_plain_atom_kind(token) {
                    self.bump(Ghost(base), Ghost(acc.and_then(n)));
                    proof {
                        lemma_and_then_assoc(acc, n, take(t, q));
                    }
                } else if token == SyntaxKind::Functor {
                    self.parse_literal(Ghost(base), Ghost(acc.and_then(n)));
                    proof {
                        lemma_and_then_assoc(acc, n, literal(t, q));
                    }
                } else if token == SyntaxKind::OpenParen {
                    self.bump(Ghost(base), Ghost(acc.and_then(n)));
                    self.parse_term(Ghost(base), Ghost(acc.and_then(n).and_then(take(t, q))));
                    let ghost inner = n.and_then(take(t, q)).and_then(term(t, q + 1));
                    proof {
                        lemma_regroup3(acc, n, take(t, q), term(t, q + 1));
                    }
                    self.expect_close(
                        SyntaxKind::CloseParen,
                        Until::CloseParen,
                        "expected ')', got ",
                        Ghost(base),
                        Ghost(acc.and_then(inner)),
                    );
                    proof {
                        lemma_and_then_assoc(
                            acc,
                            inner,
                            closing(t, p + inner.used, SyntaxKind::CloseParen, "expected ')', got "@),
                        );
                    }
                } else {
                    self.recover(
                        describe("expected atom, got ", token),
                        Until::Never,
                        Until::DotSemiOrCloseParen,
                        Ghost(base),
                        Ghost(acc.and_then(n)),
                    );
                    proof {
                        lemma_and_then_assoc(
                            acc,
                            n,
                            recover(
                                t,
                                q,
                                message("expected atom, got "@, token),
                                Until::Never,
                                Until::DotSemiOrCloseParen,
                            ),
                        );
                    }
                }
            },
            None => {
                self.note_eof(Ghost(base), Ghost(acc.and_then(n)));
                proof {
                    lemma_and_then_assoc(acc, n, Out::eof());
                }
            },
        }
    }

    /// `(',' term)*`, as both lists of a literal have it.
    fn parse_term_list(&mut self, Ghost(base): Ghost<Frame<'a>>, Ghost(acc): Ghost<Out>)
        requires
            old(self).wf(),
            old(self).reached(base, acc),
        ensures
            final(self).wf(),
            final(self).reached(base, acc.and_then(term_list(old(self).toks(), old(self).pos()))),
            final(self).toks() == old(self).toks(),
            final(self).pos() == old(self).pos() + term_list(old(self).toks(), old(self).pos()).used,
        decreases left(old(self).toks(), old(self).pos()), 0int,
    {
        let ghost t = self.toks();
        let ghost p = self.pos();
        let ghost mut held = Out::empty();
        proof {
            lemma_and_then_empty(acc);
            lemma_empty_and_then(term_list(t, p));
        }
        loop
            invariant_except_break
                self.wf(),
                self.toks() == t,
                self.reached(base, acc.and_then(held)),
                self.pos() == p + held.used,
                term_list(t, p) == held.and_then(term_list(t, self.pos())),
            invariant
                t == old(self).toks(),
                p == old(self).pos(),
            ensures
                self.wf(),
                self.toks() == t,
                self.reached(base, acc.and_then(term_list(t, p))),
                self.pos() == p + term_list(t, p).used,
            decreases left(t, self.pos()),
        {
            let ghost at = self.pos();
            let kind = self.current(Ghost(base), Ghost(acc.and_then(held)));
            let ghost n = noise(t, at);
            let ghost q = self.pos();
            proof {
                reveal(term_list);
                reveal(term);
                lemma_and_then_assoc(acc, held, n);
            }
            let more = match kind {
                Some(k) => k == SyntaxKind::Comma,
                None => false,
            };
            if !more {
                break ;
            }
            self.bump(Ghost(base), Ghost(acc.and_then(held).and_then(n)));
            self.parse_term(Ghost(base), Ghost(acc.and_then(held).and_then(n).and_then(take(t, q))));
            proof {
                let item = term(t, q + 1);
                lemma_regroup4(acc, held, n, take(t, q), item);
                lemma_regroup4(held, n, take(t, q), item, term_list(t, q + 1 + item.used));
                held = held.and_then(n).and_then(take(t, q)).and_then(item);
            }
        }
    }

    /// A literal: a functor with its argument list and its annotation list,
    /// where they follow.
    fn parse_literal(&mut self, Ghost(base): Ghost<Frame<'a>>, Ghost(acc): Ghost<Out>)
        requires
            old(self).wf(),
            old(self).reached(base, acc),
        ensures
            final(self).wf(),
            final(self).reached(base, acc.and_then(literal(old(self).toks(), old(self).pos()))),
            final(self).toks() == old(self).toks(),
            final(self).pos() == old(self).pos() + literal(old(self).toks(), old(self).pos()).used,
        decreases left(old(self).toks(), old(self).pos()), 3int,
    {
        let ghost t = self.toks();
        let ghost p = self.pos();
        proof {
            reveal(literal);
            reveal(arguments);
            reveal(annotations);
        }
        self.start_node(SyntaxKind::Literal, Ghost(base), Ghost(acc));
        let ghost inner = base.opened(acc, SyntaxKind::Literal);
        let ghost n = noise(t, p);
        let ghost mut held = n;
        match self.current_first(Ghost(inner)) {
            Some(token) => {
                if token == SyntaxKind::Functor {
                    self.bump(Ghost(inner), Ghost(n));
                    proof {
                        held = n.and_then(take(t, p + n.used));
                    }
                } else {
                    self.recover(
                        describe("expected literal, got ", token),
                        Until::Never,
                        Until::DotOrSemi,
                        Ghost(inner),
                        Ghost(n),
                    );
                    self.finish_node(
                        Ghost(base),
                        Ghost(acc),
                        Ghost(SyntaxKind::Literal),
                        Ghost(
                            n.and_then(
                                recover(
                                    t,
                                    p + n.used,
                                    message("expected literal, got "@, token),
                                    Until::Never,
                                    Until::DotOrSemi,
                                ),
                            ),
                        ),
                    );
                    return ;
                }
            },
            None => {
                self.note_eof(Ghost(inner), Ghost(n));
                proof {
                    held = n.and_then(Out::eof());
                }
            },
        }
        let ghost functor_end = self.pos();
        self.parse_arguments(Ghost(inner), Ghost(held));
        let ghost args = arguments(t, functor_end);
        self.parse_annotations(Ghost(inner), Ghost(held.and_then(args)));
        self.finish_node(
            Ghost(base),
            Ghost(acc),
            Ghost(SyntaxKind::Literal),
            Ghost(held.and_then(args).and_then(annotations(t, functor_end + args.used))),
        );
    }

    /// The argument list of a literal, if `(` follows.
    fn parse_arguments(&mut self, Ghost(base): Ghost<Frame<'a>>, Ghost(acc): Ghost<Out>)
        requires
            old(self).wf(),
            old(self).reached(base, acc),
        ensures
            final(self).wf(),
            final(self).reached(base, acc.and_then(arguments(old(self).toks(), old(self).pos()))),
            final(self).toks() == old(self).toks(),
            final(self).pos() == old(self).pos() + arguments(old(self).toks(), old(self).pos()).used,
        decreases left(old(self).toks(), old(self).pos()), 2int,
    {
        let ghost t = self.toks();
        let ghost p = self.pos();
        let kind = self.current(Ghost(base), Ghost(acc));
        let ghost n = noise(t, p);
        let ghost open = self.pos();
        proof {
            lemma_arguments(t, p);
        }
        let has_terms = match kind {
            Some(k) => k == SyntaxKind::OpenParen,
            None => false,
        };
        if has_terms {
            self.start_node(SyntaxKind::LiteralTerms, Ghost(base), Ghost(acc.and_then(n)));
            let ghost list = base.opened(acc.and_then(n), SyntaxKind::LiteralTerms);
            self.bump_first(Ghost(list));
            self.parse_term(Ghost(list), Ghost(take(t, open)));
            let ghost first = term(t, open + 1);
            self.parse_term_list(Ghost(list), Ghost(take(t, open).and_then(first)));
            let ghost terms = take(t, open).and_then(first).and_then(
                term_list(t, open + 1 + first.used),
            );
            self.expect_close(
                SyntaxKind::CloseParen,
                Until::CloseParen,
                "expected ')' to close literal, got ",
                Ghost(list),
                Ghost(terms),
            );
            let ghost whole = terms.and_then(
                closing(
                    t,
                    open + terms.used,
                    SyntaxKind::CloseParen,
                    "expected ')' to close literal, got "@,
                ),
            );
            self.finish_node(
                Ghost(base),
                Ghost(acc.and_then(n)),
                Ghost(SyntaxKind::LiteralTerms),
                Ghost(whole),
            );
            proof {
                lemma_and_then_assoc(acc, n, whole.wrap(SyntaxKind::LiteralTerms));
            }
        }
    }

    /// The annotation list of a literal, if `[` follows. It may be empty.
    fn parse_annotations(&mut self, Ghost(base): Ghost<Frame<'a>>, Ghost(acc): Ghost<Out>)
        requires
            old(self).wf(),
            old(self).reached(base, acc),
        ensures
            final(self).wf(),
            final(self).reached(base, acc.and_then(annotations(old(self).toks(), old(self).pos()))),
            final(self).toks() == old(self).toks(),
            final(self).pos() == old(self).pos() + annotations(old(self).toks(), old(self).pos()).used,
        decreases left(old(self).toks(), old(self).pos()), 1int,
    {
        let ghost t = self.toks();
        let ghost p = self.pos();
        let kind = self.current(Ghost(base), Ghost(acc));
        let ghost n = noise(t, p);
        let ghost bracket = self.pos();
        proof {
            lemma_annotations(t, p);
        }
        let has_annotations = match kind {
            Some(k) => k == SyntaxKind::OpenBracket,
            None => false,
        };
        if has_annotations {
            self.start_node(SyntaxKind::LiteralAnnotations, Ghost(base), Ghost(acc.and_then(n)));
            let ghost list = base.opened(acc.and_then(n), SyntaxKind::LiteralAnnotations);
            self.bump_first(Ghost(list));
            let kind = self.current(Ghost(list), Ghost(take(t, bracket)));
            let ghost opened = take(t, bracket).and_then(noise(t, bracket + 1));
            let ghost at = self.pos();
            let is_empty = match kind {
                Some(k) => k == SyntaxKind::CloseBracket,
                None => false,
            };
            if is_empty {
                self.bump(Ghost(list), Ghost(opened));
                let ghost whole = opened.and_then(take(t, at));
                self.finish_node(
                    Ghost(base),
                    Ghost(acc.and_then(n)),
                    Ghost(SyntaxKind::LiteralAnnotations),
                    Ghost(whole),
                );
                proof {
                    lemma_and_then_assoc(acc, n, whole.wrap(SyntaxKind::LiteralAnnotations));
                }
            } else {
                self.parse_term(Ghost(list), Ghost(opened));
                let ghost first = term(t, at);
                self.parse_term_list(Ghost(list), Ghost(opened.and_then(first)));
                let ghost terms = opened.and_then(first).and_then(term_list(t, at + first.used));
                self.expect_close(
                    SyntaxKind::CloseBracket,
                    Until::CloseBracket,
                    "expected ']' to close literal annotation, got ",
                    Ghost(list),
                    Ghost(terms),
                );
                let ghost whole = terms.and_then(
                    closing(
                        t,
                        bracket + terms.used,
                        SyntaxKind::CloseBracket,
                        "expected ']' to close literal annotation, got "@,
                    ),
                );
                self.finish_node(
                    Ghost(base),
                    Ghost(acc.and_then(n)),
                    Ghost(SyntaxKind::LiteralAnnotations),
                    Ghost(whole),
                );
                proof {
                    lemma_and_then_assoc(acc, n, whole.wrap(SyntaxKind::LiteralAnnotations));
                }
            }
        }
    }

    /// One statement of a plan body.
    fn parse_formula(&mut self, Ghost(base): Ghost<Frame<'a>>, Ghost(acc): Ghost<Out>)
        requires
            old(self).wf(),
            old(self).reached(base, acc),
        ensures
            final(self).wf(),
            final(self).reached(base, acc.and_then(formula(old(self).toks(), old(self).pos()))),
            final(self).toks() == old(self).toks(),
            final(self).pos() == old(self).pos() + formula(old(self).toks(), old(self).pos()).used,
    {
        let ghost t = self.toks();
        let ghost p = self.pos();
        proof {
            reveal(formula);
        }
        self.start_node(SyntaxKind::Formula, Ghost(base), Ghost(acc));
        let ghost inner = base.opened(acc, SyntaxKind::Formula);
        let ghost n = noise(t, p);
        let kind = self.current_first(Ghost(inner));
        let ghost q = self.pos();
        match kind {
            Some(token) => {
                if token.formula_type().is_some() {
                    self.bump(Ghost(inner), Ghost(n));
                    self.parse_term(Ghost(inner), Ghost(n.and_then(take(t, q))));
                    self.finish_node(
                        Ghost(base),
                        Ghost(acc),
                        Ghost(SyntaxKind::Formula),
                        Ghost(n.and_then(take(t, q)).and_then(term(t, q + 1))),
                    );
                } else {
                    self.parse_term(Ghost(inner), Ghost(n));
                    self.finish_node(
                        Ghost(base),
                        Ghost(acc),
                        Ghost(SyntaxKind::Formula),
                        Ghost(n.and_then(term(t, q))),
                    );
                }
            },
            None => {
                self.note_eof(Ghost(inner), Ghost(n));
                self.parse_term(Ghost(inner), Ghost(n.and_then(Out::eof())));
                self.finish_node(
                    Ghost(base),
                    Ghost(acc),
                    Ghost(SyntaxKind::Formula),
                    Ghost(n.and_then(Out::eof()).and_then(term(t, q))),
                );
            },
        }
    }

    /// The formulas of a plan body, up to the `.` that ends it.
    fn parse_body(&mut self, Ghost(base): Ghost<Frame<'a>>, Ghost(acc): Ghost<Out>)
        requires
            old(self).wf(),
            old(self).reached(base, acc),
        ensures
            final(self).wf(),
            final(self).reached(base, acc.and_then(body(old(self).toks(), old(self).pos()))),
            final(self).toks() == old(self).toks(),
            final(self).pos() == old(self).pos() + body(old(self).toks(), old(self).pos()).used,
    {
        let ghost t = self.toks();
        let ghost p = self.pos();
        let ghost mut held = Out::empty();
        proof {
            lemma_and_then_empty(acc);
            lemma_empty_and_then(body(t, p));
        }
        loop
            invariant_except_break
                self.wf(),
                self.toks() == t,
                self.reached(base, acc.and_then(held)),
                self.pos() == p + held.used,
                body(t, p) == held.and_then(body(t, self.pos())),
            ensures
                self.wf(),
                self.toks() == t,
                self.reached(base, acc.and_then(body(t, p))),
                self.pos() == p + body(t, p).used,
            decreases left(t, self.pos()),
        {
            let ghost at = self.pos();
            self.parse_formula(Ghost(base), Ghost(acc.and_then(held)));
            let ghost first = formula(t, at);
            let kind = self.current(Ghost(base), Ghost(acc.and_then(held).and_then(first)));
            let ghost n = noise(t, at + first.used);
            let ghost q = self.pos();
            let ghost above = acc.and_then(held).and_then(first).and_then(n);
            proof {
                reveal(body);
            }
            match kind {
                Some(token) => {
                    if token == SyntaxKind::Semi {
                        self.bump(Ghost(base), Ghost(above));
                        proof {
                            lemma_regroup4(acc, held, first, n, take(t, q));
                            lemma_regroup4(held, first, n, take(t, q), body(t, q + 1));
                            held = held.and_then(first).and_then(n).and_then(take(t, q));
                        }
                    } else if token == SyntaxKind::Dot {
                        self.bump(Ghost(base), Ghost(above));
                        proof {
                            lemma_regroup4(acc, held, first, n, take(t, q));
                            lemma_regroup3(held, first, n, take(t, q));
                        }
                        break ;
                    } else {
                        self.recover(
                            describe("expected ';' or '.', got ", token),
                            Until::DotOrSemi,
                            Until::Never,
                            Ghost(base),
                            Ghost(above),
                        );
                        proof {
                            let lost = recover(
                                t,
                                q,
                                message("expected ';' or '.', got "@, token),
                                Until::DotOrSemi,
                                Until::Never,
                            );
                            lemma_recover_progress(t, q, Until::DotOrSemi);
                            lemma_regroup4(acc, held, first, n, lost);
                            lemma_regroup4(held, first, n, lost, body(t, q + lost.used));
                            held = held.and_then(first).and_then(n).and_then(lost);
                        }
                    }
                },
                None => {
                    self.note_eof(Ghost(base), Ghost(above));
                    proof {
                        lemma_regroup4(acc, held, first, n, Out::eof());
                        lemma_regroup3(held, first, n, Out::eof());
                    }
                    break ;
                },
            }
        }
    }

    /// The annotations in front of a plan. Returns the kind of the token
    /// behind them.
    fn parse_plan_annotations(
        &mut self,
        Ghost(base): Ghost<Frame<'a>>,
        Ghost(acc): Ghost<Out>,
    ) -> (next: Option<SyntaxKind>)
        requires
            old(self).wf(),
            old(self).reached(base, acc),
        ensures
            final(self).wf(),
            final(self).reached(
                base,
                acc.and_then(plan_annotations(old(self).toks(), old(self).pos())),
            ),
            final(self).toks() == old(self).toks(),
            final(self).pos() == old(self).pos() + plan_annotations(
                old(self).toks(),
                old(self).pos(),
            ).used,
            next == kind_at(final(self).toks(), final(self).pos()),
    {
        let ghost t = self.toks();
        let ghost p = self.pos();
        let ghost mut held = Out::empty();
        let mut next: Option<SyntaxKind> = None;
        proof {
            lemma_and_then_empty(acc);
            lemma_empty_and_then(plan_annotations(t, p));
        }
        loop
            invariant_except_break
                self.wf(),
                self.toks() == t,
                self.reached(base, acc.and_then(held)),
                self.pos() == p + held.used,
                plan_annotations(t, p) == held.and_then(plan_annotations(t, self.pos())),
            ensures
                self.wf(),
                self.toks() == t,
                self.reached(base, acc.and_then(plan_annotations(t, p))),
                self.pos() == p + plan_annotations(t, p).used,
                next == kind_at(t, self.pos()),
            decreases left(t, self.pos()),
        {
            let ghost at = self.pos();
            let ghost n = noise(t, at);
            next = self.current(Ghost(base), Ghost(acc.and_then(held)));
            let ghost q = self.pos();
            proof {
                reveal(plan_annotations);
                lemma_and_then_assoc(acc, held, n);
            }
            let annotated = match next {
                Some(k) => k == SyntaxKind::At,
                None => false,
            };
            if !annotated {
                break ;
            }
            let ghost seen = acc.and_then(held).and_then(n);
            self.start_node(SyntaxKind::PlanAnnotation, Ghost(base), Ghost(seen));
            let ghost inner = base.opened(seen, SyntaxKind::PlanAnnotation);
            self.bump_first(Ghost(inner));
            self.parse_literal(Ghost(inner), Ghost(take(t, q)));
            let ghost note = take(t, q).and_then(literal(t, q + 1));
            self.finish_node(
                Ghost(base),
                Ghost(seen),
                Ghost(SyntaxKind::PlanAnnotation),
                Ghost(note),
            );
            proof {
                let wrapped = note.wrap(SyntaxKind::PlanAnnotation);
                lemma_regroup3(acc, held, n, wrapped);
                lemma_regroup3(held, n, wrapped, plan_annotations(t, q + note.used));
                held = held.and_then(n).and_then(wrapped);
            }
        }
        next
    }

    /// A plan, from its first `@` or from its trigger.
    fn parse_plan(&mut self, Ghost(base): Ghost<Frame<'a>>, Ghost(acc): Ghost<Out>)
        requires
            old(self).wf(),
            old(self).reached(base, acc),
        ensures
            final(self).wf(),
            final(self).reached(base, acc.and_then(plan(old(self).toks(), old(self).pos()))),
            final(self).toks() == old(self).toks(),
            final(self).pos() == old(self).pos() + plan(old(self).toks(), old(self).pos()).used,
    {
        let ghost t = self.toks();
        let ghost p = self.pos();
        proof {
            reveal(plan);
        }
        self.start_node(SyntaxKind::Plan, Ghost(base), Ghost(acc));
        let ghost inner = base.opened(acc, SyntaxKind::Plan);
        let ghost notes = plan_annotations(t, p);
        proof {
            lemma_empty_and_then(notes);
        }
        let kind = self.parse_plan_annotations(Ghost(inner), Ghost(Out::empty()));
        let signed_kind = match kind {
            Some(k) => k == SyntaxKind::Plus || k == SyntaxKind::Minus,
            None => false,
        };
        let ghost signed;
        if signed_kind {
            self.bump(Ghost(inner), Ghost(notes));
            proof {
                signed = notes.and_then(take(t, p + notes.used));
            }
        } else {
            self.push_error(
                "expected '+' or '-' for plan trigger".to_owned(),
                Ghost(inner),
                Ghost(notes),
            );
            proof {
                signed = notes.and_then(
                    Out::error("expected '+' or '-' for plan trigger"@, p + notes.used),
                );
            }
        }

        let kind = self.current(Ghost(inner), Ghost(signed));
        let ghost sign = signed.and_then(noise(t, p + signed.used));
        let achieve = match kind {
            Some(k) => k == SyntaxKind::Bang,
            None => false,
        };
        let ghost trigger;
        if achieve {
            self.bump(Ghost(inner), Ghost(sign));
            proof {
                trigger = sign.and_then(take(t, p + sign.used));
            }
        } else {
            proof {
                trigger = sign;
            }
        }

        self.parse_literal(Ghost(inner), Ghost(trigger));
        let ghost event = trigger.and_then(literal(t, p + trigger.used));

        let kind = self.current(Ghost(inner), Ghost(event));
        let ghost head = event.and_then(noise(t, p + event.used));
        let has_context = match kind {
            Some(k) => k == SyntaxKind::Colon,
            None => false,
        };
        let ghost context;
        if has_context {
            self.bump(Ghost(inner), Ghost(head));
            let ghost colon = head.and_then(take(t, p + head.used));
            self.start_node(SyntaxKind::PlanContext, Ghost(inner), Ghost(colon));
            let ghost guard = term(t, p + head.used + 1);
            proof {
                lemma_empty_and_then(guard);
            }
            self.parse_term(Ghost(inner.opened(colon, SyntaxKind::PlanContext)), Ghost(Out::empty()));
            self.finish_node(
                Ghost(inner),
                Ghost(colon),
                Ghost(SyntaxKind::PlanContext),
                Ghost(guard),
            );
            proof {
                context = colon.and_then(guard.wrap(SyntaxKind::PlanContext));
            }
        } else {
            proof {
                context = head;
            }
        }

        let kind = self.current(Ghost(inner), Ghost(context));
        let ghost guarded = context.and_then(noise(t, p + context.used));
        let has_body = match kind {
            Some(k) => k == SyntaxKind::Arrow,
            None => false,
        };
        let ghost whole;
        if has_body {
            self.bump(Ghost(inner), Ghost(guarded));
            let ghost arrow = guarded.and_then(take(t, p + guarded.used));
            self.start_node(SyntaxKind::Body, Ghost(inner), Ghost(arrow));
            let ghost steps = body(t, p + guarded.used + 1);
            proof {
                lemma_empty_and_then(steps);
            }
            self.parse_body(Ghost(inner.opened(arrow, SyntaxKind::Body)), Ghost(Out::empty()));
            self.finish_node(Ghost(inner), Ghost(arrow), Ghost(SyntaxKind::Body), Ghost(steps));
            proof {
                whole = arrow.and_then(steps.wrap(SyntaxKind::Body));
            }
        } else {
            proof {
                whole = guarded;
            }
        }

        self.finish_node(Ghost(base), Ghost(acc), Ghost(SyntaxKind::Plan), Ghost(whole));
    }

    /// A belief or a rule: which of the two shows only behind the head.
    fn parse_rule_or_belief(&mut self, Ghost(base): Ghost<Frame<'a>>, Ghost(acc): Ghost<Out>)
        requires
            old(self).wf(),
            old(self).reached(base, acc),
        ensures
            final(self).wf(),
            final(self).reached(base, acc.and_then(clause(old(self).toks(), old(self).pos()))),
            final(self).toks() == old(self).toks(),
            final(self).pos() == old(self).pos() + clause(old(self).toks(), old(self).pos()).used,
    {
        let ghost t = self.toks();
        let ghost p = self.pos();
        proof {
            reveal(clause);
        }
        let checkpoint = self.checkpoint(Ghost(base), Ghost(acc));
        self.parse_literal(Ghost(base), Ghost(acc));
        let ghost lit = literal(t, p);
        let kind = self.current(Ghost(base), Ghost(acc.and_then(lit)));
        let ghost head = lit.and_then(noise(t, p + lit.used));
        proof {
            lemma_and_then_assoc(acc, lit, noise(t, p + lit.used));
        }
        let is_rule = match kind {
            Some(k) => k == SyntaxKind::Define,
            None => false,
        };
        let ghost node = if is_rule {
            SyntaxKind::Rule
        } else {
            SyntaxKind::Belief
        };
        let ghost frame = base.opened(acc, node);
        let ghost inner;
        let kind = if is_rule {
            self.start_node_at(checkpoint, SyntaxKind::Rule, Ghost(base), Ghost(acc), Ghost(head));
            self.bump(Ghost(frame), Ghost(head));
            let ghost define = head.and_then(take(t, p + head.used));
            self.parse_term(Ghost(frame), Ghost(define));
            let ghost defined = define.and_then(term(t, p + head.used + 1));
            let kind = self.current(Ghost(frame), Ghost(defined));
            proof {
                inner = defined.and_then(noise(t, p + defined.used));
            }
            kind
        } else {
            self.start_node_at(
                checkpoint,
                SyntaxKind::Belief,
                Ghost(base),
                Ghost(acc),
                Ghost(head),
            );
            proof {
                inner = head;
            }
            kind
        };

        let ended = match kind {
            Some(k) => k == SyntaxKind::Dot,
            None => false,
        };
        let ghost end;
        if ended {
            self.bump(Ghost(frame), Ghost(inner));
            proof {
                end = take(t, p + inner.used);
            }
        } else {
            self.recover(
                "expected '.' after rule or belief".to_owned(),
                Until::Dot,
                Until::Never,
                Ghost(frame),
                Ghost(inner),
            );
            proof {
                end = recover(
                    t,
                    p + inner.used,
                    "expected '.' after rule or belief"@,
                    Until::Dot,
                    Until::Never,
                );
            }
        }
        self.finish_node(Ghost(base), Ghost(acc), Ghost(node), Ghost(inner.and_then(end)));
    }

    /// An initial goal, from its `!`.
    fn parse_initial_goal(&mut self, Ghost(base): Ghost<Frame<'a>>, Ghost(acc): Ghost<Out>)
        requires
            old(self).wf(),
            old(self).reached(base, acc),
            kind_at(old(self).toks(), old(self).pos()) == Some(SyntaxKind::Bang),
        ensures
            final(self).wf(),
            final(self).reached(
                base,
                acc.and_then(initial_goal(old(self).toks(), old(self).pos())),
            ),
            final(self).toks() == old(self).toks(),
            final(self).pos() == old(self).pos() + initial_goal(
                old(self).toks(),
                old(self).pos(),
            ).used,
    {
        let ghost t = self.toks();
        let ghost p = self.pos();
        proof {
            reveal(initial_goal);
        }
        self.start_node(SyntaxKind::InitialGoal, Ghost(base), Ghost(acc));
        let ghost inner = base.opened(acc, SyntaxKind::InitialGoal);
        self.bump_first(Ghost(inner));

        let kind = self.current(Ghost(inner), Ghost(take(t, p)));
        let ghost bang = take(t, p).and_then(noise(t, p + 1));
        match kind {
            Some(token) => {
                if token == SyntaxKind::Functor {
                    self.parse_literal(Ghost(inner), Ghost(bang));
                } else {
                    self.recover(
                        describe("expected functor after '!', got ", token),
                        Until::Dot,
                        Until::Never,
                        Ghost(inner),
                        Ghost(bang),
                    );
                    self.finish_node(
                        Ghost(base),
                        Ghost(acc),
                        Ghost(SyntaxKind::InitialGoal),
                        Ghost(
                            bang.and_then(
                                recover(
                                    t,
                                    p + bang.used,
                                    message("expected functor after '!', got "@, token),
                                    Until::Dot,
                                    Until::Never,
                                ),
                            ),
                        ),
                    );
                    return ;
                }
            },
            None => {
                self.note_eof(Ghost(inner), Ghost(bang));
                self.finish_node(
                    Ghost(base),
                    Ghost(acc),
                    Ghost(SyntaxKind::InitialGoal),
                    Ghost(bang.and_then(Out::eof())),
                );
                return ;
            },
        }
        let ghost goal = bang.and_then(literal(t, p + bang.used));

        let kind = self.current(Ghost(inner), Ghost(goal));
        let ghost end = goal.and_then(noise(t, p + goal.used));
        let ghost last;
        match kind {
            Some(token) => {
                if token == SyntaxKind::Dot {
                    self.bump(Ghost(inner), Ghost(end));
                    proof {
                        last = take(t, p + end.used);
                    }
                } else {
                    self.recover(
                        describe("expected '.' after initial goal, got ", token),
                        Until::Dot,
                        Until::Never,
                        Ghost(inner),
                        Ghost(end),
                    );
                    proof {
                        last = recover(
                            t,
                            p + end.used,
                            message("expected '.' after initial goal, got "@, token),
                            Until::Dot,
                            Until::Never,
                        );
                    }
                }
            },
            None => {
                self.note_eof(Ghost(inner), Ghost(end));
                proof {
                    last = Out::eof();
                }
            },
        }
        self.finish_node(
            Ghost(base),
            Ghost(acc),
            Ghost(SyntaxKind::InitialGoal),
            Ghost(end.and_then(last)),
        );
    }

    /// Nothing was parsed yet.
    spec fn fresh(&self) -> bool {
        &&& self.pos() == 0
        &&& builder_children(self.builder) == Seq::<Tree>::empty()
        &&& builder_parents(self.builder) == Seq::<OpenNode>::empty()
        &&& self.errors@ == Seq::<ParserError>::empty()
        &&& !self.unexpected_eof
    }

    /// Parses statement by statement until no token is left, into one `Root`
    /// node.
    fn parse(self) -> (parsed: Parsed)
        requires
            self.wf(),
            self.fresh(),
        ensures
            parsed.tree() == (Tree::Node {
                kind: SyntaxKind::Root.raw(),
                children: program(self.toks(), 0).items,
            }),
            parsed.diagnostics() == program(self.toks(), 0).errors,
            parsed.unexpected_eof == program(self.toks(), 0).eof,
    {
        let mut this = self;
        let ghost t = this.toks();
        let ghost base = this.frame();
        proof {
            this.lemma_reached_self();
        }
        this.start_node(SyntaxKind::Root, Ghost(base), Ghost(Out::empty()));
        let ghost inner = base.opened(Out::empty(), SyntaxKind::Root);
        let ghost mut held = Out::empty();
        proof {
            lemma_empty_and_then(program(t, 0));
        }
        loop
            invariant_except_break
                this.wf(),
                this.toks() == t,
                this.reached(inner, held),
                this.pos() == held.used,
                program(t, 0) == held.and_then(program(t, this.pos())),
            ensures
                this.wf(),
                this.toks() == t,
                this.reached(inner, program(t, 0)),
            decreases left(t, this.pos()),
        {
            let ghost at = this.pos();
            let ghost n = noise(t, at);
            let kind = this.current(Ghost(inner), Ghost(held));
            let ghost q = this.pos();
            let ghost seen = held.and_then(n);
            proof {
                reveal(program);
            }
            match kind {
                Some(token) => {
                    if token == SyntaxKind::Functor {
                        this.parse_rule_or_belief(Ghost(inner), Ghost(seen));
                    } else if token == SyntaxKind::Bang {
                        this.parse_initial_goal(Ghost(inner), Ghost(seen));
                    } else if token == SyntaxKind::At || token == SyntaxKind::Plus || token
                        == SyntaxKind::Minus {
                        this.parse_plan(Ghost(inner), Ghost(seen));
                    } else {
                        this.recover(
                            describe("unexpected token ", token),
                            Until::Dot,
                            Until::Never,
                            Ghost(inner),
                            Ghost(seen),
                        );
                    }
                    proof {
                        let first = statement(t, q);
                        lemma_noise_stops(t, at);
                        lemma_statement_progress(t, q);
                        lemma_regroup3(held, n, first, program(t, q + first.used));
                        held = held.and_then(n).and_then(first);
                    }
                },
                None => {
                    break ;
                },
            }
        }
        this.finish_node(
            Ghost(base),
            Ghost(Out::empty()),
            Ghost(SyntaxKind::Root),
            Ghost(program(t, 0)),
        );
        proof {
            reveal(Parser::reached);
            lemma_empty_and_then(program(t, 0).wrap(SyntaxKind::Root));
            assert(builder_children(this.builder) =~= program(t, 0).wrap(SyntaxKind::Root).items);
            assert(diagnostics_of(this.errors@) =~= program(t, 0).errors);
        }
        Parsed {
            green_node: builder_finish(this.builder),
            errors: this.errors,
            unexpected_eof: this.unexpected_eof,
        }
    }
}

/// Parses a lexed text. The result is one tree under a `Root` node that
/// holds every token of the text, whatever the text is: syntactic errors
/// become `Error` nodes and entries of the error list, and the end of the
/// input where a token was expected sets a flag. The tree, the errors and
/// the flag are those that the grammar in `program` states.
pub fn parse<'a>(lexed: &'a LexedStr<'a>) -> (parsed: Parsed)
    requires
        lexed.wf(),
        byte_len(lexed.source()) <= u32::MAX,
    ensures
        parsed.tree() == (Tree::Node {
            kind: SyntaxKind::Root.raw(),
            children: program(lexed.toks(), 0).items,
        }),
        parsed.diagnostics() == program(lexed.toks(), 0).errors,
        parsed.unexpected_eof == program(lexed.toks(), 0).eof,
        tree_leaves(parsed.tree()) == token_leaves(lexed.toks(), 0, lexed.count()),
        leaves_text(tree_leaves(parsed.tree())) == lexed.source(),
        forall|i: int|
            0 <= i < parsed.errors@.len() ==> (#[trigger] parsed.errors@[i]).token_idx.0
                <= lexed.count(),
{
    let parser = Parser {
        builder: builder_new(),
        tokens: lexed.iter(),
        errors: Vec::new(),
        unexpected_eof: false,
    };
    proof {
        reveal(Parser::wf);
        lexed.lemma_first_start();
    }
    let parsed = parser.parse();
    proof {
        lemma_tree_lossless(lexed);
        lemma_errors_in_text(lexed.toks());
        assert forall|i: int| 0 <= i < parsed.errors@.len() implies (#[trigger] parsed.errors@[i]).token_idx.0
            <= lexed.count() by {
            assert(parsed.diagnostics()[i] == parsed.errors@[i]@);
        }
    }
    parsed
}

} // verus!
