use pheres::parser::{parse, Parsed};
use pheres::syntax::{LexedStr, SyntaxKind};
use rowan::{GreenNodeData, NodeOrToken};

fn kind_name(raw: rowan::SyntaxKind) -> &'static str {
    SyntaxKind::from_raw(raw.0).unwrap().name()
}

fn is_noise(raw: rowan::SyntaxKind) -> bool {
    matches!(
        SyntaxKind::from_raw(raw.0).unwrap(),
        SyntaxKind::Whitespace | SyntaxKind::LineComment | SyntaxKind::BlockComment
    )
}

/// The tree as one line: a node as its kind and its children in brackets, a
/// token as its text. Whitespace and comments are left out.
fn outline(node: &GreenNodeData, out: &mut String) {
    out.push_str(kind_name(node.kind()));
    out.push('[');
    let mut first = true;
    for child in node.children() {
        match child {
            NodeOrToken::Node(inner) => {
                if !first {
                    out.push(' ');
                }
                first = false;
                outline(inner, out);
            }
            NodeOrToken::Token(token) => {
                if is_noise(token.kind()) {
                    continue;
                }
                if !first {
                    out.push(' ');
                }
                first = false;
                out.push_str(token.text());
            }
        }
    }
    out.push(']');
}

/// The text of all the leaves, in order.
fn leaves(node: &GreenNodeData, out: &mut String) {
    for child in node.children() {
        match child {
            NodeOrToken::Node(inner) => leaves(inner, out),
            NodeOrToken::Token(token) => out.push_str(token.text()),
        }
    }
}

fn parse_text(text: &str) -> Parsed {
    let lexed = LexedStr::new(text);
    parse(&lexed)
}

fn shape(text: &str) -> String {
    let parsed = parse_text(text);
    let mut out = String::new();
    outline(&parsed.green_node, &mut out);
    out
}

fn messages(text: &str) -> Vec<(String, usize)> {
    parse_text(text).errors.iter().map(|e| (e.message.clone(), e.token_idx.0)).collect()
}

/// The shape of `term` where it stands as the body of a rule.
fn term_shape(term: &str) -> String {
    let text = format!("x :- {}.", term);
    let whole = shape(&text);
    let prefix = "Root[Rule[Literal[x] :- ";
    let suffix = " .]]";
    assert!(whole.starts_with(prefix), "{}", whole);
    assert!(whole.ends_with(suffix), "{}", whole);
    whole[prefix.len()..whole.len() - suffix.len()].to_string()
}

#[test]
fn empty_input_is_an_empty_root() {
    let parsed = parse_text("");
    assert_eq!(kind_name(parsed.green_node.kind()), "Root");
    assert_eq!(parsed.green_node.children().count(), 0);
    assert!(parsed.errors.is_empty());
    assert!(!parsed.unexpected_eof);
}

#[test]
fn whitespace_only_input_is_a_root_of_noise() {
    let parsed = parse_text("  \n// note\n/* block */ ");
    assert_eq!(shape("  \n// note\n/* block */ "), "Root[]");
    assert_eq!(parsed.green_node.children().count(), 5);
    assert!(parsed.errors.is_empty());
    assert!(!parsed.unexpected_eof);
}

#[test]
fn tree_keeps_every_byte() {
    for text in [
        "",
        " ",
        "foo.",
        "likes(alice, bob)[source(self)] .",
        "b :- a & not c | d > 1 + 2 * -3 ** 4.",
        "!start.",
        "@l1 +!go(X) : ready & X > 0 <- !!move(X); ?pos(Y); -+at(Y); .print(\"hi\").",
        "bad_token. +trigger : ctx -> body.",
        ") ( ] [ ; , . :- <- * $ \u{1F600}",
        "foo(",
        "foo(a,",
        "+p <- a b c",
        "!",
        "!foo",
        "/* unterminated",
        "\"unterminated\n+x.",
        "foo()[]",
        "+g <- while(x); if y; for z.",
        "x :- [1, 2].",
        "not not not",
    ] {
        let parsed = parse_text(text);
        assert_eq!(kind_name(parsed.green_node.kind()), "Root");
        let mut out = String::new();
        leaves(&parsed.green_node, &mut out);
        assert_eq!(out, text);
        let lexed = LexedStr::new(text);
        for error in &parsed.errors {
            assert!(error.token_idx.0 <= lexed.len());
        }
    }
}

#[test]
fn belief_and_rule() {
    assert_eq!(shape("foo."), "Root[Belief[Literal[foo] .]]");
    assert_eq!(
        shape("foo(1, X)."),
        "Root[Belief[Literal[foo LiteralTerms[( 1 , X )]] .]]"
    );
    assert_eq!(
        shape("a :- b & c."),
        "Root[Rule[Literal[a] :- Conjunction[Literal[b] & Literal[c]] .]]"
    );
    assert!(messages("foo. a :- b.").is_empty());
}

#[test]
fn noise_goes_under_the_node_that_is_open() {
    let parsed = parse_text("a :- 1 + 2 .");
    let mut full = String::new();
    fn with_noise(node: &GreenNodeData, out: &mut String) {
        out.push_str(kind_name(node.kind()));
        out.push('[');
        for child in node.children() {
            match child {
                NodeOrToken::Node(inner) => with_noise(inner, out),
                NodeOrToken::Token(token) => {
                    out.push('<');
                    out.push_str(token.text());
                    out.push('>');
                }
            }
        }
        out.push(']');
    }
    with_noise(&parsed.green_node, &mut full);
    assert_eq!(
        full,
        "Root[Rule[Literal[<a>< >]<:->< >AdditiveExpression[<1>< ><+>< ><2>< >]<.>]]"
    );
}

#[test]
fn precedence_multiplication_binds_tighter_than_addition() {
    assert_eq!(
        term_shape("1 + 2 * 3"),
        "AdditiveExpression[1 + MultiplicativeExpression[2 * 3]]"
    );
    assert_eq!(
        term_shape("1 * 2 + 3"),
        "AdditiveExpression[MultiplicativeExpression[1 * 2] + 3]"
    );
}

#[test]
fn precedence_exponentiation_groups_to_the_right() {
    assert_eq!(
        term_shape("2 ** 3 ** 2"),
        "Exponentiation[2 ** Exponentiation[3 ** 2]]"
    );
    assert_eq!(
        term_shape("2 ** -1"),
        "Exponentiation[2 ** UnaryExpression[- 1]]"
    );
}

#[test]
fn precedence_subtraction_groups_to_the_left() {
    assert_eq!(
        term_shape("1 - 2 - 3"),
        "AdditiveExpression[AdditiveExpression[1 - 2] - 3]"
    );
    assert_eq!(
        term_shape("8 / 4 div 2 mod 3"),
        "MultiplicativeExpression[MultiplicativeExpression[MultiplicativeExpression[8 / 4] div 2] mod 3]"
    );
}

#[test]
fn precedence_ladder_from_disjunction_to_atom() {
    assert_eq!(
        term_shape("a | b & not c = 1 + 2 * -3 ** 4"),
        "Disjunction[Literal[a] | Conjunction[Literal[b] & Negation[not Comparison[Literal[c] = \
         AdditiveExpression[1 + MultiplicativeExpression[2 * UnaryExpression[- Exponentiation[3 ** 4]]]]]]]]"
    );
    assert_eq!(
        term_shape("a | b | c"),
        "Disjunction[Disjunction[Literal[a] | Literal[b]] | Literal[c]]"
    );
    assert_eq!(
        term_shape("a & b & c"),
        "Conjunction[Conjunction[Literal[a] & Literal[b]] & Literal[c]]"
    );
}

#[test]
fn negation_takes_its_keyword_and_nests() {
    assert_eq!(term_shape("not a"), "Negation[not Literal[a]]");
    assert_eq!(term_shape("not not a"), "Negation[not Negation[not Literal[a]]]");
    assert_eq!(
        term_shape("not a = b"),
        "Negation[not Comparison[Literal[a] = Literal[b]]]"
    );
}

#[test]
fn parenthesized_term_is_an_atom() {
    assert_eq!(
        term_shape("(1 + 2) * 3"),
        "MultiplicativeExpression[( AdditiveExpression[1 + 2] ) * 3]"
    );
    assert_eq!(term_shape("X"), "X");
    assert_eq!(term_shape("_"), "_");
    assert_eq!(term_shape("\"s\""), "\"s\"");
    assert_eq!(term_shape("true"), "true");
    assert_eq!(term_shape("4.5"), "4.5");
}

#[test]
fn comparison_does_not_chain() {
    let text = "x :- a = b = c.";
    assert_eq!(
        shape(text),
        "Root[Rule[Literal[x] :- Comparison[Literal[a] = Literal[b]] Error[= c .]]]"
    );
    assert_eq!(
        messages(text),
        vec![("expected '.' after rule or belief".to_string(), 10)]
    );
    for op in ["<=", ">=", "\\==", "==", "=..", "=", "<", ">"] {
        assert_eq!(
            term_shape(&format!("1 {} 2", op)),
            format!("Comparison[1 {} 2]", op)
        );
    }
}

#[test]
fn recovery_at_top_level_stops_behind_the_first_dot() {
    let text = ") bad. +trigger : ctx <- body.";
    assert_eq!(
        shape(text),
        "Root[Error[) bad .] Plan[+ Literal[trigger] : PlanContext[Literal[ctx]] <- \
         Body[Formula[Literal[body]] .]]]"
    );
    assert_eq!(messages(text), vec![("unexpected token CloseParen".to_string(), 0)]);
    assert!(!parse_text(text).unexpected_eof);
}

#[test]
fn recovery_boundedness_input_as_given() {
    let text = "bad_token. +trigger : ctx -> body.";
    let whole = shape(text);
    assert!(whole.starts_with("Root[Belief[Literal[bad_token] .] Plan[+ Literal[trigger] : "), "{}", whole);
    assert_eq!(
        whole,
        "Root[Belief[Literal[bad_token] .] Plan[+ Literal[trigger] : \
         PlanContext[AdditiveExpression[Literal[ctx] - Error[> body]]]] Error[.]]"
    );
    assert_eq!(
        messages(text),
        vec![
            ("expected atom, got Gt".to_string(), 11),
            ("unexpected token Dot".to_string(), 14),
        ]
    );
}

#[test]
fn recovery_takes_at_least_one_token_at_top_level() {
    assert_eq!(shape(")"), "Root[Error[)]]");
    assert_eq!(shape(". ."), "Root[Error[.] Error[.]]");
    assert_eq!(messages(". ."), vec![
        ("unexpected token Dot".to_string(), 0),
        ("unexpected token Dot".to_string(), 2),
    ]);
}

#[test]
fn recovery_before_an_excluded_token_takes_nothing() {
    let text = "+.";
    assert_eq!(shape(text), "Root[Plan[+ Literal[Error[]]] Error[.]]");
    assert_eq!(
        messages(text),
        vec![
            ("expected literal, got Dot".to_string(), 1),
            ("unexpected token Dot".to_string(), 1),
        ]
    );
}

#[test]
fn annotation_list_may_be_empty() {
    assert_eq!(
        shape("foo[]."),
        "Root[Belief[Literal[foo LiteralAnnotations[[ ]]] .]]"
    );
    assert!(messages("foo[].").is_empty());
    assert_eq!(
        shape("foo(1)[a, b]."),
        "Root[Belief[Literal[foo LiteralTerms[( 1 )] LiteralAnnotations[[ Literal[a] , Literal[b] ]]] .]]"
    );
    assert!(messages("foo(1)[a, b].").is_empty());
}

#[test]
fn annotation_emptiness_input_as_given() {
    let text = "foo()[]";
    assert_eq!(
        shape(text),
        "Root[Belief[Literal[foo LiteralTerms[( Error[] )] LiteralAnnotations[[ ]]] Error[]]]"
    );
    assert_eq!(
        messages(text),
        vec![
            ("expected atom, got CloseParen".to_string(), 2),
            ("expected '.' after rule or belief".to_string(), 5),
        ]
    );
}

#[test]
fn missing_closing_paren_recovers_up_to_the_paren_or_before_dot() {
    assert_eq!(
        shape("foo(a b)."),
        "Root[Belief[Literal[foo LiteralTerms[( Literal[a] Error[b )]]] .]]"
    );
    assert_eq!(
        messages("foo(a b)."),
        vec![("expected ')' to close literal, got Functor".to_string(), 4)]
    );
    assert_eq!(
        shape("foo(a b."),
        "Root[Belief[Literal[foo LiteralTerms[( Literal[a] Error[b]]] .]]"
    );
    assert_eq!(
        shape("foo[a b]."),
        "Root[Belief[Literal[foo LiteralAnnotations[[ Literal[a] Error[b ]]]] .]]"
    );
    assert_eq!(
        messages("foo[a b]."),
        vec![("expected ']' to close literal annotation, got Functor".to_string(), 4)]
    );
    assert_eq!(
        messages("x :- (a b)."),
        vec![("expected ')', got Functor".to_string(), 7)]
    );
}

#[test]
fn end_of_input_sets_the_flag_without_an_error() {
    for text in ["!", "!foo", "foo(", "foo(a", "foo[a", "x :- (a", "+p <- a", "+p <- a;", "x :- 1 +"] {
        let parsed = parse_text(text);
        assert!(parsed.unexpected_eof, "{}", text);
    }
    assert!(messages("!").is_empty());
    assert!(messages("!foo").is_empty());
    assert_eq!(shape("!"), "Root[InitialGoal[!]]");
    assert_eq!(shape("!foo"), "Root[InitialGoal[! Literal[foo]]]");
    assert!(!parse_text("!foo.").unexpected_eof);
}

#[test]
fn initial_goal() {
    assert_eq!(shape("!start."), "Root[InitialGoal[! Literal[start] .]]");
    assert!(messages("!start.").is_empty());
    assert_eq!(shape("!X y. z."), "Root[InitialGoal[! Error[X y .]] Belief[Literal[z] .]]");
    assert_eq!(
        messages("!X y. z."),
        vec![("expected functor after '!', got Variable".to_string(), 1)]
    );
    assert_eq!(
        shape("!go now. z."),
        "Root[InitialGoal[! Literal[go] Error[now .]] Belief[Literal[z] .]]"
    );
    assert_eq!(
        messages("!go now. z."),
        vec![("expected '.' after initial goal, got Functor".to_string(), 3)]
    );
}

#[test]
fn plan_with_annotation_context_and_body() {
    let text = "@l1 +!go(X) : ready <- !!move(X); ?pos(Y); -+at(Y); +seen; -old; !now; done.";
    assert_eq!(
        shape(text),
        "Root[Plan[PlanAnnotation[@ Literal[l1]] + ! Literal[go LiteralTerms[( X )]] : \
         PlanContext[Literal[ready]] <- Body[\
         Formula[!! Literal[move LiteralTerms[( X )]]] ; \
         Formula[? Literal[pos LiteralTerms[( Y )]]] ; \
         Formula[-+ Literal[at LiteralTerms[( Y )]]] ; \
         Formula[+ Literal[seen]] ; \
         Formula[- Literal[old]] ; \
         Formula[! Literal[now]] ; \
         Formula[Literal[done]] .]]]"
    );
    assert!(messages(text).is_empty());
    assert!(!parse_text(text).unexpected_eof);
}

#[test]
fn plan_without_trigger_is_an_error_but_goes_on() {
    let text = "@l go <- a.";
    assert_eq!(
        shape(text),
        "Root[Plan[PlanAnnotation[@ Literal[l]] Literal[go] <- Body[Formula[Literal[a]] .]]]"
    );
    assert_eq!(
        messages(text),
        vec![("expected '+' or '-' for plan trigger".to_string(), 3)]
    );
}

#[test]
fn plan_without_body_leaves_its_dot() {
    let text = "-gone : c.";
    assert_eq!(
        shape(text),
        "Root[Plan[- Literal[gone] : PlanContext[Literal[c]]] Error[.]]"
    );
    assert_eq!(messages(text), vec![("unexpected token Dot".to_string(), 6)]);
}

#[test]
fn body_recovery_takes_the_next_separator() {
    let text = "+p <- a b; c.";
    assert_eq!(
        shape(text),
        "Root[Plan[+ Literal[p] <- Body[Formula[Literal[a]] Error[b ;] Formula[Literal[c]] .]]]"
    );
    assert_eq!(
        messages(text),
        vec![("expected ';' or '.', got Functor".to_string(), 7)]
    );
}

#[test]
fn lists_and_control_flow_are_reported_not_parsed() {
    assert_eq!(
        messages("x :- [1]."),
        vec![("expected atom, got OpenBracket".to_string(), 4)]
    );
    assert_eq!(
        shape("x :- [1]."),
        "Root[Rule[Literal[x] :- Error[[ 1 ]] .]]"
    );
    assert_eq!(
        messages("+p <- while."),
        vec![("expected atom, got While".to_string(), 5)]
    );
    assert_eq!(
        shape("+p <- while."),
        "Root[Plan[+ Literal[p] <- Body[Formula[Error[while]] .]]]"
    );
}

#[test]
fn unknown_character_is_a_token_of_kind_error() {
    let text = "foo($).";
    let lexed = LexedStr::new(text);
    assert_eq!(lexed.errors.len(), 1);
    assert_eq!(lexed.errors[0].token_idx.0, 2);
    let parsed = parse(&lexed);
    assert_eq!(
        messages(text),
        vec![("expected atom, got Error".to_string(), 2)]
    );
    let mut out = String::new();
    leaves(&parsed.green_node, &mut out);
    assert_eq!(out, text);
}

#[test]
fn parser_error_to_string_is_its_message() {
    let parsed = parse_text(")");
    assert_eq!(parsed.errors.len(), 1);
    assert_eq!(parsed.errors[0].to_string(), "unexpected token CloseParen");
}

#[test]
fn deep_nesting_terminates() {
    let mut text = String::from("x :- ");
    for _ in 0..200 {
        text.push('(');
    }
    text.push('1');
    for _ in 0..200 {
        text.push(')');
    }
    text.push('.');
    let parsed = parse_text(&text);
    assert!(parsed.errors.is_empty());
    let mut out = String::new();
    leaves(&parsed.green_node, &mut out);
    assert_eq!(out, text);
}
