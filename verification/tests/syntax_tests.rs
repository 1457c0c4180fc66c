use pheres::syntax::{
    AdditiveOperator, AgentSpeakLanguage, ComparisonOperator, FormulaType, LexedStr,
    MultiplicativeOperator, SyntaxErrorKind, SyntaxKind, TokenIdx, UnaryOperator, MAX_RAW_KIND,
};

#[test]
fn raw_kinds_are_dense_and_round_trip() {
    assert_eq!(SyntaxKind::Whitespace.to_raw(), 0);
    assert_eq!(SyntaxKind::Tilde.to_raw(), 34);
    assert_eq!(SyntaxKind::Eof.to_raw(), 57);
    assert_eq!(SyntaxKind::Root.to_raw(), MAX_RAW_KIND);
    for raw in 0..=MAX_RAW_KIND {
        let kind = SyntaxKind::from_raw(raw).unwrap();
        assert_eq!(kind.to_raw(), raw);
        assert_eq!(AgentSpeakLanguage::kind_from_raw(raw), kind);
        assert_eq!(AgentSpeakLanguage::kind_to_raw(kind), raw);
    }
}

#[test]
fn raw_kind_above_the_last_is_refused() {
    assert_eq!(SyntaxKind::from_raw(MAX_RAW_KIND + 1), None);
    assert_eq!(SyntaxKind::from_raw(u16::MAX), None);
}

#[test]
fn kinds_are_ordered_by_their_raw_value() {
    assert!(SyntaxKind::Whitespace < SyntaxKind::LineComment);
    assert!(SyntaxKind::Eof < SyntaxKind::Belief);
    assert!(SyntaxKind::IfThenElse < SyntaxKind::Root);
}

#[test]
fn kind_names() {
    assert_eq!(SyntaxKind::Whitespace.name(), "Whitespace");
    assert_eq!(SyntaxKind::MultiplicativeExpression.name(), "MultiplicativeExpression");
    assert_eq!(SyntaxKind::Root.name(), "Root");
    for raw in 0..=MAX_RAW_KIND {
        let kind = SyntaxKind::from_raw(raw).unwrap();
        assert_eq!(kind.name(), format!("{:?}", kind));
    }
}

#[test]
fn comparison_operators() {
    assert_eq!(SyntaxKind::LtEq.comparison_operator(), Some(ComparisonOperator::LtEq));
    assert_eq!(SyntaxKind::GtEq.comparison_operator(), Some(ComparisonOperator::GtEq));
    assert_eq!(SyntaxKind::NotEqual.comparison_operator(), Some(ComparisonOperator::NotEqual));
    assert_eq!(SyntaxKind::Equal.comparison_operator(), Some(ComparisonOperator::Equal));
    assert_eq!(SyntaxKind::Decompose.comparison_operator(), Some(ComparisonOperator::Decompose));
    assert_eq!(SyntaxKind::Eq.comparison_operator(), Some(ComparisonOperator::Eq));
    assert_eq!(SyntaxKind::Lt.comparison_operator(), Some(ComparisonOperator::Lt));
    assert_eq!(SyntaxKind::Gt.comparison_operator(), Some(ComparisonOperator::Gt));
    assert_eq!(SyntaxKind::Plus.comparison_operator(), None);
    assert_eq!(SyntaxKind::Comparison.comparison_operator(), None);
}

#[test]
fn arithmetic_operators() {
    assert_eq!(SyntaxKind::Plus.additive_operator(), Some(AdditiveOperator::Add));
    assert_eq!(SyntaxKind::Minus.additive_operator(), Some(AdditiveOperator::Sub));
    assert_eq!(SyntaxKind::Star.additive_operator(), None);
    assert_eq!(SyntaxKind::Star.multiplicative_operator(), Some(MultiplicativeOperator::Mul));
    assert_eq!(SyntaxKind::Slash.multiplicative_operator(), Some(MultiplicativeOperator::Div));
    assert_eq!(SyntaxKind::Div.multiplicative_operator(), Some(MultiplicativeOperator::FloorDiv));
    assert_eq!(SyntaxKind::Mod.multiplicative_operator(), Some(MultiplicativeOperator::Mod));
    assert_eq!(SyntaxKind::Pow.multiplicative_operator(), None);
    assert_eq!(SyntaxKind::Plus.unary_operator(), Some(UnaryOperator::Pos));
    assert_eq!(SyntaxKind::Minus.unary_operator(), Some(UnaryOperator::Neg));
    assert_eq!(SyntaxKind::Not.unary_operator(), None);
}

#[test]
fn formula_types() {
    assert_eq!(SyntaxKind::BangBang.formula_type(), Some(FormulaType::AchieveLater));
    assert_eq!(SyntaxKind::Bang.formula_type(), Some(FormulaType::Achieve));
    assert_eq!(SyntaxKind::Question.formula_type(), Some(FormulaType::Test));
    assert_eq!(SyntaxKind::MinusPlus.formula_type(), Some(FormulaType::Replace));
    assert_eq!(SyntaxKind::Plus.formula_type(), Some(FormulaType::Add));
    assert_eq!(SyntaxKind::Minus.formula_type(), Some(FormulaType::Remove));
    assert_eq!(SyntaxKind::Functor.formula_type(), None);
}

#[test]
fn error_kind_messages() {
    assert_eq!(SyntaxErrorKind::UnexpectedToken.to_string(), "unexpected token");
    assert_eq!(SyntaxErrorKind::UnterminatedString.to_string(), "unterminated string");
    assert_eq!(
        SyntaxErrorKind::UnterminatedBlockComment.to_string(),
        "unterminated block comment"
    );
}

/// The text of every token, the sentinel included, cut out by byte range.
fn slices<'a>(lexed: &LexedStr<'a>) -> Vec<&'a str> {
    (0..=lexed.len()).map(|i| &lexed.text[lexed.token_range(TokenIdx(i))]).collect()
}

#[test]
fn token_ranges_rebuild_the_text() {
    for text in [
        "",
        " ",
        "foo.bar(1).",
        "+!g : X <- .print(\"h\\\"i\"); ?b. é€\u{1F600}",
        "/* open",
        "\"open",
        "a\u{a0}b",
    ] {
        let lexed = LexedStr::new(text);
        let parts = slices(&lexed);
        assert_eq!(parts.concat(), text);
        assert_eq!(parts.len(), lexed.len() + 1);
        assert_eq!(*parts.last().unwrap(), "");
        let end = lexed.token_range(TokenIdx(lexed.len()));
        assert_eq!(end, text.len()..text.len());
    }
}

#[test]
fn lexed_str_of_empty_text_holds_the_sentinel_only() {
    let lexed = LexedStr::new("");
    assert_eq!(lexed.len(), 0);
    assert_eq!(lexed.token_range(TokenIdx(0)), 0..0);
    assert!(lexed.errors.is_empty());
    assert!(lexed.iter().peek().is_none());
}

#[test]
fn token_ranges_are_byte_offsets() {
    let lexed = LexedStr::new("é x");
    assert_eq!(lexed.len(), 3);
    assert_eq!(lexed.token_range(TokenIdx(0)), 0..2);
    assert_eq!(lexed.token_range(TokenIdx(1)), 2..3);
    assert_eq!(lexed.token_range(TokenIdx(2)), 3..4);
    assert_eq!(lexed.token_range(TokenIdx(3)), 4..4);
}

#[test]
fn lexical_errors_name_their_token() {
    let lexed = LexedStr::new("a $ \"x\n/* y");
    let found: Vec<(SyntaxErrorKind, usize)> =
        lexed.errors.iter().map(|e| (e.kind, e.token_idx.0)).collect();
    assert_eq!(
        found,
        vec![
            (SyntaxErrorKind::UnexpectedToken, 2),
            (SyntaxErrorKind::UnterminatedString, 4),
            (SyntaxErrorKind::UnterminatedBlockComment, 5),
        ]
    );
    assert_eq!(&lexed.text[lexed.token_range(TokenIdx(4))], "\"x\n");
}

#[test]
fn terminated_tokens_give_no_lexical_error() {
    assert!(LexedStr::new("\"ok\" /* ok */ foo(1).").errors.is_empty());
}

#[test]
fn cursor_walks_the_tokens_and_stops_at_the_end() {
    let lexed = LexedStr::new("foo(X)");
    let mut iter = lexed.iter();
    assert_eq!(iter.current_token_idx().0, 0);
    assert_eq!(iter.peek(), Some((SyntaxKind::Functor, "foo")));
    assert_eq!(iter.peek(), Some((SyntaxKind::Functor, "foo")));
    assert_eq!(iter.next(), Some((SyntaxKind::Functor, "foo")));
    assert_eq!(iter.current_token_idx().0, 1);
    assert_eq!(iter.next(), Some((SyntaxKind::OpenParen, "(")));
    assert_eq!(iter.next(), Some((SyntaxKind::Variable, "X")));
    assert_eq!(iter.next(), Some((SyntaxKind::CloseParen, ")")));
    assert_eq!(iter.current_token_idx().0, 4);
    assert_eq!(iter.peek(), None);
    assert_eq!(iter.next(), None);
    assert_eq!(iter.next(), None);
    assert_eq!(iter.current_token_idx().0, 4);
}

#[test]
fn unknown_character_becomes_kind_error() {
    let lexed = LexedStr::new("$");
    assert_eq!(lexed.iter().peek(), Some((SyntaxKind::Error, "$")));
}

#[test]
fn cursor_copy_is_independent() {
    let lexed = LexedStr::new("a b");
    let mut first = lexed.iter();
    let second = first.clone();
    first.next();
    assert_eq!(first.current_token_idx().0, 1);
    assert_eq!(second.current_token_idx().0, 0);
}
