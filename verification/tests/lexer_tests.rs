use pheres::lexer::{tokenize, Cursor, TokenKind};

/// The tokens of `input`, each as the text it covers and its kind.
fn lex(input: &str) -> Vec<(String, String)> {
    let mut offset = 0;
    let mut out = Vec::new();
    for token in tokenize(input) {
        let text = &input[offset..offset + token.len];
        out.push((text.to_string(), format!("{:?}", token.kind)));
        offset += token.len;
    }
    assert_eq!(offset, input.len());
    out
}

fn pairs(expected: &[(&str, &str)]) -> Vec<(String, String)> {
    expected.iter().map(|(text, kind)| (text.to_string(), kind.to_string())).collect()
}

#[test]
fn tokenize_empty_input_gives_no_token() {
    assert!(tokenize("").is_empty());
}

#[test]
fn dotted_functor_is_one_token() {
    assert_eq!(
        lex("foo.bar(1)."),
        pairs(&[
            ("foo.bar", "Functor"),
            ("(", "OpenParen"),
            ("1", "Integer"),
            (")", "CloseParen"),
            (".", "Dot"),
        ])
    );
}

#[test]
fn trailing_dot_is_not_part_of_functor() {
    assert_eq!(lex("foo."), pairs(&[("foo", "Functor"), (".", "Dot")]));
    assert_eq!(lex("a.b.c"), pairs(&[("a.b.c", "Functor")]));
    assert_eq!(
        lex("foo.Bar"),
        pairs(&[("foo", "Functor"), (".", "Dot"), ("Bar", "Variable")])
    );
    assert_eq!(lex("foo.1"), pairs(&[("foo", "Functor"), (".", "Dot"), ("1", "Integer")]));
}

#[test]
fn leading_dot_before_lowercase_starts_a_functor() {
    assert_eq!(lex(".print"), pairs(&[(".print", "Functor")]));
    assert_eq!(lex(". print"), pairs(&[(".", "Dot"), (" ", "Whitespace"), ("print", "Functor")]));
}

#[test]
fn multi_character_operators_take_the_longest_match() {
    assert_eq!(
        lex("<-:-<=>=**-+!!|&||||===..\\=="),
        pairs(&[
            ("<-", "Arrow"),
            (":-", "Define"),
            ("<=", "LtEq"),
            (">=", "GtEq"),
            ("**", "Pow"),
            ("-+", "MinusPlus"),
            ("!!", "BangBang"),
            ("|&|", "ForkJoinAnd"),
            ("|||", "ForkJoinXor"),
            ("==", "Equal"),
            ("=..", "Decompose"),
            ("\\==", "NotEqual"),
        ])
    );
}

#[test]
fn single_character_operators() {
    assert_eq!(
        lex("< > = * - + ! ? : / & | ; , @ ( ) [ ] { }")
            .into_iter()
            .filter(|(_, kind)| kind != "Whitespace")
            .collect::<Vec<_>>(),
        pairs(&[
            ("<", "Lt"),
            (">", "Gt"),
            ("=", "Eq"),
            ("*", "Star"),
            ("-", "Minus"),
            ("+", "Plus"),
            ("!", "Bang"),
            ("?", "Question"),
            (":", "Colon"),
            ("/", "Slash"),
            ("&", "And"),
            ("|", "Or"),
            (";", "Semi"),
            (",", "Comma"),
            ("@", "At"),
            ("(", "OpenParen"),
            (")", "CloseParen"),
            ("[", "OpenBracket"),
            ("]", "CloseBracket"),
            ("{", "OpenBrace"),
            ("}", "CloseBrace"),
        ])
    );
}

#[test]
fn incomplete_operators_fall_back() {
    assert_eq!(lex("=."), pairs(&[("=", "Eq"), (".", "Dot")]));
    assert_eq!(lex("|&"), pairs(&[("|", "Or"), ("&", "And")]));
    assert_eq!(lex("||"), pairs(&[("|", "Or"), ("|", "Or")]));
    assert_eq!(lex("\\="), pairs(&[("\\", "Unknown"), ("=", "Eq")]));
    assert_eq!(lex("->"), pairs(&[("-", "Minus"), (">", "Gt")]));
}

#[test]
fn keywords_are_whole_words() {
    assert_eq!(
        lex("true false if else while for include begin end not div mod")
            .into_iter()
            .filter(|(_, kind)| kind != "Whitespace")
            .collect::<Vec<_>>(),
        pairs(&[
            ("true", "True"),
            ("false", "False"),
            ("if", "If"),
            ("else", "Else"),
            ("while", "While"),
            ("for", "For"),
            ("include", "Include"),
            ("begin", "Begin"),
            ("end", "End"),
            ("not", "Not"),
            ("div", "Div"),
            ("mod", "Mod"),
        ])
    );
}

#[test]
fn keyword_prefix_of_a_longer_word_is_a_functor() {
    assert_eq!(lex("trueish"), pairs(&[("trueish", "Functor")]));
    assert_eq!(lex("iff"), pairs(&[("iff", "Functor")]));
    assert_eq!(lex("format"), pairs(&[("format", "Functor")]));
    assert_eq!(lex("not_x"), pairs(&[("not_x", "Functor")]));
    assert_eq!(lex("mod2"), pairs(&[("mod2", "Functor")]));
    assert_eq!(lex("tru"), pairs(&[("tru", "Functor")]));
    assert_eq!(lex("not("), pairs(&[("not", "Not"), ("(", "OpenParen")]));
}

#[test]
fn variables_and_wildcards() {
    assert_eq!(lex("Foo_1"), pairs(&[("Foo_1", "Variable")]));
    assert_eq!(lex("_"), pairs(&[("_", "Wildcard")]));
    assert_eq!(lex("___"), pairs(&[("___", "Wildcard")]));
    assert_eq!(lex("_Foo"), pairs(&[("_Foo", "Variable")]));
    assert_eq!(lex("__X1"), pairs(&[("__X1", "Variable")]));
    assert_eq!(lex("_foo"), pairs(&[("_", "Wildcard"), ("foo", "Functor")]));
    assert_eq!(lex("_1"), pairs(&[("_", "Wildcard"), ("1", "Integer")]));
}

#[test]
fn numbers() {
    assert_eq!(lex("42"), pairs(&[("42", "Integer")]));
    assert_eq!(lex("42.0"), pairs(&[("42.0", "Float")]));
    assert_eq!(lex("42e-3"), pairs(&[("42e-3", "Float")]));
    assert_eq!(lex("1.5E+10"), pairs(&[("1.5E+10", "Float")]));
    assert_eq!(lex("7e2"), pairs(&[("7e2", "Float")]));
    assert_eq!(lex("1."), pairs(&[("1", "Integer"), (".", "Dot")]));
    assert_eq!(lex("1.x"), pairs(&[("1", "Integer"), (".x", "Functor")]));
    assert_eq!(lex("1e"), pairs(&[("1", "Integer"), ("e", "Functor")]));
    assert_eq!(lex("1e+"), pairs(&[("1", "Integer"), ("e", "Functor"), ("+", "Plus")]));
    assert_eq!(lex("1.e5"), pairs(&[("1", "Integer"), (".e5", "Functor")]));
}

#[test]
fn strings_carry_a_terminated_flag() {
    assert_eq!(lex("\"foo\""), pairs(&[("\"foo\"", "String { terminated: true }")]));
    assert_eq!(lex("\"a\\\"b\""), pairs(&[("\"a\\\"b\"", "String { terminated: true }")]));
    assert_eq!(lex("\"abc"), pairs(&[("\"abc", "String { terminated: false }")]));
    assert_eq!(lex("\"abc\\"), pairs(&[("\"abc\\", "String { terminated: false }")]));
    assert_eq!(
        lex("\"ab\ncd"),
        pairs(&[("\"ab\n", "String { terminated: false }"), ("cd", "Functor")])
    );
}

#[test]
fn backslash_escapes_a_newline_in_a_string() {
    assert_eq!(lex("\"a\\\nb\""), pairs(&[("\"a\\\nb\"", "String { terminated: true }")]));
}

#[test]
fn comments() {
    assert_eq!(
        lex("// c\nx"),
        pairs(&[("// c", "LineComment"), ("\n", "Whitespace"), ("x", "Functor")])
    );
    assert_eq!(lex("# c"), pairs(&[("# c", "LineComment")]));
    assert_eq!(lex("/* a */"), pairs(&[("/* a */", "BlockComment { terminated: true }")]));
    assert_eq!(lex("/* a"), pairs(&[("/* a", "BlockComment { terminated: false }")]));
    assert_eq!(lex("/*/"), pairs(&[("/*/", "BlockComment { terminated: false }")]));
    assert_eq!(
        lex("/**/x"),
        pairs(&[("/**/", "BlockComment { terminated: true }"), ("x", "Functor")])
    );
    assert_eq!(lex("/ 2"), pairs(&[("/", "Slash"), (" ", "Whitespace"), ("2", "Integer")]));
}

#[test]
fn unknown_is_one_code_point() {
    assert_eq!(lex("$"), pairs(&[("$", "Unknown")]));
    assert_eq!(lex("é€x"), pairs(&[("é", "Unknown"), ("€", "Unknown"), ("x", "Functor")]));
    assert_eq!(lex("\u{1F600}~"), pairs(&[("\u{1F600}", "Unknown"), ("~", "Unknown")]));
}

#[test]
fn whitespace_runs_include_unicode_spaces() {
    assert_eq!(lex(" \t\r\n\u{a0}\u{2003}a"), pairs(&[(" \t\r\n\u{a0}\u{2003}", "Whitespace"), ("a", "Functor")]));
}

#[test]
fn token_lengths_are_in_bytes() {
    let tokens = tokenize("\"é\" €");
    assert_eq!(tokens.len(), 3);
    assert_eq!(tokens[0].len, 4);
    assert_eq!(tokens[1].len, 1);
    assert_eq!(tokens[2].len, 3);
}

#[test]
fn tokens_cover_the_input() {
    for input in [
        "",
        "   ",
        "foo.bar(1).\n// c\n+!g : X <- .print(\"h\\\"i\"); ?b. é",
        "\"unterminated",
        "/* open",
        "\u{0}\u{1}\u{7f}",
        "_A __ _b 1.2.3 a..b",
    ] {
        let total: usize = tokenize(input).iter().map(|t| t.len).sum();
        assert_eq!(total, input.len());
        assert!(tokenize(input).iter().all(|t| t.len > 0));
    }
}

#[test]
fn cursor_advances_one_token_at_a_time() {
    let mut cursor = Cursor::new("ab cd");
    assert!(!cursor.is_eof());
    assert_eq!(cursor.len_consumed(), 0);
    let first = cursor.advance_token();
    assert!(matches!(first.kind, TokenKind::Functor));
    assert_eq!(first.len, 2);
    assert_eq!(cursor.len_consumed(), 2);
    let second = cursor.advance_token();
    assert!(matches!(second.kind, TokenKind::Whitespace));
    assert_eq!(second.len, 3);
    cursor.reset_len_consumed();
    assert_eq!(cursor.len_consumed(), 0);
    let third = cursor.advance_token();
    assert!(matches!(third.kind, TokenKind::Functor));
    assert_eq!(third.len, 2);
    assert!(cursor.is_eof());
}

#[test]
fn cursor_on_empty_input_is_at_end() {
    let cursor = Cursor::new("");
    assert!(cursor.is_eof());
    assert_eq!(cursor.len_consumed(), 0);
}
