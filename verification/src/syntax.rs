use crate::lexer::{covers, scan_all, tokens_of, Token, TokenKind};
use crate::text::{byte_len, lemma_byte_len_split, lemma_encode_prefix, split_chars};
use std::ops::Range;
use vstd::prelude::*;
use vstd::string::StringSliceAdditionalSpecFns;
use vstd::utf8::{decode_utf8, encode_utf8, encode_utf8_decode_utf8};

verus! {

/// Index of a token in a lexed text.
#[derive(Copy, Clone, Debug)]
pub struct TokenIdx(pub usize);

/// The language whose trees carry `SyntaxKind` tags. It only names the
/// language: no function of this library takes or returns a value of it.
#[derive(Debug, Copy, Clone, PartialEq, Eq, PartialOrd, Ord, Hash)]
pub enum AgentSpeakLanguage {
    AgentSpeak,
}

/// Every kind of token and every kind of tree node, in one numbering.
#[derive(Debug, Copy, Clone, PartialEq, Eq, Structural, PartialOrd, Ord, Hash)]
pub enum SyntaxKind {
    Whitespace,
    LineComment,
    BlockComment,
    Functor,
    Variable,
    Wildcard,
    Integer,
    Float,
    String,
    True,
    False,
    If,
    Else,
    While,
    For,
    Include,
    Begin,
    End,
    OpenParen,
    CloseParen,
    OpenBracket,
    CloseBracket,
    OpenBrace,
    CloseBrace,
    Arrow,
    Define,
    Colon,
    ForkJoinAnd,
    ForkJoinXor,
    BangBang,
    Bang,
    Question,
    MinusPlus,
    Not,
    Tilde,
    Plus,
    Minus,
    Slash,
    Div,
    Mod,
    Pow,
    Star,
    And,
    Or,
    LtEq,
    GtEq,
    NotEqual,
    Equal,
    Decompose,
    Eq,
    Lt,
    Gt,
    Semi,
    Comma,
    Dot,
    At,
    Error,
    Eof,
    Belief,
    Rule,
    InitialGoal,
    Plan,
    PlanAnnotation,
    PlanContext,
    Body,
    Formula,
    Literal,
    LiteralTerms,
    LiteralAnnotations,
    Disjunction,
    Conjunction,
    Negation,
    Comparison,
    AdditiveExpression,
    MultiplicativeExpression,
    UnaryExpression,
    PowerExpression,
    Exponentiation,
    Atom,
    List,
    WhileLoop,
    ForLoop,
    IfThenElse,
    Root,
}

/// The largest numeric tag that stands for a kind.
pub const MAX_RAW_KIND: u16 = 83;

impl SyntaxKind {
    /// The numeric tag of a kind: its place in the declaration, from 0.
    pub open spec fn raw(self) -> u16 {
        match self {
            SyntaxKind::Whitespace => 0,
            SyntaxKind::LineComment => 1,
            SyntaxKind::BlockComment => 2,
            SyntaxKind::Functor => 3,
            SyntaxKind::Variable => 4,
            SyntaxKind::Wildcard => 5,
            SyntaxKind::Integer => 6,
            SyntaxKind::Float => 7,
            SyntaxKind::String => 8,
            SyntaxKind::True => 9,
            SyntaxKind::False => 10,
            SyntaxKind::If => 11,
            SyntaxKind::Else => 12,
            SyntaxKind::While => 13,
            SyntaxKind::For => 14,
            SyntaxKind::Include => 15,
            SyntaxKind::Begin => 16,
            SyntaxKind::End => 17,
            SyntaxKind::OpenParen => 18,
            SyntaxKind::CloseParen => 19,
            SyntaxKind::OpenBracket => 20,
            SyntaxKind::CloseBracket => 21,
            SyntaxKind::OpenBrace => 22,
            SyntaxKind::CloseBrace => 23,
            SyntaxKind::Arrow => 24,
            SyntaxKind::Define => 25,
            SyntaxKind::Colon => 26,
            SyntaxKind::ForkJoinAnd => 27,
            SyntaxKind::ForkJoinXor => 28,
            SyntaxKind::BangBang => 29,
            SyntaxKind::Bang => 30,
            SyntaxKind::Question => 31,
            SyntaxKind::MinusPlus => 32,
            SyntaxKind::Not => 33,
            SyntaxKind::Tilde => 34,
            SyntaxKind::Plus => 35,
            SyntaxKind::Minus => 36,
            SyntaxKind::Slash => 37,
            SyntaxKind::Div => 38,
            SyntaxKind::Mod => 39,
            SyntaxKind::Pow => 40,
            SyntaxKind::Star => 41,
            SyntaxKind::And => 42,
            SyntaxKind::Or => 43,
            SyntaxKind::LtEq => 44,
            SyntaxKind::GtEq => 45,
            SyntaxKind::NotEqual => 46,
            SyntaxKind::Equal => 47,
            SyntaxKind::Decompose => 48,
            SyntaxKind::Eq => 49,
            SyntaxKind::Lt => 50,
            SyntaxKind::Gt => 51,
            SyntaxKind::Semi => 52,
            SyntaxKind::Comma => 53,
            SyntaxKind::Dot => 54,
            SyntaxKind::At => 55,
            SyntaxKind::Error => 56,
            SyntaxKind::Eof => 57,
            SyntaxKind::Belief => 58,
            SyntaxKind::Rule => 59,
            SyntaxKind::InitialGoal => 60,
            SyntaxKind::Plan => 61,
            SyntaxKind::PlanAnnotation => 62,
            SyntaxKind::PlanContext => 63,
            SyntaxKind::Body => 64,
            SyntaxKind::Formula => 65,
            SyntaxKind::Literal => 66,
            SyntaxKind::LiteralTerms => 67,
            SyntaxKind::LiteralAnnotations => 68,
            SyntaxKind::Disjunction => 69,
            SyntaxKind::Conjunction => 70,
            SyntaxKind::Negation => 71,
            SyntaxKind::Comparison => 72,
            SyntaxKind::AdditiveExpression => 73,
            SyntaxKind::MultiplicativeExpression => 74,
            SyntaxKind::UnaryExpression => 75,
            SyntaxKind::PowerExpression => 76,
            SyntaxKind::Exponentiation => 77,
            SyntaxKind::Atom => 78,
            SyntaxKind::List => 79,
            SyntaxKind::WhileLoop => 80,
            SyntaxKind::ForLoop => 81,
            SyntaxKind::IfThenElse => 82,
            SyntaxKind::Root => 83,
        }
    }

    /// The name of a kind, as it is written in this file.
    pub open spec fn debug_name(self) -> Seq<char> {
        match self {
            SyntaxKind::Whitespace => "Whitespace"@,
            SyntaxKind::LineComment => "LineComment"@,
            SyntaxKind::BlockComment => "BlockComment"@,
            SyntaxKind::Functor => "Functor"@,
            SyntaxKind::Variable => "Variable"@,
            SyntaxKind::Wildcard => "Wildcard"@,
            SyntaxKind::Integer => "Integer"@,
            SyntaxKind::Float => "Float"@,
            SyntaxKind::String => "String"@,
            SyntaxKind::True => "True"@,
            SyntaxKind::False => "False"@,
            SyntaxKind::If => "If"@,
            SyntaxKind::Else => "Else"@,
            SyntaxKind::While => "While"@,
            SyntaxKind::For => "For"@,
            SyntaxKind::Include => "Include"@,
            SyntaxKind::Begin => "Begin"@,
            SyntaxKind::End => "End"@,
            SyntaxKind::OpenParen => "OpenParen"@,
            SyntaxKind::CloseParen => "CloseParen"@,
            SyntaxKind::OpenBracket => "OpenBracket"@,
            SyntaxKind::CloseBracket => "CloseBracket"@,
            SyntaxKind::OpenBrace => "OpenBrace"@,
            SyntaxKind::CloseBrace => "CloseBrace"@,
            SyntaxKind::Arrow => "Arrow"@,
            SyntaxKind::Define => "Define"@,
            SyntaxKind::Colon => "Colon"@,
            SyntaxKind::ForkJoinAnd => "ForkJoinAnd"@,
            SyntaxKind::ForkJoinXor => "ForkJoinXor"@,
            SyntaxKind::BangBang => "BangBang"@,
            SyntaxKind::Bang => "Bang"@,
            SyntaxKind::Question => "Question"@,
            SyntaxKind::MinusPlus => "MinusPlus"@,
            SyntaxKind::Not => "Not"@,
            SyntaxKind::Tilde => "Tilde"@,
            SyntaxKind::Plus => "Plus"@,
            SyntaxKind::Minus => "Minus"@,
            SyntaxKind::Slash => "Slash"@,
            SyntaxKind::Div => "Div"@,
            SyntaxKind::Mod => "Mod"@,
            SyntaxKind::Pow => "Pow"@,
            SyntaxKind::Star => "Star"@,
            SyntaxKind::And => "And"@,
            SyntaxKind::Or => "Or"@,
            SyntaxKind::LtEq => "LtEq"@,
            SyntaxKind::GtEq => "GtEq"@,
            SyntaxKind::NotEqual => "NotEqual"@,
            SyntaxKind::Equal => "Equal"@,
            SyntaxKind::Decompose => "Decompose"@,
            SyntaxKind::Eq => "Eq"@,
            SyntaxKind::Lt => "Lt"@,
            SyntaxKind::Gt => "Gt"@,
            SyntaxKind::Semi => "Semi"@,
            SyntaxKind::Comma => "Comma"@,
            SyntaxKind::Dot => "Dot"@,
            SyntaxKind::At => "At"@,
            SyntaxKind::Error => "Error"@,
            SyntaxKind::Eof => "Eof"@,
            SyntaxKind::Belief => "Belief"@,
            SyntaxKind::Rule => "Rule"@,
            SyntaxKind::InitialGoal => "InitialGoal"@,
            SyntaxKind::Plan => "Plan"@,
            SyntaxKind::PlanAnnotation => "PlanAnnotation"@,
            SyntaxKind::PlanContext => "PlanContext"@,
            SyntaxKind::Body => "Body"@,
            SyntaxKind::Formula => "Formula"@,
            SyntaxKind::Literal => "Literal"@,
            SyntaxKind::LiteralTerms => "LiteralTerms"@,
            SyntaxKind::LiteralAnnotations => "LiteralAnnotations"@,
            SyntaxKind::Disjunction => "Disjunction"@,
            SyntaxKind::Conjunction => "Conjunction"@,
            SyntaxKind::Negation => "Negation"@,
            SyntaxKind::Comparison => "Comparison"@,
            SyntaxKind::AdditiveExpression => "AdditiveExpression"@,
            SyntaxKind::MultiplicativeExpression => "MultiplicativeExpression"@,
            SyntaxKind::UnaryExpression => "UnaryExpression"@,
            SyntaxKind::PowerExpression => "PowerExpression"@,
            SyntaxKind::Exponentiation => "Exponentiation"@,
            SyntaxKind::Atom => "Atom"@,
            SyntaxKind::List => "List"@,
            SyntaxKind::WhileLoop => "WhileLoop"@,
            SyntaxKind::ForLoop => "ForLoop"@,
            SyntaxKind::IfThenElse => "IfThenElse"@,
            SyntaxKind::Root => "Root"@,
        }
    }

    /// Whitespace and comments: kept in the tree, invisible to the grammar.
    pub open spec fn is_noise(self) -> bool {
        self == SyntaxKind::Whitespace || self == SyntaxKind::LineComment || self
            == SyntaxKind::BlockComment
    }

    pub fn to_raw(self) -> (raw: u16)
        ensures
            raw == self.raw(),
            raw <= MAX_RAW_KIND,
    {
        match self {
            SyntaxKind::Whitespace => 0,
            SyntaxKind::LineComment => 1,
            SyntaxKind::BlockComment => 2,
            SyntaxKind::Functor => 3,
            SyntaxKind::Variable => 4,
            SyntaxKind::Wildcard => 5,
            SyntaxKind::Integer => 6,
            SyntaxKind::Float => 7,
            SyntaxKind::String => 8,
            SyntaxKind::True => 9,
            SyntaxKind::False => 10,
            SyntaxKind::If => 11,
            SyntaxKind::Else => 12,
            SyntaxKind::While => 13,
            SyntaxKind::For => 14,
            SyntaxKind::Include => 15,
            SyntaxKind::Begin => 16,
            SyntaxKind::End => 17,
            SyntaxKind::OpenParen => 18,
            SyntaxKind::CloseParen => 19,
            SyntaxKind::OpenBracket => 20,
            SyntaxKind::CloseBracket => 21,
            SyntaxKind::OpenBrace => 22,
            SyntaxKind::CloseBrace => 23,
            SyntaxKind::Arrow => 24,
            SyntaxKind::Define => 25,
            SyntaxKind::Colon => 26,
            SyntaxKind::ForkJoinAnd => 27,
            SyntaxKind::ForkJoinXor => 28,
            SyntaxKind::BangBang => 29,
            SyntaxKind::Bang => 30,
            SyntaxKind::Question => 31,
            SyntaxKind::MinusPlus => 32,
            SyntaxKind::Not => 33,
            SyntaxKind::Tilde => 34,
            SyntaxKind::Plus => 35,
            SyntaxKind::Minus => 36,
            SyntaxKind::Slash => 37,
            SyntaxKind::Div => 38,
            SyntaxKind::Mod => 39,
            SyntaxKind::Pow => 40,
            SyntaxKind::Star => 41,
            SyntaxKind::And => 42,
            SyntaxKind::Or => 43,
            SyntaxKind::LtEq => 44,
            SyntaxKind::GtEq => 45,
            SyntaxKind::NotEqual => 46,
            SyntaxKind::Equal => 47,
            SyntaxKind::Decompose => 48,
            SyntaxKind::Eq => 49,
            SyntaxKind::Lt => 50,
            SyntaxKind::Gt => 51,
            SyntaxKind::Semi => 52,
            SyntaxKind::Comma => 53,
            SyntaxKind::Dot => 54,
            SyntaxKind::At => 55,
            SyntaxKind::Error => 56,
            SyntaxKind::Eof => 57,
            SyntaxKind::Belief => 58,
            SyntaxKind::Rule => 59,
            SyntaxKind::InitialGoal => 60,
            SyntaxKind::Plan => 61,
            SyntaxKind::PlanAnnotation => 62,
            SyntaxKind::PlanContext => 63,
            SyntaxKind::Body => 64,
            SyntaxKind::Formula => 65,
            SyntaxKind::Literal => 66,
            SyntaxKind::LiteralTerms => 67,
            SyntaxKind::LiteralAnnotations => 68,
            SyntaxKind::Disjunction => 69,
            SyntaxKind::Conjunction => 70,
            SyntaxKind::Negation => 71,
            SyntaxKind::Comparison => 72,
            SyntaxKind::AdditiveExpression => 73,
            SyntaxKind::MultiplicativeExpression => 74,
            SyntaxKind::UnaryExpression => 75,
            SyntaxKind::PowerExpression => 76,
            SyntaxKind::Exponentiation => 77,
            SyntaxKind::Atom => 78,
            SyntaxKind::List => 79,
            SyntaxKind::WhileLoop => 80,
            SyntaxKind::ForLoop => 81,
            SyntaxKind::IfThenElse => 82,
            SyntaxKind::Root => 83,
        }
    }

    /// The kind with the numeric tag `raw`, if there is one: a tag is checked
    /// against the largest before it is read as a kind.
    pub fn from_raw(raw: u16) -> (kind: Option<SyntaxKind>)
        ensures
            raw <= MAX_RAW_KIND ==> kind.is_some() && kind.unwrap().raw() == raw,
            raw > MAX_RAW_KIND ==> kind.is_none(),
    {
        match raw {
            0 => Some(SyntaxKind::Whitespace),
            1 => Some(SyntaxKind::LineComment),
            2 => Some(SyntaxKind::BlockComment),
            3 => Some(SyntaxKind::Functor),
            4 => Some(SyntaxKind::Variable),
            5 => Some(SyntaxKind::Wildcard),
            6 => Some(SyntaxKind::Integer),
            7 => Some(SyntaxKind::Float),
            8 => Some(SyntaxKind::String),
            9 => Some(SyntaxKind::True),
            10 => Some(SyntaxKind::False),
            11 => Some(SyntaxKind::If),
            12 => Some(SyntaxKind::Else),
            13 => Some(SyntaxKind::While),
            14 => Some(SyntaxKind::For),
            15 => Some(SyntaxKind::Include),
            16 => Some(SyntaxKind::Begin),
            17 => Some(SyntaxKind::End),
            18 => Some(SyntaxKind::OpenParen),
            19 => Some(SyntaxKind::CloseParen),
            20 => Some(SyntaxKind::OpenBracket),
            21 => Some(SyntaxKind::CloseBracket),
            22 => Some(SyntaxKind::OpenBrace),
            23 => Some(SyntaxKind::CloseBrace),
            24 => Some(SyntaxKind::Arrow),
            25 => Some(SyntaxKind::Define),
            26 => Some(SyntaxKind::Colon),
            27 => Some(SyntaxKind::ForkJoinAnd),
            28 => Some(SyntaxKind::ForkJoinXor),
            29 => Some(SyntaxKind::BangBang),
            30 => Some(SyntaxKind::Bang),
            31 => Some(SyntaxKind::Question),
            32 => Some(SyntaxKind::MinusPlus),
            33 => Some(SyntaxKind::Not),
            34 => Some(SyntaxKind::Tilde),
            35 => Some(SyntaxKind::Plus),
            36 => Some(SyntaxKind::Minus),
            37 => Some(SyntaxKind::Slash),
            38 => Some(SyntaxKind::Div),
            39 => Some(SyntaxKind::Mod),
            40 => Some(SyntaxKind::Pow),
            41 => Some(SyntaxKind::Star),
            42 => Some(SyntaxKind::And),
            43 => Some(SyntaxKind::Or),
            44 => Some(SyntaxKind::LtEq),
            45 => Some(SyntaxKind::GtEq),
            46 => Some(SyntaxKind::NotEqual),
            47 => Some(SyntaxKind::Equal),
            48 => Some(SyntaxKind::Decompose),
            49 => Some(SyntaxKind::Eq),
            50 => Some(SyntaxKind::Lt),
            51 => Some(SyntaxKind::Gt),
            52 => Some(SyntaxKind::Semi),
            53 => Some(SyntaxKind::Comma),
            54 => Some(SyntaxKind::Dot),
            55 => Some(SyntaxKind::At),
            56 => Some(SyntaxKind::Error),
            57 => Some(SyntaxKind::Eof),
            58 => Some(SyntaxKind::Belief),
            59 => Some(SyntaxKind::Rule),
            60 => Some(SyntaxKind::InitialGoal),
            61 => Some(SyntaxKind::Plan),
            62 => Some(SyntaxKind::PlanAnnotation),
            63 => Some(SyntaxKind::PlanContext),
            64 => Some(SyntaxKind::Body),
            65 => Some(SyntaxKind::Formula),
            66 => Some(SyntaxKind::Literal),
            67 => Some(SyntaxKind::LiteralTerms),
            68 => Some(SyntaxKind::LiteralAnnotations),
            69 => Some(SyntaxKind::Disjunction),
            70 => Some(SyntaxKind::Conjunction),
            71 => Some(SyntaxKind::Negation),
            72 => Some(SyntaxKind::Comparison),
            73 => Some(SyntaxKind::AdditiveExpression),
            74 => Some(SyntaxKind::MultiplicativeExpression),
            75 => Some(SyntaxKind::UnaryExpression),
            76 => Some(SyntaxKind::PowerExpression),
            77 => Some(SyntaxKind::Exponentiation),
            78 => Some(SyntaxKind::Atom),
            79 => Some(SyntaxKind::List),
            80 => Some(SyntaxKind::WhileLoop),
            81 => Some(SyntaxKind::ForLoop),
            82 => Some(SyntaxKind::IfThenElse),
            83 => Some(SyntaxKind::Root),
            _ => None,
        }
    }

    pub fn name(self) -> (name: &'static str)
        ensures
            name@ == self.debug_name(),
    {
        match self {
            SyntaxKind::Whitespace => "Whitespace",
            SyntaxKind::LineComment => "LineComment",
            SyntaxKind::BlockComment => "BlockComment",
            SyntaxKind::Functor => "Functor",
            SyntaxKind::Variable => "Variable",
            SyntaxKind::Wildcard => "Wildcard",
            SyntaxKind::Integer => "Integer",
            SyntaxKind::Float => "Float",
            SyntaxKind::String => "String",
            SyntaxKind::True => "True",
            SyntaxKind::False => "False",
            SyntaxKind::If => "If",
            SyntaxKind::Else => "Else",
            SyntaxKind::While => "While",
            SyntaxKind::For => "For",
            SyntaxKind::Include => "Include",
            SyntaxKind::Begin => "Begin",
            SyntaxKind::End => "End",
            SyntaxKind::OpenParen => "OpenParen",
            SyntaxKind::CloseParen => "CloseParen",
            SyntaxKind::OpenBracket => "OpenBracket",
            SyntaxKind::CloseBracket => "CloseBracket",
            SyntaxKind::OpenBrace => "OpenBrace",
            SyntaxKind::CloseBrace => "CloseBrace",
            SyntaxKind::Arrow => "Arrow",
            SyntaxKind::Define => "Define",
            SyntaxKind::Colon => "Colon",
            SyntaxKind::ForkJoinAnd => "ForkJoinAnd",
            SyntaxKind::ForkJoinXor => "ForkJoinXor",
            SyntaxKind::BangBang => "BangBang",
            SyntaxKind::Bang => "Bang",
            SyntaxKind::Question => "Question",
            SyntaxKind::MinusPlus => "MinusPlus",
            SyntaxKind::Not => "Not",
            SyntaxKind::Tilde => "Tilde",
            SyntaxKind::Plus => "Plus",
            SyntaxKind::Minus => "Minus",
            SyntaxKind::Slash => "Slash",
            SyntaxKind::Div => "Div",
            SyntaxKind::Mod => "Mod",
            SyntaxKind::Pow => "Pow",
            SyntaxKind::Star => "Star",
            SyntaxKind::And => "And",
            SyntaxKind::Or => "Or",
            SyntaxKind::LtEq => "LtEq",
            SyntaxKind::GtEq => "GtEq",
            SyntaxKind::NotEqual => "NotEqual",
            SyntaxKind::Equal => "Equal",
            SyntaxKind::Decompose => "Decompose",
            SyntaxKind::Eq => "Eq",
            SyntaxKind::Lt => "Lt",
            SyntaxKind::Gt => "Gt",
            SyntaxKind::Semi => "Semi",
            SyntaxKind::Comma => "Comma",
            SyntaxKind::Dot => "Dot",
            SyntaxKind::At => "At",
            SyntaxKind::Error => "Error",
            SyntaxKind::Eof => "Eof",
            SyntaxKind::Belief => "Belief",
            SyntaxKind::Rule => "Rule",
            SyntaxKind::InitialGoal => "InitialGoal",
            SyntaxKind::Plan => "Plan",
            SyntaxKind::PlanAnnotation => "PlanAnnotation",
            SyntaxKind::PlanContext => "PlanContext",
            SyntaxKind::Body => "Body",
            SyntaxKind::Formula => "Formula",
            SyntaxKind::Literal => "Literal",
            SyntaxKind::LiteralTerms => "LiteralTerms",
            SyntaxKind::LiteralAnnotations => "LiteralAnnotations",
            SyntaxKind::Disjunction => "Disjunction",
            SyntaxKind::Conjunction => "Conjunction",
            SyntaxKind::Negation => "Negation",
            SyntaxKind::Comparison => "Comparison",
            SyntaxKind::AdditiveExpression => "AdditiveExpression",
            SyntaxKind::MultiplicativeExpression => "MultiplicativeExpression",
            SyntaxKind::UnaryExpression => "UnaryExpression",
            SyntaxKind::PowerExpression => "PowerExpression",
            SyntaxKind::Exponentiation => "Exponentiation",
            SyntaxKind::Atom => "Atom",
            SyntaxKind::List => "List",
            SyntaxKind::WhileLoop => "WhileLoop",
            SyntaxKind::ForLoop => "ForLoop",
            SyntaxKind::IfThenElse => "IfThenElse",
            SyntaxKind::Root => "Root",
        }
    }

    pub fn is_noise_kind(self) -> (b: bool)
        ensures
            b == self.is_noise(),
    {
        self == SyntaxKind::Whitespace || self == SyntaxKind::LineComment || self
            == SyntaxKind::BlockComment
    }

    /// The comparison that an operator token stands for.
    pub open spec fn comparison(self) -> Option<ComparisonOperator> {
        match self {
            SyntaxKind::LtEq => Some(ComparisonOperator::LtEq),
            SyntaxKind::GtEq => Some(ComparisonOperator::GtEq),
            SyntaxKind::NotEqual => Some(ComparisonOperator::NotEqual),
            SyntaxKind::Equal => Some(ComparisonOperator::Equal),
            SyntaxKind::Decompose => Some(ComparisonOperator::Decompose),
            SyntaxKind::Eq => Some(ComparisonOperator::Eq),
            SyntaxKind::Lt => Some(ComparisonOperator::Lt),
            SyntaxKind::Gt => Some(ComparisonOperator::Gt),
            _ => None,
        }
    }

    pub fn comparison_operator(self) -> (op: Option<ComparisonOperator>)
        ensures
            op == self.comparison(),
    {
        match self {
            SyntaxKind::LtEq => Some(ComparisonOperator::LtEq),
            SyntaxKind::GtEq => Some(ComparisonOperator::GtEq),
            SyntaxKind::NotEqual => Some(ComparisonOperator::NotEqual),
            SyntaxKind::Equal => Some(ComparisonOperator::Equal),
            SyntaxKind::Decompose => Some(ComparisonOperator::Decompose),
            SyntaxKind::Eq => Some(ComparisonOperator::Eq),
            SyntaxKind::Lt => Some(ComparisonOperator::Lt),
            SyntaxKind::Gt => Some(ComparisonOperator::Gt),
            _ => None,
        }
    }

    /// The additive operation that a token stands for between two operands.
    pub open spec fn additive(self) -> Option<AdditiveOperator> {
        match self {
            SyntaxKind::Plus => Some(AdditiveOperator::Add),
            SyntaxKind::Minus => Some(AdditiveOperator::Sub),
            _ => None,
        }
    }

    pub fn additive_operator(self) -> (op: Option<AdditiveOperator>)
        ensures
            op == self.additive(),
    {
        match self {
            SyntaxKind::Plus => Some(AdditiveOperator::Add),
            SyntaxKind::Minus => Some(AdditiveOperator::Sub),
            _ => None,
        }
    }

    /// The multiplicative operation that a token stands for.
    pub open spec fn multiplicative(self) -> Option<MultiplicativeOperator> {
        match self {
            SyntaxKind::Star => Some(MultiplicativeOperator::Mul),
            SyntaxKind::Slash => Some(MultiplicativeOperator::Div),
            SyntaxKind::Div => Some(MultiplicativeOperator::FloorDiv),
            SyntaxKind::Mod => Some(MultiplicativeOperator::Mod),
            _ => None,
        }
    }

    pub fn multiplicative_operator(self) -> (op: Option<MultiplicativeOperator>)
        ensures
            op == self.multiplicative(),
    {
        match self {
            SyntaxKind::Star => Some(MultiplicativeOperator::Mul),
            SyntaxKind::Slash => Some(MultiplicativeOperator::Div),
            SyntaxKind::Div => Some(MultiplicativeOperator::FloorDiv),
            SyntaxKind::Mod => Some(MultiplicativeOperator::Mod),
            _ => None,
        }
    }

    /// The sign that a token stands for in front of an operand.
    pub open spec fn unary(self) -> Option<UnaryOperator> {
        match self {
            SyntaxKind::Plus => Some(UnaryOperator::Pos),
            SyntaxKind::Minus => Some(UnaryOperator::Neg),
            _ => None,
        }
    }

    pub fn unary_operator(self) -> (op: Option<UnaryOperator>)
        ensures
            op == self.unary(),
    {
        match self {
            SyntaxKind::Plus => Some(UnaryOperator::Pos),
            SyntaxKind::Minus => Some(UnaryOperator::Neg),
            _ => None,
        }
    }

    /// What a token in front of a formula makes of it.
    pub open spec fn formula(self) -> Option<FormulaType> {
        match self {
            SyntaxKind::BangBang => Some(FormulaType::AchieveLater),
            SyntaxKind::Bang => Some(FormulaType::Achieve),
            SyntaxKind::Question => Some(FormulaType::Test),
            SyntaxKind::MinusPlus => Some(FormulaType::Replace),
            SyntaxKind::Plus => Some(FormulaType::Add),
            SyntaxKind::Minus => Some(FormulaType::Remove),
            _ => None,
        }
    }

    pub fn formula_type(self) -> (op: Option<FormulaType>)
        ensures
            op == self.formula(),
    {
        match self {
            SyntaxKind::BangBang => Some(FormulaType::AchieveLater),
            SyntaxKind::Bang => Some(FormulaType::Achieve),
            SyntaxKind::Question => Some(FormulaType::Test),
            SyntaxKind::MinusPlus => Some(FormulaType::Replace),
            SyntaxKind::Plus => Some(FormulaType::Add),
            SyntaxKind::Minus => Some(FormulaType::Remove),
            _ => None,
        }
    }

}

#[derive(Debug, Copy, Clone, PartialEq, Eq, Structural)]
pub enum ComparisonOperator {
    LtEq,
    GtEq,
    NotEqual,
    Equal,
    Decompose,
    Eq,
    Lt,
    Gt,
}

#[derive(Debug, Copy, Clone, PartialEq, Eq, Structural)]
pub enum FormulaType {
    AchieveLater,
    Achieve,
    Test,
    Replace,
    Remove,
    Add,
    Term,
}

#[derive(Debug, Copy, Clone, PartialEq, Eq, Structural)]
pub enum AdditiveOperator {
    Add,
    Sub,
}

#[derive(Debug, Copy, Clone, PartialEq, Eq, Structural)]
pub enum MultiplicativeOperator {
    Mul,
    Div,
    FloorDiv,
    Mod,
}

#[derive(Debug, Copy, Clone, PartialEq, Eq, Structural)]
pub enum UnaryOperator {
    Pos,
    Neg,
}

impl AgentSpeakLanguage {
    /// Reads a numeric tag as a kind.
    pub fn kind_from_raw(raw: u16) -> (kind: SyntaxKind)
        requires
            raw <= MAX_RAW_KIND,
        ensures
            kind.raw() == raw,
    {
        SyntaxKind::from_raw(raw).unwrap()
    }

    pub fn kind_to_raw(kind: SyntaxKind) -> (raw: u16)
        ensures
            raw == kind.raw(),
            raw <= MAX_RAW_KIND,
    {
        kind.to_raw()
    }
}

/// No two kinds share a numeric tag.
pub proof fn lemma_raw_injective(a: SyntaxKind, b: SyntaxKind)
    requires
        a.raw() == b.raw(),
    ensures
        a == b,
{
}

/// The kind under which a raw token enters the tree.
pub open spec fn syntax_kind(kind: TokenKind) -> SyntaxKind {
    match kind {
        TokenKind::Whitespace => SyntaxKind::Whitespace,
        TokenKind::LineComment => SyntaxKind::LineComment,
        TokenKind::BlockComment { .. } => SyntaxKind::BlockComment,
        TokenKind::Functor => SyntaxKind::Functor,
        TokenKind::Variable => SyntaxKind::Variable,
        TokenKind::Wildcard => SyntaxKind::Wildcard,
        TokenKind::Integer => SyntaxKind::Integer,
        TokenKind::Float => SyntaxKind::Float,
        TokenKind::String { .. } => SyntaxKind::String,
        TokenKind::True => SyntaxKind::True,
        TokenKind::False => SyntaxKind::False,
        TokenKind::If => SyntaxKind::If,
        TokenKind::Else => SyntaxKind::Else,
        TokenKind::While => SyntaxKind::While,
        TokenKind::For => SyntaxKind::For,
        TokenKind::Include => SyntaxKind::Include,
        TokenKind::Begin => SyntaxKind::Begin,
        TokenKind::End => SyntaxKind::End,
        TokenKind::OpenParen => SyntaxKind::OpenParen,
        TokenKind::CloseParen => SyntaxKind::CloseParen,
        TokenKind::OpenBracket => SyntaxKind::OpenBracket,
        TokenKind::CloseBracket => SyntaxKind::CloseBracket,
        TokenKind::OpenBrace => SyntaxKind::OpenBrace,
        TokenKind::CloseBrace => SyntaxKind::CloseBrace,
        TokenKind::Arrow => SyntaxKind::Arrow,
        TokenKind::Define => SyntaxKind::Define,
        TokenKind::Colon => SyntaxKind::Colon,
        TokenKind::ForkJoinAnd => SyntaxKind::ForkJoinAnd,
        TokenKind::ForkJoinXor => SyntaxKind::ForkJoinXor,
        TokenKind::BangBang => SyntaxKind::BangBang,
        TokenKind::Bang => SyntaxKind::Bang,
        TokenKind::Question => SyntaxKind::Question,
        TokenKind::MinusPlus => SyntaxKind::MinusPlus,
        TokenKind::Not => SyntaxKind::Not,
        TokenKind::Plus => SyntaxKind::Plus,
        TokenKind::Minus => SyntaxKind::Minus,
        TokenKind::Slash => SyntaxKind::Slash,
        TokenKind::Div => SyntaxKind::Div,
        TokenKind::Mod => SyntaxKind::Mod,
        TokenKind::Pow => SyntaxKind::Pow,
        TokenKind::Star => SyntaxKind::Star,
        TokenKind::And => SyntaxKind::And,
        TokenKind::Or => SyntaxKind::Or,
        TokenKind::LtEq => SyntaxKind::LtEq,
        TokenKind::GtEq => SyntaxKind::GtEq,
        TokenKind::NotEqual => SyntaxKind::NotEqual,
        TokenKind::Equal => SyntaxKind::Equal,
        TokenKind::Decompose => SyntaxKind::Decompose,
        TokenKind::Eq => SyntaxKind::Eq,
        TokenKind::Lt => SyntaxKind::Lt,
        TokenKind::Gt => SyntaxKind::Gt,
        TokenKind::Semi => SyntaxKind::Semi,
        TokenKind::Comma => SyntaxKind::Comma,
        TokenKind::Dot => SyntaxKind::Dot,
        TokenKind::At => SyntaxKind::At,
        TokenKind::Unknown => SyntaxKind::Error,
    }
}

/// What is wrong with a raw token, if anything.
pub open spec fn lexical_error(kind: TokenKind) -> Option<SyntaxErrorKind> {
    match kind {
        TokenKind::BlockComment { terminated } => if terminated {
            None
        } else {
            Some(SyntaxErrorKind::UnterminatedBlockComment)
        },
        TokenKind::String { terminated } => if terminated {
            None
        } else {
            Some(SyntaxErrorKind::UnterminatedString)
        },
        TokenKind::Unknown => Some(SyntaxErrorKind::UnexpectedToken),
        _ => None,
    }
}

#[derive(Debug)]
pub struct SyntaxError {
    pub kind: SyntaxErrorKind,
    pub token_idx: TokenIdx,
}

#[derive(Debug, Copy, Clone, PartialEq, Eq, Structural)]
pub enum SyntaxErrorKind {
    UnterminatedBlockComment,
    UnterminatedString,
    UnexpectedToken,
}

impl SyntaxErrorKind {
    pub open spec fn text(self) -> Seq<char> {
        match self {
            SyntaxErrorKind::UnexpectedToken => "unexpected token"@,
            SyntaxErrorKind::UnterminatedString => "unterminated string"@,
            SyntaxErrorKind::UnterminatedBlockComment => "unterminated block comment"@,
        }
    }

    /// The message of an error of this kind.
    pub fn to_string(&self) -> (message: String)
        ensures
            message@ == self.text(),
    {
        match self {
            SyntaxErrorKind::UnexpectedToken => "unexpected token".to_owned(),
            SyntaxErrorKind::UnterminatedString => "unterminated string".to_owned(),
            SyntaxErrorKind::UnterminatedBlockComment => "unterminated block comment".to_owned(),
        }
    }
}

/// A token as the grammar sees it: its kind and its text.
pub struct Tok {
    pub kind: SyntaxKind,
    pub text: Seq<char>,
}

/// Number of bytes in the first `n` of `tokens`.
pub open spec fn total_len(tokens: Seq<Token>, n: nat) -> nat
    decreases n,
{
    if n == 0 {
        0
    } else {
        total_len(tokens, (n - 1) as nat) + tokens[n - 1].len as nat
    }
}

/// The lexical errors among the first `n` of `tokens`, each with the index of
/// its token.
pub open spec fn lexical_errors(tokens: Seq<Token>, n: nat) -> Seq<SyntaxError>
    decreases n,
{
    if n == 0 {
        Seq::empty()
    } else {
        let before = lexical_errors(tokens, (n - 1) as nat);
        match lexical_error(tokens[n - 1].kind) {
            Some(kind) => before.push(SyntaxError { kind, token_idx: TokenIdx((n - 1) as usize) }),
            None => before,
        }
    }
}

/// A source text cut into tokens: the kind of each, the byte offset at which
/// each starts, and the lexical errors. Behind the tokens stands an
/// end-of-file sentinel that covers no text.
pub struct LexedStr<'a> {
    pub text: &'a str,
    kind: Vec<SyntaxKind>,
    start: Vec<usize>,
    pub errors: Vec<SyntaxError>,
    cuts: Ghost<Seq<int>>,
}

impl<'a> LexedStr<'a> {
    /// The characters of the text.
    pub closed spec fn source(&self) -> Seq<char> {
        self.text@
    }

    /// The lexical errors, in the order of their tokens.
    pub closed spec fn found(&self) -> Seq<SyntaxError> {
        self.errors@
    }

    /// The kinds of the tokens, the sentinel last.
    pub closed spec fn kinds(&self) -> Seq<SyntaxKind> {
        self.kind@
    }

    /// The byte offset at which each token starts; the last two entries are
    /// the length of the text.
    pub closed spec fn starts(&self) -> Seq<usize> {
        self.start@
    }

    /// The character index at which each token starts; the last two entries
    /// are the number of characters of the text.
    pub closed spec fn cuts(&self) -> Seq<int> {
        self.cuts@
    }

    /// Number of tokens, the sentinel not counted.
    pub open spec fn count(&self) -> nat {
        (self.kinds().len() - 1) as nat
    }

    /// The text of token `i`; empty for the sentinel.
    pub open spec fn token_text(&self, i: int) -> Seq<char> {
        self.source().subrange(self.cuts()[i], self.cuts()[i + 1])
    }

    /// The tokens as the grammar sees them, without the sentinel.
    pub open spec fn toks(&self) -> Seq<Tok> {
        Seq::new(self.count(), |i: int| Tok { kind: self.kinds()[i], text: self.token_text(i) })
    }

    pub open spec fn wf(&self) -> bool {
        let n = self.count() as int;
        &&& self.kinds().len() >= 1
        &&& self.kinds()[n] == SyntaxKind::Eof
        &&& self.starts().len() == n + 2
        &&& self.cuts().len() == n + 2
        &&& self.cuts()[0] == 0
        &&& self.cuts()[n] == self.source().len()
        &&& self.cuts()[n + 1] == self.source().len()
        &&& forall|k: int|
            0 <= k < n ==> 0 <= #[trigger] self.cuts()[k] < self.cuts()[k + 1] <= self.source().len()
        &&& forall|k: int|
            0 <= k <= n + 1 ==> #[trigger] self.starts()[k] == byte_len(
                self.source().subrange(0, self.cuts()[k]),
            )
        &&& forall|e: int| 0 <= e < self.found().len() ==> (#[trigger] self.found()[e]).token_idx.0 < n
    }

    /// What the tables hold when the text was cut into `tokens`.
    pub open spec fn lexes(&self, tokens: Seq<Token>) -> bool {
        let n = tokens.len() as int;
        &&& self.count() == n
        &&& forall|k: int| 0 <= k < n ==> #[trigger] self.kinds()[k] == syntax_kind(tokens[k].kind)
        &&& self.kinds()[n] == SyntaxKind::Eof
        &&& forall|k: int| 0 <= k <= n ==> #[trigger] self.starts()[k] == total_len(tokens, k as nat)
        &&& self.starts()[n + 1] == self.starts()[n]
        &&& self.found() == lexical_errors(tokens, n as nat)
        &&& covers(self.source(), tokens, self.cuts().take(n + 1))
    }

    /// Cuts `text` into tokens in one pass, and records an error for each
    /// unterminated string or comment and each unknown character.
    pub fn new(text: &'a str) -> (lexed: LexedStr<'a>)
        ensures
            lexed.wf(),
            lexed.source() == text@,
            lexed.lexes(tokens_of(text@)),
    {
        let (tokens, Ghost(cuts)) = scan_all(text);
        let total: usize = text.as_bytes().len();
        let mut kind: Vec<SyntaxKind> = Vec::new();
        let mut start: Vec<usize> = Vec::new();
        let mut errors: Vec<SyntaxError> = Vec::new();
        let mut offset: usize = 0;
        let mut i: usize = 0;
        assert(text@.subrange(0, 0) =~= Seq::<char>::empty());
        while i < tokens.len()
            invariant
                i <= tokens.len(),
                tokens@ == tokens_of(text@),
                covers(text@, tokens@, cuts),
                total == byte_len(text@),
                kind@.len() == i,
                start@.len() == i,
                forall|k: int| 0 <= k < i ==> #[trigger] kind@[k] == syntax_kind(tokens@[k].kind),
                forall|k: int|
                    0 <= k < i ==> #[trigger] start@[k] == byte_len(text@.subrange(0, cuts[k]))
                        && start@[k] == total_len(tokens@, k as nat),
                offset == byte_len(text@.subrange(0, cuts[i as int])),
                offset == total_len(tokens@, i as nat),
                errors@ == lexical_errors(tokens@, i as nat),
                forall|e: int| 0 <= e < errors@.len() ==> (#[trigger] errors@[e]).token_idx.0 < i,
            decreases tokens.len() - i,
        {
            let token = &tokens[i];
            let syntax_kind = match token.kind {
                TokenKind::Whitespace => SyntaxKind::Whitespace,
                TokenKind::LineComment => SyntaxKind::LineComment,
                TokenKind::BlockComment { terminated } => {
                    if !terminated {
                        errors.push(
                            SyntaxError {
                                kind: SyntaxErrorKind::UnterminatedBlockComment,
                                token_idx: TokenIdx(kind.len()),
                            },
                        );
                    }
                    SyntaxKind::BlockComment
                },
                TokenKind::Functor => SyntaxKind::Functor,
                TokenKind::Variable => SyntaxKind::Variable,
                TokenKind::Wildcard => SyntaxKind::Wildcard,
                TokenKind::Integer => SyntaxKind::Integer,
                TokenKind::Float => SyntaxKind::Float,
                TokenKind::String { terminated } => {
                    if !terminated {
                        errors.push(
                            SyntaxError {
                                kind: SyntaxErrorKind::UnterminatedString,
                                token_idx: TokenIdx(kind.len()),
                            },
                        );
                    }
                    SyntaxKind::String
                },
                TokenKind::True => SyntaxKind::True,
                TokenKind::False => SyntaxKind::False,
                TokenKind::If => SyntaxKind::If,
                TokenKind::Else => SyntaxKind::Else,
                TokenKind::While => SyntaxKind::While,
                TokenKind::For => SyntaxKind::For,
                TokenKind::Include => SyntaxKind::Include,
                TokenKind::Begin => SyntaxKind::Begin,
                TokenKind::End => SyntaxKind::End,
                TokenKind::OpenParen => SyntaxKind::OpenParen,
                TokenKind::CloseParen => SyntaxKind::CloseParen,
                TokenKind::OpenBracket => SyntaxKind::OpenBracket,
                TokenKind::CloseBracket => SyntaxKind::CloseBracket,
                TokenKind::OpenBrace => SyntaxKind::OpenBrace,
                TokenKind::CloseBrace => SyntaxKind::CloseBrace,
                TokenKind::Arrow => SyntaxKind::Arrow,
                TokenKind::Define => SyntaxKind::Define,
                TokenKind::Colon => SyntaxKind::Colon,
                TokenKind::ForkJoinAnd => SyntaxKind::ForkJoinAnd,
                TokenKind::ForkJoinXor => SyntaxKind::ForkJoinXor,
                TokenKind::BangBang => SyntaxKind::BangBang,
                TokenKind::Bang => SyntaxKind::Bang,
                TokenKind::Question => SyntaxKind::Question,
                TokenKind::MinusPlus => SyntaxKind::MinusPlus,
                TokenKind::Not => SyntaxKind::Not,
                TokenKind::Plus => SyntaxKind::Plus,
                TokenKind::Minus => SyntaxKind::Minus,
                TokenKind::Slash => SyntaxKind::Slash,
                TokenKind::Div => SyntaxKind::Div,
                TokenKind::Mod => SyntaxKind::Mod,
                TokenKind::Pow => SyntaxKind::Pow,
                TokenKind::Star => SyntaxKind::Star,
                TokenKind::And => SyntaxKind::And,
                TokenKind::Or => SyntaxKind::Or,
                TokenKind::LtEq => SyntaxKind::LtEq,
                TokenKind::GtEq => SyntaxKind::GtEq,
                TokenKind::NotEqual => SyntaxKind::NotEqual,
                TokenKind::Equal => SyntaxKind::Equal,
                TokenKind::Decompose => SyntaxKind::Decompose,
                TokenKind::Eq => SyntaxKind::Eq,
                TokenKind::Lt => SyntaxKind::Lt,
                TokenKind::Gt => SyntaxKind::Gt,
                TokenKind::Semi => SyntaxKind::Semi,
                TokenKind::Comma => SyntaxKind::Comma,
                TokenKind::Dot => SyntaxKind::Dot,
                TokenKind::At => SyntaxKind::At,
                TokenKind::Unknown => {
                    errors.push(
                        SyntaxError {
                            kind: SyntaxErrorKind::UnexpectedToken,
                            token_idx: TokenIdx(kind.len()),
                        },
                    );
                    SyntaxKind::Error
                },
            };
            proof {
                lemma_byte_len_split(text@, 0, cuts[i as int], cuts[i + 1]);
                lemma_encode_prefix(text@, cuts[i + 1]);
            }
            kind.push(syntax_kind);
            start.push(offset);
            offset += token.len;
            i += 1;
        }
        kind.push(SyntaxKind::Eof);
        start.push(offset);
        start.push(offset);
        let ghost all_cuts = cuts.push(text@.len() as int);
        let lexed = LexedStr { text, kind, start, errors, cuts: Ghost(all_cuts) };
        proof {
            let n = tokens.len() as int;
            assert(all_cuts.take(n + 1) =~= cuts);
            assert(lexed.count() == n);
            assert(lexed.kinds()[n] == SyntaxKind::Eof);
            assert(lexed.cuts()[n] == text@.len());
            assert(lexed.cuts()[n + 1] == text@.len());
            assert forall|k: int| 0 <= k < n implies 0 <= #[trigger] lexed.cuts()[k] < lexed.cuts()[k
                + 1] <= lexed.source().len() by {
                assert(tokens@[k].len >= 0);
            }
            assert forall|k: int| 0 <= k <= n + 1 implies #[trigger] lexed.starts()[k] == byte_len(
                lexed.source().subrange(0, lexed.cuts()[k]),
            ) by {}
            assert forall|e: int| 0 <= e < lexed.found().len() implies (#[trigger] lexed.found()[e]).token_idx.0
                < n by {}
        }
        lexed
    }

    /// The text that the bytes of token `i` hold: the source text sliced at
    /// the byte range of the token.
    pub open spec fn range_text(&self, i: int) -> Seq<char> {
        decode_utf8(
            encode_utf8(self.source()).subrange(
                self.starts()[i] as int,
                self.starts()[i + 1] as int,
            ),
        )
    }

    /// The slices of the first `n` tokens, one after the other.
    pub open spec fn ranges_upto(&self, n: nat) -> Seq<char>
        decreases n,
    {
        if n == 0 {
            Seq::empty()
        } else {
            self.ranges_upto((n - 1) as nat) + self.range_text(n - 1)
        }
    }

    /// The bytes of a token hold the characters of the token.
    pub proof fn lemma_range_text(&self, i: int)
        requires
            self.wf(),
            0 <= i <= self.count(),
        ensures
            self.range_text(i) == self.token_text(i),
    {
        let src = self.source();
        let a = self.cuts()[i];
        let b = self.cuts()[i + 1];
        assert(self.starts()[i] == byte_len(src.subrange(0, a)));
        assert(self.starts()[i + 1] == byte_len(src.subrange(0, b)));
        let head = src.subrange(0, b);
        lemma_encode_prefix(src, b);
        lemma_encode_prefix(head, a);
        assert(head.subrange(0, a) =~= src.subrange(0, a));
        assert(head.subrange(a, head.len() as int) =~= src.subrange(a, b));
        assert(encode_utf8(src).subrange(self.starts()[i] as int, self.starts()[i + 1] as int)
            =~= encode_utf8(head).subrange(byte_len(head.subrange(0, a)) as int, byte_len(head) as int));
        encode_utf8_decode_utf8(src.subrange(a, b));
    }

    /// Losslessness: the source text sliced at the byte range of every token,
    /// in order, is the source text. The sentinel adds an empty slice at the
    /// end of the text.
    pub proof fn lemma_lossless(&self)
        requires
            self.wf(),
        ensures
            self.ranges_upto(self.count() + 1) == self.source(),
            self.starts()[self.count() as int] == byte_len(self.source()),
            self.starts()[self.count() as int + 1] == byte_len(self.source()),
            self.range_text(self.count() as int) == Seq::<char>::empty(),
    {
        let n = self.count();
        self.lemma_slices(n + 1);
        assert(self.source().subrange(0, self.source().len() as int) =~= self.source());
        self.lemma_range_text(n as int);
        assert(self.token_text(n as int) =~= Seq::<char>::empty());
    }

    proof fn lemma_slices(&self, n: nat)
        requires
            self.wf(),
            n <= self.count() + 1,
        ensures
            self.ranges_upto(n) == self.source().subrange(0, self.cuts()[n as int]),
        decreases n,
    {
        if n == 0 {
            assert(self.source().subrange(0, 0) =~= Seq::<char>::empty());
        } else {
            self.lemma_slices((n - 1) as nat);
            self.lemma_range_text(n - 1);
            let a = self.cuts()[n - 1];
            let b = self.cuts()[n as int];
            assert(self.source().subrange(0, a) + self.source().subrange(a, b)
                =~= self.source().subrange(0, b));
        }
    }

    /// The first token starts at the first byte.
    pub proof fn lemma_first_start(&self)
        requires
            self.wf(),
        ensures
            self.starts()[0] == 0,
    {
        assert(self.starts()[0] == byte_len(self.source().subrange(0, self.cuts()[0])));
        assert(self.source().subrange(0, 0) =~= Seq::<char>::empty());
    }

    /// A token's bytes are those between its start and the next one's.
    pub proof fn lemma_token_bytes(&self, i: int)
        requires
            self.wf(),
            0 <= i <= self.count(),
        ensures
            self.starts()[i + 1] == self.starts()[i] + byte_len(self.token_text(i)),
            self.starts()[i] <= self.starts()[i + 1] <= byte_len(self.source()),
    {
        let a = self.cuts()[i];
        let b = self.cuts()[i + 1];
        assert(self.starts()[i] == byte_len(self.source().subrange(0, a)));
        assert(self.starts()[i + 1] == byte_len(self.source().subrange(0, b)));
        lemma_byte_len_split(self.source(), 0, a, b);
        lemma_encode_prefix(self.source(), b);
    }

    /// The lexical errors, in the order of their tokens.
    pub fn errors(&self) -> (errors: &Vec<SyntaxError>)
        ensures
            errors@ == self.found(),
    {
        &self.errors
    }

    /// Number of bytes of the text.
    pub fn source_len(&self) -> (n: usize)
        ensures
            n == byte_len(self.source()),
    {
        self.text.as_bytes().len()
    }

    /// Number of tokens, the sentinel not counted.
    pub fn len(&self) -> (n: usize)
        requires
            self.wf(),
        ensures
            n == self.count(),
    {
        self.kind.len() - 1
    }

    /// The bytes of the text that token `idx` covers; an empty range at the
    /// end of the text for the sentinel.
    pub fn token_range(&self, idx: TokenIdx) -> (range: Range<usize>)
        requires
            self.wf(),
            idx.0 <= self.count(),
        ensures
            range.start == self.starts()[idx.0 as int],
            range.end == self.starts()[idx.0 + 1],
            range.start <= range.end,
            range.end <= byte_len(self.source()),
    {
        proof {
            let a = self.cuts()[idx.0 as int];
            let b = self.cuts()[idx.0 + 1];
            assert(self.starts()[idx.0 as int] == byte_len(self.source().subrange(0, a)));
            assert(self.starts()[idx.0 + 1] == byte_len(self.source().subrange(0, b)));
            lemma_byte_len_split(self.source(), 0, a, b);
            lemma_encode_prefix(self.source(), b);
            assert(self.start.len() == self.count() + 2);
        }
        self.start[idx.0]..self.start[idx.0 + 1]
    }

    /// A cursor on the first token.
    pub fn iter(&'a self) -> (iter: LexedStrIter<'a>)
        requires
            self.wf(),
        ensures
            iter.wf(),
            iter.lexed() == *self,
            iter.index() == 0,
    {
        LexedStrIter { lexed: self, token_idx: TokenIdx(0) }
    }
}

/// A forward cursor over the tokens of a lexed text.
#[derive(Clone, Copy)]
pub struct LexedStrIter<'a> {
    lexed: &'a LexedStr<'a>,
    token_idx: TokenIdx,
}

impl<'a> LexedStrIter<'a> {
    /// The lexed text that the cursor walks.
    pub closed spec fn lexed(&self) -> LexedStr<'a> {
        *self.lexed
    }

    /// Index of the token under the cursor.
    pub closed spec fn index(&self) -> nat {
        self.token_idx.0 as nat
    }

    pub open spec fn wf(&self) -> bool {
        self.lexed().wf() && self.index() <= self.lexed().count()
    }

    pub fn current_token_idx(&self) -> (idx: TokenIdx)
        ensures
            idx.0 == self.index(),
    {
        self.token_idx
    }

    /// The token under the cursor, or `None` behind the last one.
    pub fn peek(&self) -> (token: Option<(SyntaxKind, &'a str)>)
        requires
            self.wf(),
        ensures
            self.index() < self.lexed().count() ==> token.is_some() && token.unwrap().0
                == self.lexed().kinds()[self.index() as int] && token.unwrap().1@
                == self.lexed().token_text(self.index() as int),
            self.index() >= self.lexed().count() ==> token.is_none(),
    {
        if self.token_idx.0 < self.lexed.len() {
            let i: usize = self.token_idx.0;
            let ghost a = self.lexed.cuts()[i as int];
            let ghost b = self.lexed.cuts()[i + 1];
            let range = self.lexed.token_range(self.token_idx);
            let (head, _) = split_chars(self.lexed.text, range.end, Ghost(b));
            proof {
                assert(head@.subrange(0, a) =~= self.lexed.source().subrange(0, a));
            }
            let (_, text) = split_chars(head, range.start, Ghost(a));
            proof {
                assert(text@ =~= self.lexed.token_text(i as int));
            }
            Some((self.lexed.kind[i], text))
        } else {
            None
        }
    }

    /// The token under the cursor, which then moves on; `None`, and no move,
    /// behind the last one.
    pub fn next(&mut self) -> (token: Option<(SyntaxKind, &'a str)>)
        requires
            old(self).wf(),
        ensures
            final(self).wf(),
            final(self).lexed() == old(self).lexed(),
            old(self).index() < old(self).lexed().count() ==> token.is_some() && token.unwrap().0
                == old(self).lexed().kinds()[old(self).index() as int] && token.unwrap().1@
                == old(self).lexed().token_text(old(self).index() as int) && final(self).index()
                == old(self).index() + 1,
            old(self).index() >= old(self).lexed().count() ==> token.is_none()
                && final(self).index() == old(self).index(),
    {
        let res = self.peek();
        assert(self.lexed.start.len() == self.lexed.count() + 2);
        if res.is_some() {
            self.token_idx = TokenIdx(self.token_idx.0 + 1);
        }
        res
    }
}

} // verus!
