use crate::compiler::token::Span;
use vstd::prelude::*;
use vstd::string::StringExecFns;

verus! {

pub enum ParserErrorKindView {
    ExpectedWhitespace,
    ExpectedKeyword(Seq<char>),
    ExpectedIdentifier,
    ExpectedValidJSIdentifier,
    ExpectedString,
    ExpectedSemicolon,
    ExpectedColon,
    ExpectedPrelude,
    ExpectedBlock,
    UnknownToken,
    UnknownAtRule,
    UnexpectedComponentValue,
    OutOfIdentifiers,
}

impl ParserErrorKindView {
    /// The message for an error of this kind.
    pub open spec fn message(self) -> Seq<char> {
        match self {
            ParserErrorKindView::ExpectedWhitespace => "Expected whitespace"@,
            ParserErrorKindView::ExpectedKeyword(keyword) => "Expected keyword '"@ + keyword + "'"@,
            ParserErrorKindView::ExpectedIdentifier => "Expected identifier"@,
            ParserErrorKindView::ExpectedValidJSIdentifier => "Expected valid JS identifier `[a-zA-Z_][a-zA-Z0-9_]*`"@,
            ParserErrorKindView::ExpectedString => "Expected string"@,
            ParserErrorKindView::ExpectedSemicolon => "Expected semicolon"@,
            ParserErrorKindView::ExpectedColon => "Expected colon"@,
            ParserErrorKindView::ExpectedPrelude => "Expected prelude"@,
            ParserErrorKindView::ExpectedBlock => "Expected block"@,
            ParserErrorKindView::UnknownToken => "Unknown token"@,
            ParserErrorKindView::UnknownAtRule => "Unknown at rule"@,
            ParserErrorKindView::UnexpectedComponentValue => "Unexpected component value"@,
            ParserErrorKindView::OutOfIdentifiers => "Out of identifiers"@,
        }
    }
}

/// What is wrong with an at-rule of this dialect.
#[derive(Debug)]
pub enum ParserErrorKind {
    ExpectedWhitespace,
    ExpectedKeyword(String),
    ExpectedIdentifier,
    ExpectedValidJSIdentifier,
    ExpectedString,
    ExpectedSemicolon,
    ExpectedColon,
    ExpectedPrelude,
    ExpectedBlock,
    UnknownToken,
    UnknownAtRule,
    UnexpectedComponentValue,
    /// The generator has no identifier left for a name of the at-rule.
    OutOfIdentifiers,
}

impl View for ParserErrorKind {
    type V = ParserErrorKindView;

    open spec fn view(&self) -> ParserErrorKindView {
        match self {
            ParserErrorKind::ExpectedWhitespace => ParserErrorKindView::ExpectedWhitespace,
            ParserErrorKind::ExpectedKeyword(keyword) => ParserErrorKindView::ExpectedKeyword(
                keyword@,
            ),
            ParserErrorKind::ExpectedIdentifier => ParserErrorKindView::ExpectedIdentifier,
            ParserErrorKind::ExpectedValidJSIdentifier => ParserErrorKindView::ExpectedValidJSIdentifier,
            ParserErrorKind::ExpectedString => ParserErrorKindView::ExpectedString,
            ParserErrorKind::ExpectedSemicolon => ParserErrorKindView::ExpectedSemicolon,
            ParserErrorKind::ExpectedColon => ParserErrorKindView::ExpectedColon,
            ParserErrorKind::ExpectedPrelude => ParserErrorKindView::ExpectedPrelude,
            ParserErrorKind::ExpectedBlock => ParserErrorKindView::ExpectedBlock,
            ParserErrorKind::UnknownToken => ParserErrorKindView::UnknownToken,
            ParserErrorKind::UnknownAtRule => ParserErrorKindView::UnknownAtRule,
            ParserErrorKind::UnexpectedComponentValue => ParserErrorKindView::UnexpectedComponentValue,
            ParserErrorKind::OutOfIdentifiers => ParserErrorKindView::OutOfIdentifiers,
        }
    }
}

impl ParserErrorKind {
    /// The message for an error of this kind.
    pub fn message(&self) -> (s: String)
        ensures
            s@ == self@.message(),
    {
        match self {
            ParserErrorKind::ExpectedWhitespace => String::from_str("Expected whitespace"),
            ParserErrorKind::ExpectedKeyword(keyword) => {
                let mut s = String::from_str("Expected keyword '");
                s.append(keyword.as_str());
                s.append("'");
                s
            },
            ParserErrorKind::ExpectedIdentifier => String::from_str("Expected identifier"),
            ParserErrorKind::ExpectedValidJSIdentifier => String::from_str(
                "Expected valid JS identifier `[a-zA-Z_][a-zA-Z0-9_]*`",
            ),
            ParserErrorKind::ExpectedString => String::from_str("Expected string"),
            ParserErrorKind::ExpectedSemicolon => String::from_str("Expected semicolon"),
            ParserErrorKind::ExpectedColon => String::from_str("Expected colon"),
            ParserErrorKind::ExpectedPrelude => String::from_str("Expected prelude"),
            ParserErrorKind::ExpectedBlock => String::from_str("Expected block"),
            ParserErrorKind::UnknownToken => String::from_str("Unknown token"),
            ParserErrorKind::UnknownAtRule => String::from_str("Unknown at rule"),
            ParserErrorKind::UnexpectedComponentValue => String::from_str(
                "Unexpected component value",
            ),
            ParserErrorKind::OutOfIdentifiers => String::from_str("Out of identifiers"),
        }
    }
}

pub struct ParserErrorView {
    pub span: Span,
    pub kind: ParserErrorKindView,
}

/// An error in an at-rule of this dialect, with the place that it points to.
#[derive(Debug)]
pub struct ParserError {
    pub span: Span,
    pub kind: ParserErrorKind,
}

impl View for ParserError {
    type V = ParserErrorView;

    open spec fn view(&self) -> ParserErrorView {
        ParserErrorView { span: self.span, kind: self.kind@ }
    }
}

impl ParserError {
    pub fn new(span: Span, kind: ParserErrorKind) -> (e: Self)
        ensures
            e.span == span,
            e.kind == kind,
    {
        Self { span, kind }
    }

    /// The message of the error.
    pub fn message(&self) -> (s: String)
        ensures
            s@ == self@.kind.message(),
    {
        self.kind.message()
    }
}

pub type ParserResult<T> = Result<T, ParserError>;

} // verus!
