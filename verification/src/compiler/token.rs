use vstd::prelude::*;

verus! {

/// A stretch of the source text, by the byte offsets of its two ends.
#[derive(Debug, Clone, Copy, PartialEq, Eq, Structural)]
pub struct Span {
    pub lo: u32,
    pub hi: u32,
}

impl Span {
    /// The span of what has no place in the source text.
    pub open spec fn dummy() -> Span {
        Span { lo: 0, hi: 0 }
    }

    /// The span of what has no place in the source text.
    pub fn dummy_sp() -> (s: Span)
        ensures
            s == Span::dummy(),
    {
        Span { lo: 0, hi: 0 }
    }

    pub fn new(lo: u32, hi: u32) -> (s: Self)
        ensures
            s == (Span { lo, hi }),
    {
        Span { lo, hi }
    }

    /// The empty span at the end of this one.
    pub open spec fn end(self) -> Span {
        Span { lo: self.hi, hi: self.hi }
    }

    /// The empty span at the end of this one.
    pub fn shrink_to_hi(&self) -> (s: Span)
        ensures
            s == self.end(),
    {
        Span { lo: self.hi, hi: self.hi }
    }
}

pub enum TokenView {
    WhiteSpace,
    Ident(Seq<char>),
    AtKeyword(Seq<char>),
    Str(Seq<char>),
    Colon,
    Semi,
    Other,
}

/// A token of the style sheet, as far as the at-rules of this dialect read
/// it.
#[derive(Debug)]
pub enum Token {
    WhiteSpace,
    /// An identifier, by its value.
    Ident(String),
    /// `@` and an identifier, by the value of the identifier.
    AtKeyword(String),
    /// A quoted string, by its value.
    Str(String),
    Colon,
    Semi,
    /// Any other token.
    Other,
}

impl View for Token {
    type V = TokenView;

    open spec fn view(&self) -> TokenView {
        match self {
            Token::WhiteSpace => TokenView::WhiteSpace,
            Token::Ident(value) => TokenView::Ident(value@),
            Token::AtKeyword(value) => TokenView::AtKeyword(value@),
            Token::Str(value) => TokenView::Str(value@),
            Token::Colon => TokenView::Colon,
            Token::Semi => TokenView::Semi,
            Token::Other => TokenView::Other,
        }
    }
}

pub enum ComponentValueView {
    PreservedToken { token: TokenView, span: Span },
    Other,
}

/// One value of the prelude or of the block of an at-rule.
#[derive(Debug)]
pub enum ComponentValue {
    /// A token that the style sheet parser has left as it found it.
    PreservedToken { token: Token, span: Span },
    /// Anything that the parser has given a structure.
    Other,
}

impl View for ComponentValue {
    type V = ComponentValueView;

    open spec fn view(&self) -> ComponentValueView {
        match self {
            ComponentValue::PreservedToken { token, span } => ComponentValueView::PreservedToken {
                token: token@,
                span: *span,
            },
            ComponentValue::Other => ComponentValueView::Other,
        }
    }
}

/// The views of a list of values.
pub open spec fn value_views(values: Seq<ComponentValue>) -> Seq<ComponentValueView> {
    values.map_values(|v: ComponentValue| v@)
}

pub enum PreludeView {
    Missing,
    ListOfComponentValues { span: Span, children: Seq<ComponentValueView> },
    Other,
}

/// What stands between the name of an at-rule and its block or semicolon.
#[derive(Debug)]
pub enum Prelude {
    /// The at-rule has no prelude.
    Missing,
    /// A list of values that the style sheet parser has left as it found
    /// them.
    ListOfComponentValues { span: Span, children: Vec<ComponentValue> },
    /// A prelude that the parser has given a structure.
    Other,
}

impl View for Prelude {
    type V = PreludeView;

    open spec fn view(&self) -> PreludeView {
        match self {
            Prelude::Missing => PreludeView::Missing,
            Prelude::ListOfComponentValues { span, children } => PreludeView::ListOfComponentValues {
                span: *span,
                children: value_views(children@),
            },
            Prelude::Other => PreludeView::Other,
        }
    }
}

pub struct BlockView {
    pub span: Span,
    pub value: Seq<ComponentValueView>,
}

/// The block of an at-rule, between its braces.
#[derive(Debug)]
pub struct Block {
    pub span: Span,
    pub value: Vec<ComponentValue>,
}

impl View for Block {
    type V = BlockView;

    open spec fn view(&self) -> BlockView {
        BlockView { span: self.span, value: value_views(self.value@) }
    }
}

pub struct AtRuleView {
    pub name: Seq<char>,
    pub span: Span,
    pub prelude: PreludeView,
    pub block: Option<BlockView>,
}

/// An at-rule of the style sheet.
#[derive(Debug)]
pub struct AtRule {
    pub name: String,
    pub span: Span,
    pub prelude: Prelude,
    pub block: Option<Block>,
}

impl View for AtRule {
    type V = AtRuleView;

    open spec fn view(&self) -> AtRuleView {
        AtRuleView {
            name: self.name@,
            span: self.span,
            prelude: self.prelude@,
            block: match self.block {
                Some(block) => Some(block@),
                None => None,
            },
        }
    }
}

} // verus!
