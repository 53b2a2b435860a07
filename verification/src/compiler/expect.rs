use crate::compiler::error::{
    ParserError, ParserErrorKind, ParserErrorKindView, ParserErrorView, ParserResult,
};
use crate::compiler::token::{
    value_views, ComponentValue, ComponentValueView, Span, Token, TokenView,
};
use crate::text::{chars_of, str_eq};
use vstd::prelude::*;
use vstd::string::StringExecFns;

verus! {

/// Whether `s` is in the language `[a-zA-Z_][a-zA-Z0-9_]*`.
pub open spec fn is_js_ident(s: Seq<char>) -> bool {
    &&& s.len() >= 1
    &&& is_js_ident_start(s[0])
    &&& forall|k: int| 1 <= k < s.len() ==> is_js_ident_continue(#[trigger] s[k])
}

/// A letter or `_`.
pub open spec fn is_js_ident_start(c: char) -> bool {
    ('a' <= c && c <= 'z') || ('A' <= c && c <= 'Z') || c == '_'
}

/// A letter, a digit or `_`.
pub open spec fn is_js_ident_continue(c: char) -> bool {
    is_js_ident_start(c) || ('0' <= c && c <= '9')
}

/// Whether `ident` can stand as an identifier in the target language.
pub fn is_valid_js_ident(ident: &str) -> (b: bool)
    ensures
        b == is_js_ident(ident@),
{
    let chars = chars_of(ident);
    if chars.len() == 0 {
        return false;
    }
    let next = chars[0];
    if ('a' <= next && next <= 'z') || ('A' <= next && next <= 'Z') || next == '_' {
        let mut k: usize = 1;
        while k < chars.len()
            invariant
                1 <= k <= chars.len(),
                chars@ == ident@,
                forall|j: int| 1 <= j < k ==> is_js_ident_continue(#[trigger] chars@[j]),
            decreases chars.len() - k,
        {
            let c = chars[k];
            if ('a' <= c && c <= 'z') || ('A' <= c && c <= 'Z') || ('0' <= c && c <= '9') || c
                == '_' {
            } else {
                return false;
            }
            k += 1;
        }
        true
    } else {
        false
    }
}

/// The words, separated by single spaces.
pub open spec fn joined_words(words: Seq<Seq<char>>) -> Seq<char>
    decreases words.len(),
{
    if words.len() == 0 {
        Seq::empty()
    } else if words.len() == 1 {
        words[0]
    } else {
        joined_words(words.drop_last()) + seq![' '] + words.last()
    }
}

/// The texts of a list of strings.
pub open spec fn word_views(words: Seq<String>) -> Seq<Seq<char>> {
    words.map_values(|w: String| w@)
}

/// Joins the words with ' ' separator.
pub fn join_words(words: &Vec<String>) -> (s: String)
    ensures
        s@ == joined_words(word_views(words@)),
{
    let mut result = String::new();
    let mut k: usize = 0;
    while k < words.len()
        invariant
            k <= words.len(),
            result@ == joined_words(word_views(words@).take(k as int)),
        decreases words.len() - k,
    {
        if k > 0 {
            result.push(' ');
        }
        result.append(words[k].as_str());
        proof {
            let all = word_views(words@);
            assert(all.take(k + 1).drop_last() =~= all.take(k as int));
            assert(all.take(k + 1).last() == words@[k as int]@);
            if k == 0 {
                assert(result@ =~= words@[0]@);
            }
        }
        k += 1;
    }
    assert(word_views(words@).take(words.len() as int) =~= word_views(words@));
    result
}

/// What a step of reading asks for.
pub enum Want {
    WhiteSpace,
    /// An identifier. `js` asks for one that the target language takes.
    Ident { js: bool },
    /// The identifier with this value.
    Keyword(Seq<char>),
    Colon,
    Semi,
    Str,
}

impl Want {
    /// Whether the token is what is asked for.
    pub open spec fn takes(self, token: TokenView) -> bool {
        match self {
            Want::WhiteSpace => token is WhiteSpace,
            Want::Ident { js } => token is Ident,
            Want::Keyword(keyword) => token == TokenView::Ident(keyword),
            Want::Colon => token is Colon,
            Want::Semi => token is Semi,
            Want::Str => token is Str,
        }
    }

    /// The error where another token stands, or none.
    pub open spec fn mismatch(self) -> ParserErrorKindView {
        match self {
            Want::WhiteSpace => ParserErrorKindView::ExpectedWhitespace,
            Want::Ident { js } => ParserErrorKindView::ExpectedIdentifier,
            Want::Keyword(keyword) => ParserErrorKindView::ExpectedKeyword(keyword),
            Want::Colon => ParserErrorKindView::ExpectedColon,
            Want::Semi => ParserErrorKindView::ExpectedSemicolon,
            Want::Str => ParserErrorKindView::ExpectedString,
        }
    }
}

/// The text that a token carries, if it carries one.
pub open spec fn token_text(token: TokenView) -> Seq<char> {
    match token {
        TokenView::Ident(value) => value,
        TokenView::AtKeyword(value) => value,
        TokenView::Str(value) => value,
        _ => Seq::empty(),
    }
}

/// The outcome of a step of reading: what was read or why not, and the
/// place where reading goes on.
pub struct Step<T> {
    pub result: Result<T, ParserErrorView>,
    pub next: int,
}

/// Reads the value at `pos` where it is the token asked for, and steps over
/// it. An identifier that the target language does not take is stepped over
/// too, and refused. `span` is where the values stand.
pub open spec fn expect(values: Seq<ComponentValueView>, pos: int, span: Span, want: Want) -> Step<
    Seq<char>,
> {
    if pos < 0 || pos >= values.len() {
        Step { result: Err(ParserErrorView { span: span.end(), kind: want.mismatch() }), next: pos }
    } else {
        match values[pos] {
            ComponentValueView::Other => Step {
                result: Err(
                    ParserErrorView {
                        span: Span::dummy(),
                        kind: ParserErrorKindView::UnexpectedComponentValue,
                    },
                ),
                next: pos,
            },
            ComponentValueView::PreservedToken { token, span: at } => if !want.takes(token) {
                Step { result: Err(ParserErrorView { span: at, kind: want.mismatch() }), next: pos }
            } else if want == (Want::Ident { js: true }) && !is_js_ident(token_text(token)) {
                Step {
                    result: Err(
                        ParserErrorView {
                            span: at,
                            kind: ParserErrorKindView::ExpectedValidJSIdentifier,
                        },
                    ),
                    next: pos + 1,
                }
            } else {
                Step { result: Ok(token_text(token)), next: pos + 1 }
            },
        }
    }
}

/// Whether the exec outcome `r` with the place `after` is the step `step`.
pub open spec fn is_step(r: ParserResult<String>, after: usize, step: Step<Seq<char>>) -> bool {
    &&& after == step.next
    &&& match step.result {
        Ok(text) => r matches Ok(s) && s@ == text,
        Err(error) => r matches Err(e) && e@ == error,
    }
}

/// Whether the exec outcome `r` with the place `after` is the step `step`,
/// of which only success or failure is handed on.
pub open spec fn is_unit_step(r: ParserResult<()>, after: usize, step: Step<Seq<char>>) -> bool {
    &&& after == step.next
    &&& match step.result {
        Ok(text) => r is Ok,
        Err(error) => r matches Err(e) && e@ == error,
    }
}

pub fn expect_ident(values: &Vec<ComponentValue>, pos: &mut usize, span: &Span, is_js_ident: bool) -> (r:
    ParserResult<String>)
    ensures
        is_step(
            r,
            *final(pos),
            expect(value_views(values@), *old(pos) as int, *span, Want::Ident { js: is_js_ident }),
        ),
{
    if *pos < values.len() {
        match &values[*pos] {
            ComponentValue::PreservedToken { token, span: at } => match token {
                Token::Ident(value) => {
                    *pos = *pos + 1;
                    if is_js_ident && !is_valid_js_ident(value.as_str()) {
                        Err(ParserError::new(*at, ParserErrorKind::ExpectedValidJSIdentifier))
                    } else {
                        Ok(value.clone())
                    }
                },
                _ => Err(ParserError::new(*at, ParserErrorKind::ExpectedIdentifier)),
            },
            _ => Err(ParserError::new(Span::dummy_sp(), ParserErrorKind::UnexpectedComponentValue)),
        }
    } else {
        Err(ParserError::new(span.shrink_to_hi(), ParserErrorKind::ExpectedIdentifier))
    }
}

pub fn expect_keyword(values: &Vec<ComponentValue>, pos: &mut usize, keyword: &str, span: &Span) -> (r:
    ParserResult<()>)
    ensures
        is_unit_step(
            r,
            *final(pos),
            expect(value_views(values@), *old(pos) as int, *span, Want::Keyword(keyword@)),
        ),
{
    if *pos < values.len() {
        match &values[*pos] {
            ComponentValue::PreservedToken { token, span: at } => {
                if let Token::Ident(value) = token {
                    if str_eq(value.as_str(), keyword) {
                        *pos = *pos + 1;
                        return Ok(());
                    }
                }
                Err(
                    ParserError::new(
                        *at,
                        ParserErrorKind::ExpectedKeyword(String::from_str(keyword)),
                    ),
                )
            },
            _ => Err(ParserError::new(Span::dummy_sp(), ParserErrorKind::UnexpectedComponentValue)),
        }
    } else {
        Err(
            ParserError::new(
                span.shrink_to_hi(),
                ParserErrorKind::ExpectedKeyword(String::from_str(keyword)),
            ),
        )
    }
}

pub fn expect_colon(values: &Vec<ComponentValue>, pos: &mut usize, span: &Span) -> (r: ParserResult<()>)
    ensures
        is_unit_step(r, *final(pos), expect(value_views(values@), *old(pos) as int, *span, Want::Colon)),
{
    if *pos < values.len() {
        match &values[*pos] {
            ComponentValue::PreservedToken { token, span: at } => match token {
                Token::Colon => {
                    *pos = *pos + 1;
                    Ok(())
                },
                _ => Err(ParserError::new(*at, ParserErrorKind::ExpectedColon)),
            },
            _ => Err(ParserError::new(Span::dummy_sp(), ParserErrorKind::UnexpectedComponentValue)),
        }
    } else {
        Err(ParserError::new(span.shrink_to_hi(), ParserErrorKind::ExpectedColon))
    }
}

pub fn expect_semi(values: &Vec<ComponentValue>, pos: &mut usize, span: &Span) -> (r: ParserResult<()>)
    ensures
        is_unit_step(r, *final(pos), expect(value_views(values@), *old(pos) as int, *span, Want::Semi)),
{
    if *pos < values.len() {
        match &values[*pos] {
            ComponentValue::PreservedToken { token, span: at } => match token {
                Token::Semi => {
                    *pos = *pos + 1;
                    Ok(())
                },
                _ => Err(ParserError::new(*at, ParserErrorKind::ExpectedSemicolon)),
            },
            _ => Err(ParserError::new(Span::dummy_sp(), ParserErrorKind::UnexpectedComponentValue)),
        }
    } else {
        Err(ParserError::new(span.shrink_to_hi(), ParserErrorKind::ExpectedSemicolon))
    }
}

pub fn expect_string(values: &Vec<ComponentValue>, pos: &mut usize, span: &Span) -> (r: ParserResult<
    String,
>)
    ensures
        is_step(r, *final(pos), expect(value_views(values@), *old(pos) as int, *span, Want::Str)),
{
    if *pos < values.len() {
        match &values[*pos] {
            ComponentValue::PreservedToken { token, span: at } => match token {
                Token::Str(value) => {
                    *pos = *pos + 1;
                    Ok(value.clone())
                },
                _ => Err(ParserError::new(*at, ParserErrorKind::ExpectedString)),
            },
            _ => Err(ParserError::new(Span::dummy_sp(), ParserErrorKind::UnexpectedComponentValue)),
        }
    } else {
        Err(ParserError::new(span.shrink_to_hi(), ParserErrorKind::ExpectedString))
    }
}

/// The place after the white space at `pos`, if there is any.
pub open spec fn skipped_whitespace(values: Seq<ComponentValueView>, pos: int) -> int {
    if 0 <= pos < values.len() && values[pos] matches ComponentValueView::PreservedToken {
        token: TokenView::WhiteSpace,
        ..
    } {
        pos + 1
    } else {
        pos
    }
}

pub fn skip_whitespace(values: &Vec<ComponentValue>, pos: &mut usize)
    ensures
        *final(pos) == skipped_whitespace(value_views(values@), *old(pos) as int),
{
    if *pos < values.len() {
        if let ComponentValue::PreservedToken { token, span } = &values[*pos] {
            if let Token::WhiteSpace = token {
                *pos = *pos + 1;
            }
        }
    }
}

pub fn expect_whitespace(values: &Vec<ComponentValue>, pos: &mut usize, span: &Span) -> (r:
    ParserResult<()>)
    ensures
        is_unit_step(
            r,
            *final(pos),
            expect(value_views(values@), *old(pos) as int, *span, Want::WhiteSpace),
        ),
{
    if *pos < values.len() {
        match &values[*pos] {
            ComponentValue::PreservedToken { token, span: at } => match token {
                Token::WhiteSpace => {
                    *pos = *pos + 1;
                    Ok(())
                },
                _ => Err(ParserError::new(*at, ParserErrorKind::ExpectedWhitespace)),
            },
            _ => Err(ParserError::new(Span::dummy_sp(), ParserErrorKind::UnexpectedComponentValue)),
        }
    } else {
        Err(ParserError::new(span.shrink_to_hi(), ParserErrorKind::ExpectedWhitespace))
    }
}

/// The identifiers from `pos` on that white space separates, after the first
/// `found`, and the place where the list ends. White space after the last
/// identifier belongs to the list, and so does an identifier after it that
/// the target language does not take, where `js` asks for that.
pub open spec fn ident_list_rest(
    values: Seq<ComponentValueView>,
    pos: int,
    span: Span,
    js: bool,
    found: Seq<Seq<char>>,
) -> (Seq<Seq<char>>, int)
    decreases values.len() - pos,
{
    let space = expect(values, pos, span, Want::WhiteSpace);
    if space.result is Err || pos < 0 {
        (found, pos)
    } else {
        let ident = expect(values, space.next, span, Want::Ident { js });
        match ident.result {
            Ok(value) => ident_list_rest(values, ident.next, span, js, found.push(value)),
            Err(_) => (found, ident.next),
        }
    }
}

/// A list of identifiers that white space separates: the identifiers, or
/// why there is no first one, and the place where reading goes on.
pub open spec fn ident_list(values: Seq<ComponentValueView>, pos: int, span: Span, js: bool) -> Step<
    Seq<Seq<char>>,
> {
    let first = expect(values, pos, span, Want::Ident { js });
    match first.result {
        Err(error) => Step { result: Err(error), next: first.next },
        Ok(value) => {
            let rest = ident_list_rest(values, first.next, span, js, seq![value]);
            Step { result: Ok(rest.0), next: rest.1 }
        },
    }
}

pub fn expect_identifier_list(
    values: &Vec<ComponentValue>,
    pos: &mut usize,
    span: &Span,
    is_js_ident: bool,
) -> (r: ParserResult<Vec<String>>)
    ensures
        *final(pos) == ident_list(value_views(values@), *old(pos) as int, *span, is_js_ident).next,
        match ident_list(value_views(values@), *old(pos) as int, *span, is_js_ident).result {
            Ok(words) => r matches Ok(found) && word_views(found@) == words,
            Err(error) => r matches Err(e) && e@ == error,
        },
{
    let ident = match expect_ident(values, pos, span, is_js_ident) {
        Ok(ident) => ident,
        Err(e) => {
            return Err(e);
        },
    };
    let ghost head = ident@;
    let mut result: Vec<String> = Vec::new();
    result.push(ident);
    let ghost views = value_views(values@);
    let ghost start = *pos as int;
    proof {
        assert(word_views(result@) =~= seq![result@[0]@]);
    }
    loop
        invariant_except_break
            ident_list_rest(views, start, *span, is_js_ident, seq![result@[0]@]) == ident_list_rest(
                views,
                *pos as int,
                *span,
                is_js_ident,
                word_views(result@),
            ),
        invariant
            views == value_views(values@),
            result.len() >= 1,
            result@[0]@ == head,
        ensures
            result@[0]@ == head,
            (word_views(result@), *pos as int) == ident_list_rest(
                views,
                start,
                *span,
                is_js_ident,
                seq![result@[0]@],
            ),
        decreases values.len() - *pos,
    {
        let ghost before = word_views(result@);
        let ghost at = *pos as int;
        let ghost first = result@[0]@;
        if expect_whitespace(values, pos, span).is_ok() {
            if let Ok(ident) = expect_ident(values, pos, span, is_js_ident) {
                result.push(ident);
                proof {
                    assert(word_views(result@) =~= before.push(ident@));
                    assert(result@[0]@ == first);
                }
            } else {
                assert(ident_list_rest(views, at, *span, is_js_ident, before) == (before, *pos as int));
                break ;
            }
        } else {
            assert(ident_list_rest(views, at, *span, is_js_ident, before) == (before, *pos as int));
            break ;
        }
    }
    Ok(result)
}

} // verus!
