use crate::compiler::error::{
    ParserError, ParserErrorKind, ParserErrorKindView, ParserErrorView, ParserResult,
};
use crate::compiler::expect::{
    expect, expect_ident, expect_keyword, expect_string, expect_whitespace, is_js_ident,
    is_valid_js_ident, Want,
};
use crate::compiler::token::{
    AtRule, AtRuleView, ComponentValue, ComponentValueView, Prelude, PreludeView, Span,
};
use crate::idmap::IdKind;
use crate::text::str_eq;
use vstd::prelude::*;

verus! {

pub struct ExternSymbolView {
    pub kind: IdKind,
    pub local_id: Seq<char>,
    pub imported_id: Seq<char>,
    pub module_id: Seq<char>,
}

/// A name of another module, and the name that it goes by here.
#[derive(Debug)]
pub struct ExternSymbol {
    pub kind: IdKind,
    pub local_id: String,
    pub imported_id: String,
    pub module_id: String,
}

impl View for ExternSymbol {
    type V = ExternSymbolView;

    open spec fn view(&self) -> ExternSymbolView {
        ExternSymbolView {
            kind: self.kind,
            local_id: self.local_id@,
            imported_id: self.imported_id@,
            module_id: self.module_id@,
        }
    }
}

/// The kind that a word names.
pub open spec fn kind_of_word(word: Seq<char>) -> Option<IdKind> {
    if word == "class"@ {
        Some(IdKind::Class)
    } else if word == "var"@ {
        Some(IdKind::Var)
    } else if word == "keyframes"@ {
        Some(IdKind::Keyframes)
    } else {
        None
    }
}

/// The kind that a word names.
pub fn id_kind(word: &str) -> (kind: Option<IdKind>)
    ensures
        kind == kind_of_word(word@),
{
    if str_eq(word, "class") {
        Some(IdKind::Class)
    } else if str_eq(word, "var") {
        Some(IdKind::Var)
    } else if str_eq(word, "keyframes") {
        Some(IdKind::Keyframes)
    } else {
        None
    }
}

/// The span of the value at `pos`, if it is a token.
pub open spec fn span_at(values: Seq<ComponentValueView>, pos: int) -> Span {
    match values[pos] {
        ComponentValueView::PreservedToken { token, span } => span,
        ComponentValueView::Other => Span::dummy(),
    }
}

/// The end of an `@extern` prelude, from the place after the imported name
/// and the white space behind it: `from`, white space and the name of the
/// module.
pub open spec fn extern_from(
    values: Seq<ComponentValueView>,
    pos: int,
    span: Span,
    kind: IdKind,
    imported_id: Seq<char>,
    local_id: Seq<char>,
) -> Result<ExternSymbolView, ParserErrorView> {
    let from = expect(values, pos, span, Want::Keyword("from"@));
    match from.result {
        Err(e) => Err(e),
        Ok(_) => {
            let space = expect(values, from.next, span, Want::WhiteSpace);
            match space.result {
                Err(e) => Err(e),
                Ok(_) => match expect(values, space.next, span, Want::Str).result {
                    Err(e) => Err(e),
                    Ok(module_id) => Ok(ExternSymbolView { kind, local_id, imported_id, module_id }),
                },
            }
        },
    }
}

/// An `@extern` prelude from the place of the imported name on: the name,
/// white space, then either `as`, white space, a local name that the target
/// language takes and white space, or nothing where the target language
/// takes the imported name; then the end.
pub open spec fn extern_names(values: Seq<ComponentValueView>, pos: int, span: Span, kind: IdKind) -> Result<
    ExternSymbolView,
    ParserErrorView,
> {
    let imported = expect(values, pos, span, Want::Ident { js: false });
    match imported.result {
        Err(e) => Err(e),
        Ok(imported_id) => {
            let space = expect(values, imported.next, span, Want::WhiteSpace);
            match space.result {
                Err(e) => Err(e),
                Ok(_) => {
                    let word = expect(values, space.next, span, Want::Keyword("as"@));
                    if word.result is Ok {
                        let space2 = expect(values, word.next, span, Want::WhiteSpace);
                        match space2.result {
                            Err(e) => Err(e),
                            Ok(_) => {
                                let local = expect(
                                    values,
                                    space2.next,
                                    span,
                                    Want::Ident { js: true },
                                );
                                match local.result {
                                    Err(e) => Err(e),
                                    Ok(local_id) => {
                                        let space3 = expect(
                                            values,
                                            local.next,
                                            span,
                                            Want::WhiteSpace,
                                        );
                                        match space3.result {
                                            Err(e) => Err(e),
                                            Ok(_) => extern_from(
                                                values,
                                                space3.next,
                                                span,
                                                kind,
                                                imported_id,
                                                local_id,
                                            ),
                                        }
                                    },
                                }
                            },
                        }
                    } else if !is_js_ident(imported_id) {
                        Err(
                            ParserErrorView {
                                span: span_at(values, pos),
                                kind: ParserErrorKindView::ExpectedValidJSIdentifier,
                            },
                        )
                    } else {
                        extern_from(values, space.next, span, kind, imported_id, imported_id)
                    }
                },
            }
        },
    }
}

/// The symbol that an `@extern` prelude declares: white space, the word for
/// a kind, white space, and the names.
pub open spec fn extern_prelude(values: Seq<ComponentValueView>, span: Span) -> Result<
    ExternSymbolView,
    ParserErrorView,
> {
    let space = expect(values, 0, span, Want::WhiteSpace);
    match space.result {
        Err(e) => Err(e),
        Ok(_) => {
            let word = expect(values, space.next, span, Want::Ident { js: false });
            match word.result {
                Err(e) => Err(e),
                Ok(name) => match kind_of_word(name) {
                    None => Err(
                        ParserErrorView {
                            span: Span::dummy(),
                            kind: ParserErrorKindView::ExpectedIdentifier,
                        },
                    ),
                    Some(kind) => {
                        let space2 = expect(values, word.next, span, Want::WhiteSpace);
                        match space2.result {
                            Err(e) => Err(e),
                            Ok(_) => extern_names(values, space2.next, span, kind),
                        }
                    },
                },
            }
        },
    }
}

/// The symbol that an `@extern` rule declares. A rule whose prelude is not a
/// list of values declares none.
pub open spec fn extern_symbol(rule: AtRuleView) -> Result<ExternSymbolView, ParserErrorView> {
    match rule.prelude {
        PreludeView::ListOfComponentValues { span, children } => extern_prelude(children, span),
        _ => Err(ParserErrorView { span: rule.span, kind: ParserErrorKindView::ExpectedPrelude }),
    }
}

/// Reads `@extern (class|var|keyframes) NAME [as LOCAL] from "MODULE"`.
pub fn parse_at_extern(at_rule: &AtRule) -> (r: ParserResult<ExternSymbol>)
    ensures
        match extern_symbol(at_rule@) {
            Ok(symbol) => r matches Ok(found) && found@ == symbol,
            Err(error) => r matches Err(e) && e@ == error,
        },
{
    match &at_rule.prelude {
        Prelude::ListOfComponentValues { span, children } => {
            let mut pos: usize = 0;
            match expect_whitespace(children, &mut pos, span) {
                Err(e) => {
                    return Err(e);
                },
                Ok(_) => {},
            }
            let symbol_kind_ident = match expect_ident(children, &mut pos, span, false) {
                Err(e) => {
                    return Err(e);
                },
                Ok(word) => word,
            };
            let kind = match id_kind(symbol_kind_ident.as_str()) {
                None => {
                    return Err(
                        ParserError::new(Span::dummy_sp(), ParserErrorKind::ExpectedIdentifier),
                    );
                },
                Some(kind) => kind,
            };
            match expect_whitespace(children, &mut pos, span) {
                Err(e) => {
                    return Err(e);
                },
                Ok(_) => {},
            }
            let imported_pos: usize = pos;
            let imported = match expect_ident(children, &mut pos, span, false) {
                Err(e) => {
                    return Err(e);
                },
                Ok(word) => word,
            };
            let mut local = imported.clone();
            match expect_whitespace(children, &mut pos, span) {
                Err(e) => {
                    return Err(e);
                },
                Ok(_) => {},
            }
            if expect_keyword(children, &mut pos, "as", span).is_ok() {
                match expect_whitespace(children, &mut pos, span) {
                    Err(e) => {
                        return Err(e);
                    },
                    Ok(_) => {},
                }
                local =
                match expect_ident(children, &mut pos, span, true) {
                    Err(e) => {
                        return Err(e);
                    },
                    Ok(word) => word,
                };
                match expect_whitespace(children, &mut pos, span) {
                    Err(e) => {
                        return Err(e);
                    },
                    Ok(_) => {},
                }
            } else {
                if !is_valid_js_ident(local.as_str()) {
                    let at = match &children[imported_pos] {
                        ComponentValue::PreservedToken { token, span } => *span,
                        ComponentValue::Other => Span::dummy_sp(),
                    };
                    return Err(ParserError::new(at, ParserErrorKind::ExpectedValidJSIdentifier));
                }
            }
            match expect_keyword(children, &mut pos, "from", span) {
                Err(e) => {
                    return Err(e);
                },
                Ok(_) => {},
            }
            match expect_whitespace(children, &mut pos, span) {
                Err(e) => {
                    return Err(e);
                },
                Ok(_) => {},
            }
            let module_id = match expect_string(children, &mut pos, span) {
                Err(e) => {
                    return Err(e);
                },
                Ok(word) => word,
            };
            Ok(ExternSymbol { kind, local_id: local, imported_id: imported, module_id })
        },
        _ => Err(ParserError::new(at_rule.span, ParserErrorKind::ExpectedPrelude)),
    }
}

} // verus!
