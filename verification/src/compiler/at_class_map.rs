use crate::class_map::{ClassMap, ClassMapState, ClassMapStateView, ClassMapView};
use crate::compiler::error::{
    ParserError, ParserErrorKind, ParserErrorKindView, ParserErrorView, ParserResult,
};
use crate::compiler::expect::{
    expect, expect_colon, expect_ident, expect_identifier_list, expect_semi, expect_whitespace,
    ident_list, ident_list_rest, join_words, joined_words, skip_whitespace, skipped_whitespace,
    word_views, Step, Want,
};
use crate::compiler::scope::{ModuleScope, ModuleScopeView};
use crate::compiler::token::{
    value_views, AtRule, AtRuleView, ComponentValue, ComponentValueView, Prelude, PreludeView,
    Span, Token, TokenView,
};
use crate::css_map::{CssMap, CssMapView};
use crate::idmap::IdKind;
use crate::text::str_eq;
use vstd::prelude::*;

verus! {

/// The names of a module and the map that gives them identifiers.
pub struct Context {
    pub scope: ModuleScopeView,
    pub map: CssMapView,
}

impl Context {
    /// The context after the scope was asked for the identifier of a class.
    pub open spec fn after_class(self, name: Seq<char>) -> Context {
        Context {
            scope: self.scope.after_get_id(self.map, IdKind::Class, name),
            map: self.scope.map_after_get_id(self.map, IdKind::Class, name),
        }
    }
}

/// The outcome of giving the classes of a list their identifiers: the
/// context after it, and the identifiers, or `None` where they ran out.
pub struct Resolution {
    pub context: Context,
    pub globals: Option<Seq<Seq<char>>>,
}

/// Gives the classes from `i` on their identifiers, one after the other, and
/// stops where there is none left to give.
pub open spec fn resolve_from(context: Context, names: Seq<Seq<char>>, i: int, found: Seq<Seq<char>>) -> Resolution
    decreases names.len() - i,
{
    if i < 0 || i >= names.len() {
        Resolution { context, globals: Some(found) }
    } else {
        match context.scope.got_id(context.map, IdKind::Class, names[i]) {
            None => Resolution { context: context.after_class(names[i]), globals: None },
            Some(id) => resolve_from(
                context.after_class(names[i]),
                names,
                i + 1,
                found.push(id.global_id),
            ),
        }
    }
}

/// Gives the classes of a list their identifiers.
pub open spec fn resolve(context: Context, names: Seq<Seq<char>>) -> Resolution {
    resolve_from(context, names, 0, Seq::empty())
}

/// Replaces each class of the list by its identifier. `None` says that the
/// identifiers ran out.
pub fn resolve_class_names(scope: &mut ModuleScope, css_map: &mut CssMap, names: &Vec<String>) -> (r:
    Option<Vec<String>>)
    requires
        old(scope).wf(),
        old(css_map).wf(),
        old(scope)@.module_index < old(css_map)@.modules.len(),
    ensures
        final(scope).wf(),
        final(css_map).wf(),
        final(css_map)@.modules.len() == old(css_map)@.modules.len(),
        final(scope)@.module_index == old(scope)@.module_index,
        (Context { scope: final(scope)@, map: final(css_map)@ }) == resolve(
            Context { scope: old(scope)@, map: old(css_map)@ },
            word_views(names@),
        ).context,
        match resolve(Context { scope: old(scope)@, map: old(css_map)@ }, word_views(names@)).globals {
            Some(globals) => r matches Some(found) && word_views(found@) == globals,
            None => r is None,
        },
        old(scope)@.within(old(css_map)@.modules.len()) ==> final(scope)@.within(
            final(css_map)@.modules.len(),
        ),
{
    let mut found: Vec<String> = Vec::new();
    let mut i: usize = 0;
    let ghost start = Context { scope: scope@, map: css_map@ };
    let ghost words = word_views(names@);
    proof {
        assert(word_views(found@) =~= Seq::<Seq<char>>::empty());
    }
    while i < names.len()
        invariant
            i <= names.len(),
            words == word_views(names@),
            start == (Context { scope: old(scope)@, map: old(css_map)@ }),
            scope.wf(),
            css_map.wf(),
            css_map@.modules.len() == old(css_map)@.modules.len(),
            scope@.module_index == old(scope)@.module_index,
            scope@.module_index < css_map@.modules.len(),
            old(scope)@.within(old(css_map)@.modules.len()) ==> scope@.within(
                css_map@.modules.len(),
            ),
            resolve(start, words) == resolve_from(
                Context { scope: scope@, map: css_map@ },
                words,
                i as int,
                word_views(found@),
            ),
        decreases names.len() - i,
    {
        let ghost before = word_views(found@);
        assert(words[i as int] == names@[i as int]@);
        match scope.get_id(css_map, IdKind::Class, names[i].as_str()) {
            None => {
                return None;
            },
            Some(id) => {
                found.push(id.global_id);
                proof {
                    assert(word_views(found@) =~= before.push(id.global_id@));
                }
            },
        }
        i += 1;
    }
    Some(found)
}

/// The place of the state called `name`: that of the last with this name.
pub open spec fn state_index(states: Seq<ClassMapStateView>, name: Seq<char>) -> Option<int>
    decreases states.len(),
{
    if states.len() == 0 {
        None
    } else if states.last().name == name {
        Some(states.len() - 1)
    } else {
        state_index(states.drop_last(), name)
    }
}

/// The views of a list of states.
pub open spec fn state_views(states: Seq<ClassMapState>) -> Seq<ClassMapStateView> {
    states.map_values(|s: ClassMapState| s@)
}

fn find_state(states: &Vec<ClassMapState>, name: &str) -> (r: Option<usize>)
    ensures
        match state_index(state_views(states@), name@) {
            Some(i) => r == Some(i as usize) && 0 <= i < states.len(),
            None => r is None,
        },
{
    let mut k: usize = states.len();
    let ghost all = state_views(states@);
    proof {
        assert(all.take(k as int) =~= all);
    }
    while k > 0
        invariant
            k <= states.len(),
            all == state_views(states@),
            state_index(all, name@) == state_index(all.take(k as int), name@),
        decreases k,
    {
        k -= 1;
        proof {
            assert(all.take(k + 1).last() == states@[k as int]@);
            assert(all.take(k + 1).drop_last() =~= all.take(k as int));
        }
        if str_eq(states[k].name.as_str(), name) {
            return Some(k);
        }
    }
    None
}

/// The bit of the state at `index`. A state whose index does not fit a
/// word gets no bit.
pub open spec fn state_bit(index: int) -> usize {
    if 0 <= index < usize::BITS {
        1usize << (index as usize)
    } else {
        0
    }
}

/// Whether the word at `i` joins the names of two states: it is `and`, no
/// state is called so, and the words before and after it name states.
pub open spec fn joins(states: Seq<ClassMapStateView>, names: Seq<Seq<char>>, i: int) -> bool {
    &&& 0 < i < names.len() - 1
    &&& names[i] == "and"@
    &&& state_index(states, names[i]) is None
    &&& state_index(states, names[i - 1]) is Some
    &&& state_index(states, names[i + 1]) is Some
}

/// The combination of the states that the names from `i` on stand for, added
/// to `mask`; `None` where a word neither names a state nor joins two that
/// do.
pub open spec fn exclude_mask_from(
    states: Seq<ClassMapStateView>,
    names: Seq<Seq<char>>,
    i: int,
    mask: usize,
) -> Option<usize>
    decreases names.len() - i,
{
    if i < 0 || i >= names.len() {
        Some(mask)
    } else {
        match state_index(states, names[i]) {
            None => if joins(states, names, i) {
                exclude_mask_from(states, names, i + 1, mask)
            } else {
                None
            },
            Some(index) => exclude_mask_from(states, names, i + 1, mask | state_bit(index)),
        }
    }
}

/// The combination of the states that the words of an `@exclude` entry
/// stand for. The states may be written one after the other, or with `and`
/// between them.
pub open spec fn exclude_mask(states: Seq<ClassMapStateView>, names: Seq<Seq<char>>) -> Option<
    usize,
> {
    exclude_mask_from(states, names, 0, 0)
}

fn is_joint(states: &Vec<ClassMapState>, names: &Vec<String>, i: usize) -> (r: bool)
    requires
        i < names.len(),
        state_index(state_views(states@), names@[i as int]@) is None,
    ensures
        r == joins(state_views(states@), word_views(names@), i as int),
{
    if i == 0 || i + 1 >= names.len() {
        return false;
    }
    if !str_eq(names[i].as_str(), "and") {
        return false;
    }
    find_state(states, names[i - 1].as_str()).is_some() && find_state(
        states,
        names[i + 1].as_str(),
    ).is_some()
}

fn exclude_mask_of(states: &Vec<ClassMapState>, names: &Vec<String>) -> (r: Option<usize>)
    ensures
        r == exclude_mask(state_views(states@), word_views(names@)),
{
    let mut mask: usize = 0;
    let mut i: usize = 0;
    let ghost views = state_views(states@);
    let ghost words = word_views(names@);
    while i < names.len()
        invariant
            i <= names.len(),
            views == state_views(states@),
            words == word_views(names@),
            exclude_mask(views, words) == exclude_mask_from(views, words, i as int, mask),
        decreases names.len() - i,
    {
        assert(words[i as int] == names@[i as int]@);
        match find_state(states, names[i].as_str()) {
            None => {
                if !is_joint(states, names, i) {
                    return None;
                }
            },
            Some(index) => {
                if index < usize::BITS as usize {
                    mask = mask | (1usize << index);
                } else {
                    assert(mask | 0usize == mask) by (bit_vector);
                }
            },
        }
        i += 1;
    }
    Some(mask)
}

/// The name that the prelude of a `@classmap` rule gives: white space, an
/// identifier that the target language takes, and at most white space
/// after it.
pub open spec fn class_map_name(rule: AtRuleView) -> Result<Seq<char>, ParserErrorView> {
    match rule.prelude {
        PreludeView::ListOfComponentValues { span, children } => {
            let space = expect(children, 0, span, Want::WhiteSpace);
            match space.result {
                Err(e) => Err(e),
                Ok(_) => {
                    let ident = expect(children, space.next, span, Want::Ident { js: true });
                    match ident.result {
                        Err(e) => Err(e),
                        Ok(name) => {
                            let end = skipped_whitespace(children, ident.next);
                            if 0 <= end < children.len() {
                                Err(
                                    ParserErrorView {
                                        span: match children[end] {
                                            ComponentValueView::PreservedToken {
                                                token,
                                                span,
                                            } => span,
                                            ComponentValueView::Other => Span::dummy(),
                                        },
                                        kind: ParserErrorKindView::UnknownToken,
                                    },
                                )
                            } else {
                                Ok(name)
                            }
                        },
                    }
                },
            }
        },
        _ => Err(ParserErrorView { span: rule.span, kind: ParserErrorKindView::ExpectedPrelude }),
    }
}

fn parse_class_map_name(at_rule: &AtRule) -> (r: ParserResult<String>)
    ensures
        match class_map_name(at_rule@) {
            Ok(name) => r matches Ok(found) && found@ == name,
            Err(error) => r matches Err(e) && e@ == error,
        },
{
    match &at_rule.prelude {
        Prelude::ListOfComponentValues { span, children } => {
            let mut pos: usize = 0;
            match expect_whitespace(children, &mut pos, span) {
                Err(e) => {
                    return Err(e);
                },
                Ok(_) => {},
            }
            let ident = match expect_ident(children, &mut pos, span, true) {
                Err(e) => {
                    return Err(e);
                },
                Ok(ident) => ident,
            };
            skip_whitespace(children, &mut pos);
            if pos < children.len() {
                match &children[pos] {
                    ComponentValue::PreservedToken { token, span } => Err(
                        ParserError::new(*span, ParserErrorKind::UnknownToken),
                    ),
                    ComponentValue::Other => Err(
                        ParserError::new(Span::dummy_sp(), ParserErrorKind::UnknownToken),
                    ),
                }
            } else {
                Ok(ident)
            }
        },
        _ => Err(ParserError::new(at_rule.span, ParserErrorKind::ExpectedPrelude)),
    }
}

/// One entry of the block of a `@classmap` rule, as it is written.
#[allow(inconsistent_fields)]
pub enum ItemView {
    /// `@static` and the classes that are always there.
    Static { names: Seq<Seq<char>>, next: int },
    /// `@exclude` and the states that may not be active together.
    Exclude { names: Seq<Seq<char>>, next: int },
    /// A state and the classes that it adds.
    State { name: Seq<char>, classes: Seq<Seq<char>>, next: int },
    /// White space between two entries.
    Space { next: int },
    /// No entry.
    Fail { error: ParserErrorView },
}

/// The list that follows `@static` or `@exclude`: white space, identifiers
/// that the target language takes, and a semicolon.
pub open spec fn keyword_list(values: Seq<ComponentValueView>, pos: int, span: Span) -> Step<
    Seq<Seq<char>>,
> {
    let space = expect(values, pos, span, Want::WhiteSpace);
    match space.result {
        Err(e) => Step { result: Err(e), next: space.next },
        Ok(_) => {
            let list = ident_list(values, space.next, span, true);
            match list.result {
                Err(e) => Step { result: Err(e), next: list.next },
                Ok(names) => {
                    let semi = expect(values, list.next, span, Want::Semi);
                    match semi.result {
                        Err(e) => Step { result: Err(e), next: semi.next },
                        Ok(_) => Step { result: Ok(names), next: semi.next },
                    }
                },
            }
        },
    }
}

/// The list that follows the name of a state: a colon, identifiers that the
/// target language takes, and a semicolon, with white space allowed about
/// the colon.
pub open spec fn state_list(values: Seq<ComponentValueView>, pos: int, span: Span) -> Step<
    Seq<Seq<char>>,
> {
    let colon = expect(values, skipped_whitespace(values, pos), span, Want::Colon);
    match colon.result {
        Err(e) => Step { result: Err(e), next: colon.next },
        Ok(_) => {
            let list = ident_list(values, skipped_whitespace(values, colon.next), span, true);
            match list.result {
                Err(e) => Step { result: Err(e), next: list.next },
                Ok(names) => {
                    let semi = expect(values, list.next, span, Want::Semi);
                    match semi.result {
                        Err(e) => Step { result: Err(e), next: semi.next },
                        Ok(_) => Step { result: Ok(names), next: semi.next },
                    }
                },
            }
        },
    }
}

/// The entry that starts with the value at `pos`. `span` is that of the
/// block.
pub open spec fn item_at(values: Seq<ComponentValueView>, pos: int, span: Span) -> ItemView {
    match values[pos] {
        ComponentValueView::Other => ItemView::Fail {
            error: ParserErrorView { span, kind: ParserErrorKindView::UnexpectedComponentValue },
        },
        ComponentValueView::PreservedToken { token, span: at } => match token {
            TokenView::AtKeyword(word) => if word == "static"@ {
                let list = keyword_list(values, pos + 1, span);
                match list.result {
                    Err(error) => ItemView::Fail { error },
                    Ok(names) => ItemView::Static { names, next: list.next },
                }
            } else if word == "exclude"@ {
                let list = keyword_list(values, pos + 1, span);
                match list.result {
                    Err(error) => ItemView::Fail { error },
                    Ok(names) => ItemView::Exclude { names, next: list.next },
                }
            } else {
                ItemView::Fail {
                    error: ParserErrorView { span: at, kind: ParserErrorKindView::UnknownAtRule },
                }
            },
            TokenView::Ident(name) => {
                let list = state_list(values, pos + 1, span);
                match list.result {
                    Err(error) => ItemView::Fail { error },
                    Ok(classes) => ItemView::State { name, classes, next: list.next },
                }
            },
            TokenView::WhiteSpace => ItemView::Space { next: pos + 1 },
            _ => ItemView::Fail {
                error: ParserErrorView { span: at, kind: ParserErrorKindView::UnknownToken },
            },
        },
    }
}

/// One entry of the block of a `@classmap` rule, as it is written.
pub enum Item {
    Static(Vec<String>),
    Exclude(Vec<String>),
    State(String, Vec<String>),
    Space,
}

fn parse_keyword_list(values: &Vec<ComponentValue>, pos: &mut usize, span: &Span) -> (r: ParserResult<
    Vec<String>,
>)
    ensures
        *final(pos) == keyword_list(value_views(values@), *old(pos) as int, *span).next,
        match keyword_list(value_views(values@), *old(pos) as int, *span).result {
            Ok(names) => r matches Ok(found) && word_views(found@) == names,
            Err(error) => r matches Err(e) && e@ == error,
        },
{
    match expect_whitespace(values, pos, span) {
        Err(e) => {
            return Err(e);
        },
        Ok(_) => {},
    }
    let names = match expect_identifier_list(values, pos, span, true) {
        Err(e) => {
            return Err(e);
        },
        Ok(names) => names,
    };
    match expect_semi(values, pos, span) {
        Err(e) => Err(e),
        Ok(_) => Ok(names),
    }
}

fn parse_state_list(values: &Vec<ComponentValue>, pos: &mut usize, span: &Span) -> (r: ParserResult<
    Vec<String>,
>)
    ensures
        *final(pos) == state_list(value_views(values@), *old(pos) as int, *span).next,
        match state_list(value_views(values@), *old(pos) as int, *span).result {
            Ok(names) => r matches Ok(found) && word_views(found@) == names,
            Err(error) => r matches Err(e) && e@ == error,
        },
{
    skip_whitespace(values, pos);
    match expect_colon(values, pos, span) {
        Err(e) => {
            return Err(e);
        },
        Ok(_) => {},
    }
    skip_whitespace(values, pos);
    let names = match expect_identifier_list(values, pos, span, true) {
        Err(e) => {
            return Err(e);
        },
        Ok(names) => names,
    };
    match expect_semi(values, pos, span) {
        Err(e) => Err(e),
        Ok(_) => Ok(names),
    }
}

/// Whether `item`, read up to `after`, is the entry `view`.
pub open spec fn is_item(r: ParserResult<Item>, after: usize, view: ItemView) -> bool {
    match view {
        ItemView::Static { names, next } => r matches Ok(Item::Static(found)) && word_views(found@)
            == names && after == next,
        ItemView::Exclude { names, next } => r matches Ok(Item::Exclude(found)) && word_views(
            found@,
        ) == names && after == next,
        ItemView::State { name, classes, next } => r matches Ok(Item::State(state, found))
            && state@ == name && word_views(found@) == classes && after == next,
        ItemView::Space { next } => r matches Ok(Item::Space) && after == next,
        ItemView::Fail { error } => r matches Err(e) && e@ == error,
    }
}

fn parse_item(values: &Vec<ComponentValue>, pos: &mut usize, span: &Span) -> (r: ParserResult<Item>)
    requires
        *old(pos) < values.len(),
    ensures
        is_item(r, *final(pos), item_at(value_views(values@), *old(pos) as int, *span)),
{
    let at_pos: usize = *pos;
    *pos = *pos + 1;
    match &values[at_pos] {
        ComponentValue::PreservedToken { token, span: at } => match token {
            Token::AtKeyword(word) => {
                if str_eq(word.as_str(), "static") {
                    match parse_keyword_list(values, pos, span) {
                        Err(e) => Err(e),
                        Ok(names) => Ok(Item::Static(names)),
                    }
                } else if str_eq(word.as_str(), "exclude") {
                    match parse_keyword_list(values, pos, span) {
                        Err(e) => Err(e),
                        Ok(names) => Ok(Item::Exclude(names)),
                    }
                } else {
                    Err(ParserError::new(*at, ParserErrorKind::UnknownAtRule))
                }
            },
            Token::Ident(state_name) => {
                match parse_state_list(values, pos, span) {
                    Err(e) => Err(e),
                    Ok(classes) => Ok(Item::State(state_name.clone(), classes)),
                }
            },
            Token::WhiteSpace => Ok(Item::Space),
            _ => Err(ParserError::new(*at, ParserErrorKind::UnknownToken)),
        },
        _ => Err(ParserError::new(*span, ParserErrorKind::UnexpectedComponentValue)),
    }
}

/// A step of reading does not go back.
pub proof fn lemma_expect_next(values: Seq<ComponentValueView>, pos: int, span: Span, want: Want)
    ensures
        pos <= expect(values, pos, span, want).next <= pos + 1,
        expect(values, pos, span, want).result is Ok ==> 0 <= pos && expect(
            values,
            pos,
            span,
            want,
        ).next == pos + 1,
{
}

/// A list of identifiers ends at or after the place where it starts.
pub proof fn lemma_ident_list_rest_next(
    values: Seq<ComponentValueView>,
    pos: int,
    span: Span,
    js: bool,
    found: Seq<Seq<char>>,
)
    ensures
        pos <= ident_list_rest(values, pos, span, js, found).1,
    decreases values.len() - pos,
{
    let space = expect(values, pos, span, Want::WhiteSpace);
    if !(space.result is Err || pos < 0) {
        let ident = expect(values, space.next, span, Want::Ident { js });
        lemma_expect_next(values, pos, span, Want::WhiteSpace);
        lemma_expect_next(values, space.next, span, Want::Ident { js });
        if let Ok(value) = ident.result {
            lemma_ident_list_rest_next(values, ident.next, span, js, found.push(value));
        }
    }
}

/// An entry ends after the place where it starts.
pub proof fn lemma_item_next(values: Seq<ComponentValueView>, pos: int, span: Span)
    requires
        0 <= pos < values.len(),
    ensures
        match item_at(values, pos, span) {
            ItemView::Static { names, next } => pos < next,
            ItemView::Exclude { names, next } => pos < next,
            ItemView::State { name, classes, next } => pos < next,
            ItemView::Space { next } => pos < next,
            ItemView::Fail { error } => true,
        },
{
    let after = pos + 1;
    lemma_expect_next(values, after, span, Want::WhiteSpace);
    let space = expect(values, after, span, Want::WhiteSpace);
    lemma_expect_next(values, space.next, span, Want::Ident { js: true });
    let first = expect(values, space.next, span, Want::Ident { js: true });
    if let Ok(value) = first.result {
        lemma_ident_list_rest_next(values, first.next, span, true, seq![value]);
    }
    lemma_expect_next(values, ident_list(values, space.next, span, true).next, span, Want::Semi);
    let skipped = skipped_whitespace(values, after);
    lemma_expect_next(values, skipped, span, Want::Colon);
    let colon = expect(values, skipped, span, Want::Colon);
    let skipped2 = skipped_whitespace(values, colon.next);
    lemma_expect_next(values, skipped2, span, Want::Ident { js: true });
    let first2 = expect(values, skipped2, span, Want::Ident { js: true });
    if let Ok(value) = first2.result {
        lemma_ident_list_rest_next(values, first2.next, span, true, seq![value]);
    }
    lemma_expect_next(values, ident_list(values, skipped2, span, true).next, span, Want::Semi);
}

/// What the entries of a block have given so far.
pub struct Parts {
    /// The states, each with the identifiers of its classes.
    pub states: Seq<ClassMapStateView>,
    /// The classes of the last `@static` entry, as they are written.
    pub statics: Seq<Seq<char>>,
    /// The forbidden combinations of states.
    pub excludes: Seq<usize>,
}

/// The outcome of reading a `@classmap` rule: the context after it, and the
/// class map or what is wrong with the rule.
pub struct Outcome {
    pub context: Context,
    pub result: Result<ClassMapView, ParserErrorView>,
}

/// The error for a rule whose identifiers ran out.
pub open spec fn out_of_identifiers(span: Span) -> ParserErrorView {
    ParserErrorView { span, kind: ParserErrorKindView::OutOfIdentifiers }
}

/// The error for an `@exclude` entry with a word that neither names a state
/// nor joins two that do.
pub open spec fn unknown_state(span: Span) -> ParserErrorView {
    ParserErrorView { span, kind: ParserErrorKindView::UnknownToken }
}

/// Reads the entries of the block from `pos` on. The classes of a state get
/// their identifiers where the state is read, those of `@static` at the end
/// of the block. An `@exclude` entry may name the states that stand before
/// it.
pub open spec fn class_map_block(
    context: Context,
    name: Seq<char>,
    parts: Parts,
    values: Seq<ComponentValueView>,
    pos: int,
    span: Span,
) -> Outcome
    decreases values.len() - pos,
    via class_map_block_decreases
{
    if pos < 0 || pos >= values.len() {
        let statics = resolve(context, parts.statics);
        match statics.globals {
            None => Outcome { context: statics.context, result: Err(out_of_identifiers(span)) },
            Some(globals) => Outcome {
                context: statics.context,
                result: Ok(
                    ClassMapView {
                        name,
                        static_classes: joined_words(globals),
                        states: parts.states,
                        exclude_constraints: parts.excludes,
                    },
                ),
            },
        }
    } else {
        match item_at(values, pos, span) {
            ItemView::Fail { error } => Outcome { context, result: Err(error) },
            ItemView::Space { next } => class_map_block(context, name, parts, values, next, span),
            ItemView::Static { names, next } => class_map_block(
                context,
                name,
                Parts { statics: names, ..parts },
                values,
                next,
                span,
            ),
            ItemView::Exclude { names, next } => match exclude_mask(parts.states, names) {
                None => Outcome { context, result: Err(unknown_state(span)) },
                Some(mask) => class_map_block(
                    context,
                    name,
                    Parts { excludes: parts.excludes.push(mask), ..parts },
                    values,
                    next,
                    span,
                ),
            },
            ItemView::State { name: state, classes, next } => {
                let resolved = resolve(context, classes);
                match resolved.globals {
                    None => Outcome {
                        context: resolved.context,
                        result: Err(out_of_identifiers(span)),
                    },
                    Some(globals) => class_map_block(
                        resolved.context,
                        name,
                        Parts {
                            states: parts.states.push(
                                ClassMapStateView { name: state, classes: joined_words(globals) },
                            ),
                            ..parts
                        },
                        values,
                        next,
                        span,
                    ),
                }
            },
        }
    }
}

#[via_fn]
proof fn class_map_block_decreases(
    context: Context,
    name: Seq<char>,
    parts: Parts,
    values: Seq<ComponentValueView>,
    pos: int,
    span: Span,
) {
    if 0 <= pos < values.len() {
        lemma_item_next(values, pos, span);
    }
}

/// The outcome of reading a `@classmap` rule in a context: its name, then
/// the entries of its block.
pub open spec fn class_map_rule(context: Context, rule: AtRuleView) -> Outcome {
    match class_map_name(rule) {
        Err(error) => Outcome { context, result: Err(error) },
        Ok(name) => match rule.block {
            None => Outcome {
                context,
                result: Err(
                    ParserErrorView { span: rule.span, kind: ParserErrorKindView::ExpectedBlock },
                ),
            },
            Some(block) => class_map_block(
                context,
                name,
                Parts { states: Seq::empty(), statics: Seq::empty(), excludes: Seq::empty() },
                block.value,
                0,
                block.span,
            ),
        },
    }
}

/// Reads `@classmap NAME { ... }` and gives its classes identifiers.
pub fn parse_at_class_map(at_rule: &AtRule, scope: &mut ModuleScope, css_map: &mut CssMap) -> (r:
    ParserResult<ClassMap>)
    requires
        old(scope).wf(),
        old(css_map).wf(),
        old(scope)@.module_index < old(css_map)@.modules.len(),
    ensures
        final(scope).wf(),
        final(css_map).wf(),
        final(css_map)@.modules.len() == old(css_map)@.modules.len(),
        final(scope)@.module_index == old(scope)@.module_index,
        (Context { scope: final(scope)@, map: final(css_map)@ }) == class_map_rule(
            Context { scope: old(scope)@, map: old(css_map)@ },
            at_rule@,
        ).context,
        match class_map_rule(Context { scope: old(scope)@, map: old(css_map)@ }, at_rule@).result {
            Ok(class_map) => r matches Ok(found) && found@ == class_map,
            Err(error) => r matches Err(e) && e@ == error,
        },
        old(scope)@.within(old(css_map)@.modules.len()) ==> final(scope)@.within(
            final(css_map)@.modules.len(),
        ),
{
    let name = match parse_class_map_name(at_rule) {
        Err(e) => {
            return Err(e);
        },
        Ok(name) => name,
    };
    let block = match &at_rule.block {
        None => {
            return Err(ParserError::new(at_rule.span, ParserErrorKind::ExpectedBlock));
        },
        Some(block) => block,
    };
    let mut states: Vec<ClassMapState> = Vec::new();
    let mut static_classes: Vec<String> = Vec::new();
    let mut exclude_constraints: Vec<usize> = Vec::new();
    let mut pos: usize = 0;
    let ghost start = Context { scope: scope@, map: css_map@ };
    let ghost values = value_views(block.value@);
    proof {
        assert(state_views(states@) =~= Seq::<ClassMapStateView>::empty());
        assert(word_views(static_classes@) =~= Seq::<Seq<char>>::empty());
    }
    while pos < block.value.len()
        invariant
            values == value_views(block.value@),
            start == (Context { scope: old(scope)@, map: old(css_map)@ }),
            scope.wf(),
            css_map.wf(),
            css_map@.modules.len() == old(css_map)@.modules.len(),
            scope@.module_index == old(scope)@.module_index,
            scope@.module_index < css_map@.modules.len(),
            old(scope)@.within(old(css_map)@.modules.len()) ==> scope@.within(
                css_map@.modules.len(),
            ),
            class_map_rule(start, at_rule@) == class_map_block(
                Context { scope: scope@, map: css_map@ },
                name@,
                Parts {
                    states: state_views(states@),
                    statics: word_views(static_classes@),
                    excludes: exclude_constraints@,
                },
                values,
                pos as int,
                block.span,
            ),
        decreases block.value.len() - pos,
    {
        proof {
            lemma_item_next(values, pos as int, block.span);
        }
        let ghost before = state_views(states@);
        match parse_item(&block.value, &mut pos, &block.span) {
            Err(e) => {
                return Err(e);
            },
            Ok(Item::Space) => {},
            Ok(Item::Static(names)) => {
                static_classes = names;
            },
            Ok(Item::Exclude(names)) => {
                match exclude_mask_of(&states, &names) {
                    None => {
                        return Err(ParserError::new(block.span, ParserErrorKind::UnknownToken));
                    },
                    Some(mask) => {
                        exclude_constraints.push(mask);
                    },
                }
            },
            Ok(Item::State(state_name, classes)) => {
                match resolve_class_names(scope, css_map, &classes) {
                    None => {
                        return Err(ParserError::new(block.span, ParserErrorKind::OutOfIdentifiers));
                    },
                    Some(globals) => {
                        let state = ClassMapState::new(state_name, join_words(&globals));
                        states.push(state);
                        proof {
                            assert(state_views(states@) =~= before.push(state@));
                        }
                    },
                }
            },
        }
    }
    match resolve_class_names(scope, css_map, &static_classes) {
        None => Err(ParserError::new(block.span, ParserErrorKind::OutOfIdentifiers)),
        Some(globals) => {
            let class_map = ClassMap::new(name, join_words(&globals), states, exclude_constraints);
            Ok(class_map)
        },
    }
}

} // verus!
