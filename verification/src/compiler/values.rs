use crate::compiler::module::{diagnostic_views, Diagnostic, DiagnosticView};
use crate::compiler::token::Span;
use crate::const_map::{ConstMap, DeclarationName};
use crate::id::{find, Entry, IdTable};
use crate::idmap::IdKind;
use crate::text::str_eq;
use vstd::prelude::*;
use vstd::string::StringExecFns;

verus! {

pub enum ValueKindView {
    Other,
    ConstCall { span: Span, argument: Option<(Seq<char>, Span)> },
}

/// A value of a declaration, as far as the constants are concerned.
#[derive(Debug)]
pub enum ValueKind {
    /// Any value that is no call of `const`.
    Other,
    /// A call of `const` at `span`. The argument is the name and the span of
    /// the dashed identifier that the call starts with, if it starts with
    /// one.
    ConstCall { span: Span, argument: Option<(String, Span)> },
}

impl View for ValueKind {
    type V = ValueKindView;

    open spec fn view(&self) -> ValueKindView {
        match self {
            ValueKind::Other => ValueKindView::Other,
            ValueKind::ConstCall { span, argument } => ValueKindView::ConstCall {
                span: *span,
                argument: match argument {
                    Some((name, at)) => Some((name@, *at)),
                    None => None,
                },
            },
        }
    }
}

/// The views of a list of values.
pub open spec fn kind_views(values: Seq<ValueKind>) -> Seq<ValueKindView> {
    values.map_values(|v: ValueKind| v@)
}

/// One value of a declaration after the constants were put in.
#[derive(Debug, Clone, Copy, PartialEq, Eq, Structural)]
pub enum ValueEdit {
    /// The value that stood at this place before.
    Keep(usize),
    /// The values of the declaration with this number.
    Insert(usize),
}

/// The message for a constant that has no value.
pub open spec fn missing_const(name: Seq<char>) -> Seq<char> {
    "Cannot find a const value '"@ + name + "'"@
}

/// The message for a call of `const` without a name.
pub open spec fn invalid_argument() -> Seq<char> {
    "Invalid function argument, const function should have a dashed identifier, e.g. '--CONST-VAR'"@
}

/// What takes the place of a value: itself, the value of the constant that
/// it names, or nothing where it names none.
pub open spec fn edit_of(value: ValueKindView, i: int, consts: Map<Seq<char>, usize>) -> Option<
    ValueEdit,
> {
    match value {
        ValueKindView::Other => Some(ValueEdit::Keep(i as usize)),
        ValueKindView::ConstCall { span, argument } => match argument {
            Some((name, at)) => if consts.contains_key(name) {
                Some(ValueEdit::Insert(consts[name]))
            } else {
                None
            },
            None => None,
        },
    }
}

/// The complaint about a value, if there is one.
pub open spec fn diagnostic_of(value: ValueKindView, consts: Map<Seq<char>, usize>) -> Option<
    DiagnosticView,
> {
    match value {
        ValueKindView::Other => None,
        ValueKindView::ConstCall { span, argument } => match argument {
            Some((name, at)) => if consts.contains_key(name) {
                None
            } else {
                Some(DiagnosticView { span: at, message: missing_const(name) })
            },
            None => Some(DiagnosticView { span, message: invalid_argument() }),
        },
    }
}

/// What takes the place of the first `n` values.
pub open spec fn edits(values: Seq<ValueKindView>, consts: Map<Seq<char>, usize>, n: int) -> Seq<
    ValueEdit,
>
    decreases n,
{
    if n <= 0 {
        Seq::empty()
    } else {
        match edit_of(values[n - 1], n - 1, consts) {
            Some(edit) => edits(values, consts, n - 1).push(edit),
            None => edits(values, consts, n - 1),
        }
    }
}

/// The complaints about the first `n` values.
pub open spec fn complaints(values: Seq<ValueKindView>, consts: Map<Seq<char>, usize>, n: int) -> Seq<
    DiagnosticView,
>
    decreases n,
{
    if n <= 0 {
        Seq::empty()
    } else {
        match diagnostic_of(values[n - 1], consts) {
            Some(d) => complaints(values, consts, n - 1).push(d),
            None => complaints(values, consts, n - 1),
        }
    }
}

/// Whether some value is a call of `const`.
pub open spec fn has_const(values: Seq<ValueKindView>) -> bool {
    exists|i: int| 0 <= i < values.len() && #[trigger] values[i] is ConstCall
}

/// Puts the values of constants in the place of the calls that name them.
pub struct UpdateConstValues<'a> {
    pub const_map: &'a ConstMap,
}

impl<'a> UpdateConstValues<'a> {
    /// Goes through the values of a declaration. Where none is a call of
    /// `const`, the declaration stays as it is, which `None` says. Else the
    /// result lists what the declaration holds afterwards, and each call
    /// that names no constant leaves a diagnostic behind.
    pub fn visit_mut_declaration(&self, values: &Vec<ValueKind>, diagnostics: &mut Vec<Diagnostic>) -> (r:
        Option<Vec<ValueEdit>>)
        ensures
            match r {
                None => !has_const(kind_views(values@)) && final(diagnostics)@ == old(diagnostics)@,
                Some(list) => {
                    &&& has_const(kind_views(values@))
                    &&& list@ == edits(kind_views(values@), self.const_map@, values.len() as int)
                    &&& diagnostic_views(final(diagnostics)@) == diagnostic_views(old(diagnostics)@)
                        + complaints(kind_views(values@), self.const_map@, values.len() as int)
                },
            },
    {
        let ghost views = kind_views(values@);
        let mut found = false;
        let mut k: usize = 0;
        while k < values.len()
            invariant
                k <= values.len(),
                views == kind_views(values@),
                found <==> exists|i: int| 0 <= i < k && #[trigger] views[i] is ConstCall,
            decreases values.len() - k,
        {
            if let ValueKind::ConstCall { .. } = &values[k] {
                assert(views[k as int] is ConstCall);
                found = true;
            }
            k += 1;
        }
        if !found {
            return None;
        }
        let mut r: Vec<ValueEdit> = Vec::with_capacity(values.len());
        let ghost before = diagnostic_views(diagnostics@);
        let mut i: usize = 0;
        proof {
            assert(diagnostic_views(diagnostics@) =~= before + complaints(
                views,
                self.const_map@,
                0,
            ));
        }
        while i < values.len()
            invariant
                i <= values.len(),
                views == kind_views(values@),
                r@ == edits(views, self.const_map@, i as int),
                diagnostic_views(diagnostics@) == before + complaints(views, self.const_map@, i as int),
            decreases values.len() - i,
        {
            let ghost so_far = diagnostic_views(diagnostics@);
            assert(views[i as int] == values@[i as int]@);
            match &values[i] {
                ValueKind::Other => {
                    r.push(ValueEdit::Keep(i));
                },
                ValueKind::ConstCall { span, argument } => match argument {
                    Some((name, at)) => match self.const_map.get(name.as_str()) {
                        Some(declaration) => {
                            r.push(ValueEdit::Insert(declaration));
                        },
                        None => {
                            let mut message = String::from_str("Cannot find a const value '");
                            message.append(name.as_str());
                            message.append("'");
                            let d = Diagnostic { span: *at, message };
                            diagnostics.push(d);
                            proof {
                                assert(diagnostic_views(diagnostics@) =~= so_far.push(d@));
                            }
                        },
                    },
                    None => {
                        let d = Diagnostic {
                            span: *span,
                            message: String::from_str(
                                "Invalid function argument, const function should have a dashed identifier, e.g. '--CONST-VAR'",
                            ),
                        };
                        diagnostics.push(d);
                        proof {
                            assert(diagnostic_views(diagnostics@) =~= so_far.push(d@));
                        }
                    },
                },
            }
            i += 1;
            proof {
                assert(diagnostic_views(diagnostics@) =~= before + complaints(
                    views,
                    self.const_map@,
                    i as int,
                ));
            }
        }
        Some(r)
    }
}

pub enum AnimationValueView {
    Ident(Seq<char>),
    Other,
}

/// A value of a declaration, as far as the names of animations are
/// concerned.
#[derive(Debug)]
pub enum AnimationValue {
    /// An identifier, by its value.
    Ident(String),
    /// Any other value.
    Other,
}

impl View for AnimationValue {
    type V = AnimationValueView;

    open spec fn view(&self) -> AnimationValueView {
        match self {
            AnimationValue::Ident(value) => AnimationValueView::Ident(value@),
            AnimationValue::Other => AnimationValueView::Other,
        }
    }
}

/// The value after the names of animations were replaced: an identifier
/// that the scope knows as an animation becomes the identifier of that
/// animation.
pub open spec fn renamed(value: AnimationValueView, scope: Seq<Entry>) -> AnimationValueView {
    match value {
        AnimationValueView::Ident(name) => match find(scope, name) {
            Some(id) => if id.kind == IdKind::Keyframes {
                AnimationValueView::Ident(id.global_id)
            } else {
                value
            },
            None => value,
        },
        AnimationValueView::Other => value,
    }
}

/// Whether the declaration sets the property `animation`.
pub open spec fn is_animation(name: DeclarationName) -> bool {
    name matches DeclarationName::Ident(property) && property@ == "animation"@
}

/// Replaces the names of animations in the values of `animation`
/// declarations.
pub struct TransformAnimationNames<'a> {
    pub scope: &'a IdTable,
}

impl<'a> TransformAnimationNames<'a> {
    pub fn new(scope: &'a IdTable) -> (t: Self)
        ensures
            t.scope == scope,
    {
        Self { scope }
    }

    /// Goes through the values of a declaration: in an `animation`
    /// declaration each name of an animation of the scope is replaced by
    /// its identifier.
    pub fn visit_mut_declaration(&self, name: &DeclarationName, values: &mut Vec<AnimationValue>)
        requires
            self.scope.wf(),
        ensures
            final(values)@.len() == old(values)@.len(),
            forall|i: int|
                0 <= i < old(values)@.len() ==> (#[trigger] final(values)@[i])@ == (if is_animation(
                    *name,
                ) {
                    renamed(old(values)@[i]@, self.scope@)
                } else {
                    old(values)@[i]@
                }),
    {
        if let DeclarationName::Ident(ident) = name {
            if str_eq(ident.as_str(), "animation") {
                let mut i: usize = 0;
                while i < values.len()
                    invariant
                        i <= values.len(),
                        self.scope.wf(),
                        values@.len() == old(values)@.len(),
                        forall|j: int|
                            0 <= j < i ==> (#[trigger] values@[j])@ == renamed(
                                old(values)@[j]@,
                                self.scope@,
                            ),
                        forall|j: int| i <= j < values@.len() ==> #[trigger] values@[j] == old(values)@[j],
                    decreases values.len() - i,
                {
                    let replacement = match &values[i] {
                        AnimationValue::Ident(word) => match self.scope.get(word.as_str()) {
                            Some(id) => match id.kind {
                                IdKind::Keyframes => Some(id.global_id.clone()),
                                _ => None,
                            },
                            None => None,
                        },
                        AnimationValue::Other => None,
                    };
                    if let Some(global) = replacement {
                        values.set(i, AnimationValue::Ident(global));
                    }
                    i += 1;
                }
            }
        }
    }
}

} // verus!
