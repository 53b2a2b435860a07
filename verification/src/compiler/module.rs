use crate::class_map::{ClassMap, ClassMapView, MAX_STATES};
use crate::compiler::at_class_map::{class_map_rule, parse_at_class_map, Context};
use crate::compiler::at_extern::{extern_symbol, parse_at_extern};
use crate::compiler::error::ParserErrorView;
use crate::compiler::scope::{ModuleScope, ModuleScopeView};
use crate::compiler::token::{AtRule, AtRuleView, Span};
use crate::css_map::{CssMap, CssMapView};
use crate::idmap::IdKind;
use crate::text::{decimal, decimal_string, str_eq};
use vstd::prelude::*;
use vstd::string::StringExecFns;

verus! {

pub struct DiagnosticView {
    pub span: Span,
    pub message: Seq<char>,
}

/// A complaint about the source text, with the place that it points to.
#[derive(Debug)]
pub struct Diagnostic {
    pub span: Span,
    pub message: String,
}

impl View for Diagnostic {
    type V = DiagnosticView;

    open spec fn view(&self) -> DiagnosticView {
        DiagnosticView { span: self.span, message: self.message@ }
    }
}

/// The views of a list of diagnostics.
pub open spec fn diagnostic_views(diagnostics: Seq<Diagnostic>) -> Seq<DiagnosticView> {
    diagnostics.map_values(|d: Diagnostic| d@)
}

/// The views of a list of class maps.
pub open spec fn class_map_views(class_maps: Seq<ClassMap>) -> Seq<ClassMapView> {
    class_maps.map_values(|c: ClassMap| c@)
}

/// The diagnostic for an error in an at-rule.
pub open spec fn error_diagnostic(error: ParserErrorView) -> DiagnosticView {
    DiagnosticView { span: error.span, message: error.kind.message() }
}

/// The diagnostic for a name that got no identifier.
pub open spec fn out_of_identifiers(span: Span) -> DiagnosticView {
    DiagnosticView { span, message: "Out of identifiers"@ }
}

/// The diagnostic for a class map with too few or too many states.
pub open spec fn states_diagnostic(span: Span, states: nat) -> DiagnosticView {
    DiagnosticView {
        span,
        message: "class map should have at least 2 states and no more than 8 states but got "@
            + decimal(states) + " states"@,
    }
}

/// A class selector, by the name of the class.
#[derive(Debug)]
pub struct ClassSelector {
    pub span: Span,
    pub text: String,
}

/// A dashed identifier, by its name without the dashes.
#[derive(Debug)]
pub struct DashedIdent {
    pub span: Span,
    pub value: String,
}

/// The name of a `@keyframes` rule.
#[derive(Debug)]
pub enum KeyframesName {
    CustomIdent { span: Span, value: String },
    /// A name that is written as a string.
    Str(String),
}

/// A rule at the root of the style sheet.
#[derive(Debug)]
pub enum Rule {
    AtRule(AtRule),
    /// Any other rule.
    Other,
}

pub enum RuleView {
    AtRule(AtRuleView),
    Other,
}

impl View for Rule {
    type V = RuleView;

    open spec fn view(&self) -> RuleView {
        match self {
            Rule::AtRule(rule) => RuleView::AtRule(rule@),
            Rule::Other => RuleView::Other,
        }
    }
}

impl RuleView {
    /// Whether the rule declares a name of another module.
    pub open spec fn is_extern(self) -> bool {
        self matches RuleView::AtRule(rule) && rule.name == "extern"@
    }

    /// Whether the rule defines a class map.
    pub open spec fn is_class_map(self) -> bool {
        self matches RuleView::AtRule(rule) && rule.name == "classmap"@
    }

    /// Whether the rule stays in the style sheet: the rules of this dialect
    /// leave it.
    pub open spec fn stays(self) -> bool {
        !self.is_extern() && !self.is_class_map()
    }
}

pub struct ModuleCompilerView {
    pub scope: ModuleScopeView,
    pub class_maps: Seq<ClassMapView>,
    pub has_keyframes: bool,
    pub diagnostics: Seq<DiagnosticView>,
}

impl ModuleCompilerView {
    /// The compiler after a name of `kind` at `span` was given its
    /// identifier: the scope holds the name, or a diagnostic says that there
    /// was no identifier left.
    pub open spec fn after_name(self, map: CssMapView, kind: IdKind, span: Span, name: Seq<char>) -> ModuleCompilerView {
        ModuleCompilerView {
            scope: self.scope.after_get_id(map, kind, name),
            diagnostics: if self.scope.got_id(map, kind, name) is Some {
                self.diagnostics
            } else {
                self.diagnostics.push(out_of_identifiers(span))
            },
            ..self
        }
    }

    /// The compiler after an `@extern` rule: the scope holds the name that
    /// the rule declares, or a diagnostic says why not.
    pub open spec fn after_extern(self, map: CssMapView, rule: AtRuleView) -> ModuleCompilerView {
        match extern_symbol(rule) {
            Err(error) => ModuleCompilerView {
                diagnostics: self.diagnostics.push(error_diagnostic(error)),
                ..self
            },
            Ok(symbol) => ModuleCompilerView {
                scope: self.scope.after_add_extern(
                    map,
                    symbol.module_id,
                    symbol.kind,
                    symbol.local_id,
                    symbol.imported_id,
                ),
                diagnostics: if self.scope.got_extern(
                    map,
                    symbol.module_id,
                    symbol.kind,
                    symbol.local_id,
                    symbol.imported_id,
                ) is Some {
                    self.diagnostics
                } else {
                    self.diagnostics.push(out_of_identifiers(rule.span))
                },
                ..self
            },
        }
    }

    /// The map after an `@extern` rule.
    pub open spec fn map_after_extern(self, map: CssMapView, rule: AtRuleView) -> CssMapView {
        match extern_symbol(rule) {
            Err(error) => map,
            Ok(symbol) => self.scope.map_after_add_extern(
                map,
                symbol.module_id,
                symbol.kind,
                symbol.local_id,
                symbol.imported_id,
            ),
        }
    }

    /// The compiler after a `@classmap` rule: it holds the class map that
    /// the rule defines, if that has two to eight states, or a diagnostic
    /// says why not.
    pub open spec fn after_class_map(self, map: CssMapView, rule: AtRuleView) -> ModuleCompilerView {
        let outcome = class_map_rule(Context { scope: self.scope, map }, rule);
        match outcome.result {
            Err(error) => ModuleCompilerView {
                scope: outcome.context.scope,
                diagnostics: self.diagnostics.push(error_diagnostic(error)),
                ..self
            },
            Ok(class_map) => if 2 <= class_map.states.len() <= MAX_STATES {
                ModuleCompilerView {
                    scope: outcome.context.scope,
                    class_maps: self.class_maps.push(class_map),
                    ..self
                }
            } else {
                ModuleCompilerView {
                    scope: outcome.context.scope,
                    diagnostics: self.diagnostics.push(
                        states_diagnostic(rule.span, class_map.states.len()),
                    ),
                    ..self
                }
            },
        }
    }

    /// The compiler after a rule at the root of the style sheet was read.
    pub open spec fn after_rule(self, map: CssMapView, rule: RuleView) -> ModuleCompilerView {
        if rule.is_extern() {
            self.after_extern(map, rule->AtRule_0)
        } else if rule.is_class_map() {
            self.after_class_map(map, rule->AtRule_0)
        } else {
            self
        }
    }

    /// The map after a rule at the root of the style sheet was read.
    pub open spec fn map_after_rule(self, map: CssMapView, rule: RuleView) -> CssMapView {
        if rule.is_extern() {
            self.map_after_extern(map, rule->AtRule_0)
        } else if rule.is_class_map() {
            class_map_rule(Context { scope: self.scope, map }, rule->AtRule_0).context.map
        } else {
            map
        }
    }

    /// Whether each class map has two to eight states.
    pub open spec fn class_maps_fit(self) -> bool {
        forall|i: int|
            0 <= i < self.class_maps.len() ==> 2 <= (#[trigger] self.class_maps[i]).states.len()
                <= MAX_STATES
    }
}

/// What the compilation of one module has gathered.
pub struct ModuleCompiler {
    pub scope: ModuleScope,
    pub class_maps: Vec<ClassMap>,
    pub has_keyframes: bool,
    pub diagnostics: Vec<Diagnostic>,
}

impl View for ModuleCompiler {
    type V = ModuleCompilerView;

    open spec fn view(&self) -> ModuleCompilerView {
        ModuleCompilerView {
            scope: self.scope@,
            class_maps: class_map_views(self.class_maps@),
            has_keyframes: self.has_keyframes,
            diagnostics: diagnostic_views(self.diagnostics@),
        }
    }
}

impl ModuleCompiler {
    /// Whether the scope is in order and each class map has two to eight
    /// states.
    pub open spec fn wf(&self) -> bool {
        &&& self.scope.wf()
        &&& self@.class_maps_fit()
    }

    /// Whether the compiler and the map go together: both are in order,
    /// the module of the compiler is one of the map, and so is the module
    /// of each identifier of the scope.
    pub open spec fn fits(&self, css_map: &CssMap) -> bool {
        &&& self.wf()
        &&& css_map.wf()
        &&& self@.scope.module_index < css_map@.modules.len()
        &&& self@.scope.within(css_map@.modules.len())
    }

    pub fn new(module_id: u32) -> (c: Self)
        ensures
            c.wf(),
            c@ == (ModuleCompilerView {
                scope: ModuleScopeView {
                    module_index: module_id,
                    classes: Seq::empty(),
                    vars: Seq::empty(),
                    keyframes: Seq::empty(),
                },
                class_maps: Seq::empty(),
                has_keyframes: false,
                diagnostics: Seq::empty(),
            }),
    {
        let c = Self {
            scope: ModuleScope::new(module_id),
            class_maps: Vec::new(),
            has_keyframes: false,
            diagnostics: Vec::new(),
        };
        assert(c@.class_maps =~= Seq::empty());
        assert(c@.diagnostics =~= Seq::empty());
        c
    }

    /// Whether a diagnostic was raised.
    pub fn has_errors(&self) -> (b: bool)
        ensures
            b == (self@.diagnostics.len() > 0),
    {
        self.diagnostics.len() > 0
    }

    fn report(&mut self, span: Span, message: String)
        ensures
            final(self).scope == old(self).scope,
            final(self).class_maps == old(self).class_maps,
            final(self).has_keyframes == old(self).has_keyframes,
            final(self)@.diagnostics == old(self)@.diagnostics.push(
                DiagnosticView { span, message: message@ },
            ),
    {
        let d = Diagnostic { span, message };
        self.diagnostics.push(d);
        assert(diagnostic_views(self.diagnostics@) =~= diagnostic_views(old(self).diagnostics@).push(
            d@,
        ));
    }

    /// The identifier of a name of `kind` that stands at `span`.
    fn rename(&mut self, css_map: &mut CssMap, kind: IdKind, span: Span, name: &str) -> (r: Option<
        String,
    >)
        requires
            old(self).fits(old(css_map)),
        ensures
            final(self).fits(final(css_map)),
            final(self)@ == old(self)@.after_name(old(css_map)@, kind, span, name@),
            final(css_map)@ == old(self)@.scope.map_after_get_id(old(css_map)@, kind, name@),
            final(css_map)@.modules.len() == old(css_map)@.modules.len(),
            match old(self)@.scope.got_id(old(css_map)@, kind, name@) {
                Some(id) => r matches Some(global) && global@ == id.global_id,
                None => r is None,
            },
    {
        let r = match self.scope.get_id(css_map, kind, name) {
            Some(id) => Some(id.global_id),
            None => {
                self.report(span, String::from_str("Out of identifiers"));
                None
            },
        };
        proof {
            assert(self@.class_maps == old(self)@.class_maps);
            assert forall|i: int| 0 <= i < self@.class_maps.len() implies 2 <= (
            #[trigger] self@.class_maps[i]).states.len() <= MAX_STATES by {
                assert(old(self)@.class_maps[i] == self@.class_maps[i]);
            }
        }
        r
    }

    /// Gives the class of a selector its identifier.
    pub fn visit_mut_class_selector(&mut self, css_map: &mut CssMap, selector: &mut ClassSelector)
        requires
            old(self).fits(old(css_map)),
        ensures
            final(self).fits(final(css_map)),
            final(self)@ == old(self)@.after_name(
                old(css_map)@,
                IdKind::Class,
                old(selector).span,
                old(selector).text@,
            ),
            final(css_map)@ == old(self)@.scope.map_after_get_id(
                old(css_map)@,
                IdKind::Class,
                old(selector).text@,
            ),
            final(css_map)@.modules.len() == old(css_map)@.modules.len(),
            final(selector).span == old(selector).span,
            final(selector).text@ == (match old(self)@.scope.got_id(
                old(css_map)@,
                IdKind::Class,
                old(selector).text@,
            ) {
                Some(id) => id.global_id,
                None => old(selector).text@,
            }),
    {
        if let Some(global) = self.rename(
            css_map,
            IdKind::Class,
            selector.span,
            selector.text.as_str(),
        ) {
            selector.text = global;
        }
    }

    /// Gives the variable of a dashed identifier its identifier.
    pub fn visit_mut_dashed_ident(&mut self, css_map: &mut CssMap, ident: &mut DashedIdent)
        requires
            old(self).fits(old(css_map)),
        ensures
            final(self).fits(final(css_map)),
            final(self)@ == old(self)@.after_name(
                old(css_map)@,
                IdKind::Var,
                old(ident).span,
                old(ident).value@,
            ),
            final(css_map)@ == old(self)@.scope.map_after_get_id(
                old(css_map)@,
                IdKind::Var,
                old(ident).value@,
            ),
            final(css_map)@.modules.len() == old(css_map)@.modules.len(),
            final(ident).span == old(ident).span,
            final(ident).value@ == (match old(self)@.scope.got_id(
                old(css_map)@,
                IdKind::Var,
                old(ident).value@,
            ) {
                Some(id) => id.global_id,
                None => old(ident).value@,
            }),
    {
        if let Some(global) = self.rename(css_map, IdKind::Var, ident.span, ident.value.as_str()) {
            ident.value = global;
        }
    }

    /// Gives the animation of a `@keyframes` rule its identifier, unless its
    /// name is written as a string.
    pub fn visit_mut_keyframes_name(&mut self, css_map: &mut CssMap, name: &mut KeyframesName)
        requires
            old(self).fits(old(css_map)),
        ensures
            final(self).fits(final(css_map)),
            final(css_map)@.modules.len() == old(css_map)@.modules.len(),
            match *old(name) {
                KeyframesName::Str(_) => {
                    &&& *final(name) == *old(name)
                    &&& final(self)@ == old(self)@
                    &&& final(css_map)@ == old(css_map)@
                },
                KeyframesName::CustomIdent { span, value } => {
                    &&& final(self)@ == (ModuleCompilerView {
                        has_keyframes: true,
                        ..old(self)@.after_name(old(css_map)@, IdKind::Keyframes, span, value@)
                    })
                    &&& final(css_map)@ == old(self)@.scope.map_after_get_id(
                        old(css_map)@,
                        IdKind::Keyframes,
                        value@,
                    )
                    &&& *final(name) matches KeyframesName::CustomIdent { span: at, value: global }
                    &&& at == span
                    &&& global@ == (match old(self)@.scope.got_id(
                        old(css_map)@,
                        IdKind::Keyframes,
                        value@,
                    ) {
                        Some(id) => id.global_id,
                        None => value@,
                    })
                },
            },
    {
        match name {
            KeyframesName::CustomIdent { span, value } => {
                if let Some(global) = self.rename(css_map, IdKind::Keyframes, *span, value.as_str()) {
                    *value = global;
                }
                self.has_keyframes = true;
            },
            KeyframesName::Str(_) => {},
        }
    }

    /// Reads a rule at the root of the style sheet, and says whether it
    /// stays there. An `@extern` rule and a `@classmap` rule leave the style
    /// sheet; what they declare goes to the compiler, or a diagnostic says
    /// what is wrong with them.
    pub fn visit_mut_rule(&mut self, css_map: &mut CssMap, rule: &Rule) -> (keep: bool)
        requires
            old(self).fits(old(css_map)),
            old(css_map)@.modules.len() < u32::MAX,
        ensures
            final(self).fits(final(css_map)),
            keep == rule@.stays(),
            final(self)@ == old(self)@.after_rule(old(css_map)@, rule@),
            final(css_map)@ == old(self)@.map_after_rule(old(css_map)@, rule@),
            old(css_map)@.modules.len() <= final(css_map)@.modules.len() <= old(
                css_map,
            )@.modules.len() + 1,
            final(self)@.scope.module_index == old(self)@.scope.module_index,
    {
        let at_rule = match rule {
            Rule::AtRule(at_rule) => at_rule,
            Rule::Other => {
                return true;
            },
        };
        if str_eq(at_rule.name.as_str(), "extern") {
            match parse_at_extern(at_rule) {
                Ok(ext) => {
                    let added = self.scope.add_extern(
                        css_map,
                        ext.module_id.as_str(),
                        ext.kind,
                        ext.local_id.as_str(),
                        ext.imported_id.as_str(),
                    );
                    if added.is_none() {
                        self.report(at_rule.span, String::from_str("Out of identifiers"));
                    }
                },
                Err(err) => {
                    let message = err.message();
                    self.report(err.span, message);
                },
            }
            proof {
                assert(self@.class_maps == old(self)@.class_maps);
                assert forall|i: int| 0 <= i < self@.class_maps.len() implies 2 <= (
                #[trigger] self@.class_maps[i]).states.len() <= MAX_STATES by {
                    assert(old(self)@.class_maps[i] == self@.class_maps[i]);
                }
            }
            false
        } else if str_eq(at_rule.name.as_str(), "classmap") {
            let ghost before = self@.class_maps;
            match parse_at_class_map(at_rule, &mut self.scope, css_map) {
                Ok(class_map) => {
                    let states_num = class_map.states.len();
                    if states_num >= 2 && states_num <= MAX_STATES {
                        self.class_maps.push(class_map);
                        proof {
                            assert(self@.class_maps =~= before.push(class_map@));
                            assert forall|i: int| 0 <= i < self@.class_maps.len() implies 2 <= (
                            #[trigger] self@.class_maps[i]).states.len() <= MAX_STATES by {
                                if i < before.len() {
                                    assert(old(self)@.class_maps[i] == self@.class_maps[i]);
                                }
                            }
                        }
                    } else {
                        let mut message = String::from_str(
                            "class map should have at least 2 states and no more than 8 states but got ",
                        );
                        message.append(decimal_string(states_num).as_str());
                        message.append(" states");
                        self.report(at_rule.span, message);
                        proof {
                            assert forall|i: int| 0 <= i < self@.class_maps.len() implies 2 <= (
                            #[trigger] self@.class_maps[i]).states.len() <= MAX_STATES by {
                                assert(old(self)@.class_maps[i] == self@.class_maps[i]);
                            }
                        }
                    }
                },
                Err(err) => {
                    let message = err.message();
                    self.report(err.span, message);
                    proof {
                        assert forall|i: int| 0 <= i < self@.class_maps.len() implies 2 <= (
                        #[trigger] self@.class_maps[i]).states.len() <= MAX_STATES by {
                            assert(old(self)@.class_maps[i] == self@.class_maps[i]);
                        }
                    }
                },
            }
            false
        } else {
            true
        }
    }
}

} // verus!
