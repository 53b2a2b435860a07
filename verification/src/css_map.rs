use crate::global_id::{
    languages, lemma_next_for_injective, next_for, pattern_language, IdSet, IdSetView,
};
use crate::id::{distinct_keys, find, lemma_find_is_entry, Entry, Id, IdTable, IdView};
use crate::idmap::key::{lemma_name_key_injective, name_key, name_key_of};
use crate::idmap::parser::{
    io_error_message, lemma_scan_row, scan_row, ErrorKind, Field, ParseError, Parser, RowScan,
};
use crate::idmap::IdKind;
use crate::laws::{held, lemma_duplicate_is_held, lemma_with_row_holds, with_row, Row};
use regex::Regex;
use vstd::hash_map::StringHashMap;
use vstd::hash_set::StringHashSet;
use vstd::prelude::*;
use vstd::string::StringExecFns;

verus! {

#[derive(Debug)]
pub enum CssMapError {
    IOError(std::io::Error),
    ParserError(ParseError),
    InvalidExcludeRule(regex::Error),
    /// The kind, the module and the local name that a text gives twice.
    DuplicateEntry(IdKind, String, String),
}

impl From<std::io::Error> for CssMapError {
    fn from(value: std::io::Error) -> (e: Self) {
        CssMapError::IOError(value)
    }
}

impl vstd::std_specs::convert::FromSpecImpl<std::io::Error> for CssMapError {
    open spec fn obeys_from_spec() -> bool {
        true
    }

    open spec fn from_spec(value: std::io::Error) -> CssMapError {
        CssMapError::IOError(value)
    }
}

impl From<ParseError> for CssMapError {
    fn from(value: ParseError) -> (e: Self) {
        CssMapError::ParserError(value)
    }
}

impl vstd::std_specs::convert::FromSpecImpl<ParseError> for CssMapError {
    open spec fn obeys_from_spec() -> bool {
        true
    }

    open spec fn from_spec(value: ParseError) -> CssMapError {
        CssMapError::ParserError(value)
    }
}

/// The description that `regex::Error` gives of itself through `to_string`.
/// Nothing is claimed of the text.
#[verifier::external_body]
fn regex_error_message(err: &regex::Error) -> String {
    err.to_string()
}

/// The message for a local name that a text gives twice.
pub open spec fn duplicate_text(kind: IdKind, module_id: Seq<char>, local_id: Seq<char>) -> Seq<
    char,
> {
    "Duplicate entry: "@ + kind.name_text() + ","@ + module_id + ","@ + local_id
}

impl CssMapError {
    /// The message that describes the error. For an `IOError` and an
    /// `InvalidExcludeRule` it holds the description that comes with the
    /// cause.
    pub fn message(&self) -> (s: String)
        ensures
            self matches CssMapError::DuplicateEntry(kind, module_id, local_id) ==> s@
                == duplicate_text(*kind, module_id@, local_id@),
            self matches CssMapError::ParserError(e) ==> !(e.kind is IOError) ==> s@
                == e.message_text(),
            self is InvalidExcludeRule ==> exists|cause: Seq<char>|
                s@ == "Invalid exclude rule: "@ + cause,
    {
        match self {
            CssMapError::IOError(err) => io_error_message(err),
            CssMapError::ParserError(err) => err.message(),
            CssMapError::InvalidExcludeRule(err) => {
                let mut s = String::from_str("Invalid exclude rule: ");
                let cause = regex_error_message(err);
                s.append(cause.as_str());
                assert(s@ == "Invalid exclude rule: "@ + cause@);
                s
            },
            CssMapError::DuplicateEntry(kind, module_id, local_id) => {
                let mut s = String::from_str("Duplicate entry: ");
                s.append(kind.name());
                s.append(",");
                s.append(module_id.as_str());
                s.append(",");
                s.append(local_id.as_str());
                assert(s@ =~= duplicate_text(*kind, module_id@, local_id@));
                s
            },
        }
    }
}

pub struct CssMapModuleView {
    pub id: Seq<char>,
    pub index: u32,
    pub classes: Seq<Entry>,
    pub vars: Seq<Entry>,
    pub keyframes: Seq<Entry>,
}

impl CssMapModuleView {
    /// A module that holds no name yet.
    pub open spec fn fresh(id: Seq<char>, index: u32) -> CssMapModuleView {
        CssMapModuleView {
            id,
            index,
            classes: Seq::empty(),
            vars: Seq::empty(),
            keyframes: Seq::empty(),
        }
    }

    /// The names of one kind.
    pub open spec fn table(self, kind: IdKind) -> Seq<Entry> {
        match kind {
            IdKind::Class => self.classes,
            IdKind::Var => self.vars,
            IdKind::Keyframes => self.keyframes,
        }
    }

    /// The module with other names of one kind.
    pub open spec fn with_table(self, kind: IdKind, table: Seq<Entry>) -> CssMapModuleView {
        match kind {
            IdKind::Class => CssMapModuleView { classes: table, ..self },
            IdKind::Var => CssMapModuleView { vars: table, ..self },
            IdKind::Keyframes => CssMapModuleView { keyframes: table, ..self },
        }
    }
}

pub struct CssMapModule {
    pub id: String,
    pub index: u32,
    pub classes: IdTable,
    pub vars: IdTable,
    pub keyframes: IdTable,
}

impl View for CssMapModule {
    type V = CssMapModuleView;

    open spec fn view(&self) -> CssMapModuleView {
        CssMapModuleView {
            id: self.id@,
            index: self.index,
            classes: self.classes@,
            vars: self.vars@,
            keyframes: self.keyframes@,
        }
    }
}

impl CssMapModule {
    /// Whether the three tables are in order.
    pub open spec fn wf(&self) -> bool {
        &&& self.classes.wf()
        &&& self.vars.wf()
        &&& self.keyframes.wf()
    }

    pub fn new(id: String, index: u32) -> (m: Self)
        ensures
            m.wf(),
            m@ == CssMapModuleView::fresh(id@, index),
    {
        Self { id, index, classes: IdTable::new(), vars: IdTable::new(), keyframes: IdTable::new() }
    }

    /// The table of one kind.
    pub fn table(&self, kind: IdKind) -> (t: &IdTable)
        ensures
            t@ == self@.table(kind),
            self.wf() ==> t.wf(),
    {
        match kind {
            IdKind::Class => &self.classes,
            IdKind::Var => &self.vars,
            IdKind::Keyframes => &self.keyframes,
        }
    }
}

/// The position of the module called `name`: that of the first with this
/// name.
pub open spec fn module_position(modules: Seq<CssMapModuleView>, name: Seq<char>) -> Option<int>
    decreases modules.len(),
{
    if modules.len() == 0 {
        None
    } else {
        match module_position(modules.drop_last(), name) {
            Some(i) => Some(i),
            None => if modules.last().id == name {
                Some(modules.len() - 1)
            } else {
                None
            },
        }
    }
}

/// A name that no module has is not found.
pub proof fn lemma_module_position_none(modules: Seq<CssMapModuleView>, name: Seq<char>)
    requires
        forall|i: int| 0 <= i < modules.len() ==> (#[trigger] modules[i]).id != name,
    ensures
        module_position(modules, name) is None,
    decreases modules.len(),
{
    if modules.len() > 0 {
        lemma_module_position_none(modules.drop_last(), name);
    }
}

/// Where the names of the modules are distinct, each is found at its place.
pub proof fn lemma_module_position_some(modules: Seq<CssMapModuleView>, i: int)
    requires
        forall|a: int, b: int|
            0 <= a < modules.len() && 0 <= b < modules.len() && a != b ==> (
            #[trigger] modules[a]).id != (#[trigger] modules[b]).id,
        0 <= i < modules.len(),
    ensures
        module_position(modules, modules[i].id) == Some(i),
    decreases modules.len(),
{
    let name = modules[i].id;
    let rest = modules.drop_last();
    if i == modules.len() - 1 {
        assert forall|k: int| 0 <= k < rest.len() implies (#[trigger] rest[k]).id != name by {
            assert(rest[k] == modules[k]);
        }
        lemma_module_position_none(rest, name);
    } else {
        assert forall|a: int, b: int|
            0 <= a < rest.len() && 0 <= b < rest.len() && a != b implies (#[trigger] rest[a]).id != (
        #[trigger] rest[b]).id by {
            assert(rest[a] == modules[a]);
            assert(rest[b] == modules[b]);
        }
        assert(rest[i] == modules[i]);
        lemma_module_position_some(rest, i);
    }
}

/// A module that is found has the name that was asked for.
pub proof fn lemma_module_position_is_module(modules: Seq<CssMapModuleView>, name: Seq<char>)
    requires
        module_position(modules, name) is Some,
    ensures
        0 <= module_position(modules, name)->0 < modules.len(),
        modules[module_position(modules, name)->0].id == name,
    decreases modules.len(),
{
    if modules.len() > 0 {
        let rest = modules.drop_last();
        if module_position(rest, name) is Some {
            lemma_module_position_is_module(rest, name);
            assert(rest[module_position(rest, name)->0] == modules[module_position(rest, name)->0]);
        }
    }
}

/// The row of the persistent map for one identifier.
pub open spec fn row(kind: IdKind, module_id: Seq<char>, local_id: Seq<char>, global_id: Seq<char>) -> Seq<
    char,
> {
    seq![kind.letter()] + ","@ + module_id + ","@ + local_id + ","@ + global_id + "\n"@
}

/// Why a text could not be imported.
#[allow(inconsistent_fields)]
pub enum ImportFailure {
    /// A row does not fit the grammar.
    Parse { kind: ErrorKind, line_num: nat },
    /// A row gives a local name that its module holds already.
    Duplicate { kind: IdKind, module_id: Seq<char>, local_id: Seq<char> },
}

/// The map that an import leaves, and why the import failed, if it did.
pub struct ImportOutcome {
    pub map: CssMapView,
    pub failure: Option<ImportFailure>,
}

pub struct CssMapView {
    pub modules: Seq<CssMapModuleView>,
    pub classes: IdSetView,
    pub vars: IdSetView,
    pub keyframes: IdSetView,
    /// The rows of the identifiers made since the last flush.
    pub new_ids: Seq<char>,
}

impl CssMapView {
    /// The generator of one kind.
    pub open spec fn id_set(self, kind: IdKind) -> IdSetView {
        match kind {
            IdKind::Class => self.classes,
            IdKind::Var => self.vars,
            IdKind::Keyframes => self.keyframes,
        }
    }

    /// The map with another generator of one kind.
    pub open spec fn with_id_set(self, kind: IdKind, set: IdSetView) -> CssMapView {
        match kind {
            IdKind::Class => CssMapView { classes: set, ..self },
            IdKind::Var => CssMapView { vars: set, ..self },
            IdKind::Keyframes => CssMapView { keyframes: set, ..self },
        }
    }

    /// The map with a module called `name`: itself where it has one, else
    /// with a new module at the end.
    pub open spec fn with_module(self, name: Seq<char>) -> CssMapView {
        if module_position(self.modules, name) is Some {
            self
        } else {
            CssMapView {
                modules: self.modules.push(
                    CssMapModuleView::fresh(name, self.modules.len() as u32),
                ),
                ..self
            }
        }
    }

    /// The identifier that module `m` holds for a local name.
    pub open spec fn lookup(self, m: int, kind: IdKind, local_id: Seq<char>) -> Option<IdView> {
        find(self.modules[m].table(kind), local_id)
    }

    /// The map with one more identifier at the end of a table of module `m`.
    pub open spec fn with_entry(self, m: int, id: IdView) -> CssMapView {
        CssMapView {
            modules: self.modules.update(
                m,
                self.modules[m].with_table(
                    id.kind,
                    self.modules[m].table(id.kind).push((id.local_id, id)),
                ),
            ),
            ..self
        }
    }

    /// The map after candidate `j` was made the identifier of a local name
    /// of module `m`: the module holds it, the generator stands behind it,
    /// and its row waits to be written.
    pub open spec fn minted(self, m: int, kind: IdKind, local_id: Seq<char>, j: nat) -> CssMapView {
        let id = IdView { kind, module_index: m as u32, local_id, global_id: next_for(j) };
        let set = IdSetView { index: j + 1, ..self.id_set(kind) };
        CssMapView {
            new_ids: self.new_ids + row(kind, self.modules[m].id, local_id, next_for(j)),
            ..self.with_entry(m, id).with_id_set(kind, set)
        }
    }

    /// The map after module `m` was asked for the identifier of a local
    /// name: as before where the module holds the name; else with a new
    /// identifier, or with a generator that has run out.
    pub open spec fn after_get_id(self, m: int, kind: IdKind, local_id: Seq<char>) -> CssMapView {
        if self.lookup(m, kind, local_id) is Some {
            self
        } else {
            match self.id_set(kind).next() {
                Some(j) => self.minted(m, kind, local_id, j),
                None => self.with_id_set(
                    kind,
                    IdSetView { index: u64::MAX as nat, ..self.id_set(kind) },
                ),
            }
        }
    }

    /// The identifier that module `m` gives for a local name: the one it
    /// holds, else a new one, or none where the generator has run out.
    pub open spec fn got_id(self, m: int, kind: IdKind, local_id: Seq<char>) -> Option<IdView> {
        match self.lookup(m, kind, local_id) {
            Some(id) => Some(id),
            None => match self.id_set(kind).next() {
                Some(j) => Some(
                    IdView { kind, module_index: m as u32, local_id, global_id: next_for(j) },
                ),
                None => None,
            },
        }
    }

    /// The map after a row was taken in: its module holds the identifier,
    /// and the generator of the kind knows the global identifier.
    pub open spec fn imported(
        self,
        kind: IdKind,
        module_id: Seq<char>,
        local_id: Seq<char>,
        global_id: Seq<char>,
    ) -> CssMapView {
        let with = self.with_module(module_id);
        let m = module_position(with.modules, module_id)->0;
        let id = IdView { kind, module_index: m as u32, local_id, global_id };
        let set = IdSetView { seen: self.id_set(kind).seen.insert(global_id), ..self.id_set(kind) };
        with.with_entry(m, id).with_id_set(kind, set)
    }

    /// The outcome of taking in the rows of `text` one after the other from
    /// place `p` on, where the row at `p` stands in line `line_num`. The run
    /// stops at the first row that does not fit the grammar or that gives a
    /// local name again; `map` is then what the run had made of the map up
    /// to there.
    pub open spec fn import_from(self, text: Seq<char>, p: int, line_num: nat) -> ImportOutcome
        decreases text.len() - p,
    {
        match scan_row(text, p) {
            RowScan::End => ImportOutcome { map: self, failure: None },
            RowScan::Fail { kind, next } => ImportOutcome {
                map: self,
                failure: Some(ImportFailure::Parse { kind, line_num }),
            },
            RowScan::Row { kind, module_id, local_id, global_id, next } => {
                let with = self.with_module(module_id);
                let m = module_position(with.modules, module_id)->0;
                if with.lookup(m, kind, local_id) is Some {
                    ImportOutcome {
                        map: with,
                        failure: Some(ImportFailure::Duplicate { kind, module_id, local_id }),
                    }
                } else if p < next <= text.len() {
                    self.imported(kind, module_id, local_id, global_id).import_from(
                        text,
                        next,
                        line_num + 1,
                    )
                } else {
                    ImportOutcome { map: self, failure: None }
                }
            },
        }
    }

    /// The outcome of importing `text`: all of its rows are taken in, or,
    /// where one of them fails, none is and the map stays as it is.
    pub open spec fn import(self, text: Seq<char>) -> ImportOutcome {
        let run = self.import_from(text, 0, 1);
        ImportOutcome {
            map: if run.failure is Some {
                self
            } else {
                run.map
            },
            failure: run.failure,
        }
    }

    /// Whether each identifier stands under its own local name, in the
    /// table of its kind, in the module that it names.
    pub open spec fn entries_own(self) -> bool {
        forall|m: int, kind: IdKind, i: int|
            0 <= m < self.modules.len() && 0 <= i < self.modules[m].table(kind).len() ==> {
                let e = #[trigger] self.modules[m].table(kind)[i];
                &&& e.0 == e.1.local_id
                &&& e.1.kind == kind
                &&& e.1.module_index == m
            }
    }

    /// Whether the generator of each kind knows every global identifier of
    /// that kind: it was registered, or the counter has passed it.
    pub open spec fn globals_known(self) -> bool {
        forall|m: int, kind: IdKind, i: int|
            0 <= m < self.modules.len() && 0 <= i < self.modules[m].table(kind).len() ==> {
                let g = (#[trigger] self.modules[m].table(kind)[i]).1.global_id;
                self.id_set(kind).seen.contains(g) || self.id_set(kind).is_spent(g)
            }
    }

    /// Whether `global_id` is the identifier of some name of `kind`.
    pub open spec fn has_global(self, kind: IdKind, global_id: Seq<char>) -> bool {
        exists|m: int, i: int|
            0 <= m < self.modules.len() && 0 <= i < self.modules[m].table(kind).len() && (
            #[trigger] self.modules[m].table(kind)[i]).1.global_id == global_id
    }

    /// Whether no two names of `kind` have the same global identifier.
    pub open spec fn globals_unique(self, kind: IdKind) -> bool {
        forall|m1: int, i1: int, m2: int, i2: int|
            0 <= m1 < self.modules.len() && 0 <= i1 < self.modules[m1].table(kind).len() && 0 <= m2
                < self.modules.len() && 0 <= i2 < self.modules[m2].table(kind).len() && (m1 != m2
                || i1 != i2) ==> (#[trigger] self.modules[m1].table(kind)[i1]).1.global_id != (
            #[trigger] self.modules[m2].table(kind)[i2]).1.global_id
    }
}

/// The texts of a list of strings.
pub open spec fn texts(v: Seq<String>) -> Seq<Seq<char>> {
    v.map_values(|s: String| s@)
}

/// Whether each pattern compiles.
pub open spec fn all_compile(patterns: Seq<Seq<char>>) -> bool {
    forall|i: int| 0 <= i < patterns.len() ==> pattern_language(#[trigger] patterns[i]) is Some
}

/// The language of each pattern.
pub open spec fn pattern_languages(patterns: Seq<Seq<char>>) -> Seq<Set<Seq<char>>> {
    patterns.map_values(|p: Seq<char>| pattern_language(p)->0)
}

/// What becomes of the outcome of compiling an exclusion rule: the compiled
/// rule, or the error that says that the rule is not valid.
pub fn exclude_rule(compiled: Result<Regex, regex::Error>) -> (r: Result<Regex, CssMapError>)
    ensures
        match compiled {
            Ok(rule) => r == Ok::<Regex, CssMapError>(rule),
            Err(err) => r == Err::<Regex, CssMapError>(CssMapError::InvalidExcludeRule(err)),
        },
{
    match compiled {
        Ok(rule) => Ok(rule),
        Err(err) => Err(CssMapError::InvalidExcludeRule(err)),
    }
}

/// Builds a vector of [Regex] objects from a vector of regex strings.
pub fn build_exclude(exclude: &Vec<String>) -> (r: Result<Vec<Regex>, CssMapError>)
    ensures
        match r {
            Ok(rules) => all_compile(texts(exclude@)) && languages(rules@) == pattern_languages(
                texts(exclude@),
            ),
            Err(e) => !all_compile(texts(exclude@)) && e is InvalidExcludeRule,
        },
{
    let mut result: Vec<Regex> = Vec::with_capacity(exclude.len());
    let mut k: usize = 0;
    while k < exclude.len()
        invariant
            k <= exclude.len(),
            result.len() == k,
            forall|i: int|
                0 <= i < k ==> pattern_language(#[trigger] texts(exclude@)[i]) == Some(
                    languages(result@)[i],
                ),
        decreases exclude.len() - k,
    {
        let r = match exclude_rule(Regex::new(exclude[k].as_str())) {
            Ok(r) => r,
            Err(err) => {
                assert(pattern_language(texts(exclude@)[k as int]) is None);
                return Err(err);
            },
        };
        result.push(r);
        k += 1;
    }
    assert(languages(result@) =~= pattern_languages(texts(exclude@)));
    Ok(result)
}

/// Whether `index` says of each module where it stands, and of nothing
/// else.
pub open spec fn registry_wf(index: Map<Seq<char>, u32>, modules: Seq<CssMapModule>) -> bool {
    &&& modules.len() <= u32::MAX
    &&& forall|i: int|
        0 <= i < modules.len() ==> {
            &&& index.contains_key((#[trigger] modules[i]).id@)
            &&& index[modules[i].id@] == i
            &&& modules[i].index == i
            &&& modules[i].wf()
        }
    &&& forall|k: Seq<char>| #[trigger]
        index.contains_key(k) ==> index[k] < modules.len() && modules[index[k] as int].id@ == k
}

/// The views of a list of modules.
pub open spec fn module_views(modules: Seq<CssMapModule>) -> Seq<CssMapModuleView> {
    modules.map_values(|m: CssMapModule| m@)
}

proof fn lemma_registry_position(
    index: Map<Seq<char>, u32>,
    modules: Seq<CssMapModule>,
    name: Seq<char>,
)
    requires
        registry_wf(index, modules),
    ensures
        match module_position(module_views(modules), name) {
            Some(i) => index.contains_key(name) && index[name] == i && 0 <= i < modules.len(),
            None => !index.contains_key(name),
        },
{
    let views = module_views(modules);
    if index.contains_key(name) {
        let i = index[name] as int;
        assert forall|a: int, b: int|
            0 <= a < views.len() && 0 <= b < views.len() && a != b implies (#[trigger] views[a]).id
            != (#[trigger] views[b]).id by {
            assert(index[modules[a].id@] == a);
            assert(index[modules[b].id@] == b);
        }
        assert(views[i].id == name);
        lemma_module_position_some(views, i);
    } else {
        assert forall|i: int| 0 <= i < views.len() implies (#[trigger] views[i]).id != name by {
            assert(index.contains_key(modules[i].id@));
        }
        lemma_module_position_none(views, name);
    }
}

/// Returns module index if the module exists, otherwise creates a new one and
/// returns its index,
fn get_module_index(
    modules_index: &mut StringHashMap<u32>,
    modules: &mut Vec<CssMapModule>,
    module_name: &str,
) -> (i: u32)
    requires
        registry_wf(old(modules_index)@, old(modules)@),
        module_position(module_views(old(modules)@), module_name@) is None ==> old(modules).len()
            < u32::MAX,
    ensures
        registry_wf(final(modules_index)@, final(modules)@),
        module_position(module_views(final(modules)@), module_name@) == Some(i as int),
        match module_position(module_views(old(modules)@), module_name@) {
            Some(_) => final(modules)@ == old(modules)@,
            None => {
                &&& final(modules)@.len() == old(modules)@.len() + 1
                &&& final(modules)@.drop_last() == old(modules)@
                &&& final(modules)@.last()@ == CssMapModuleView::fresh(module_name@, i)
                &&& i == old(modules)@.len()
            },
        },
{
    proof {
        lemma_registry_position(modules_index@, modules@, module_name@);
    }
    if let Some(module_id) = modules_index.get(module_name) {
        *module_id
    } else {
        let module_id = modules.len() as u32;
        modules_index.insert(String::from_str(module_name), module_id);
        modules.push(CssMapModule::new(String::from_str(module_name), module_id));
        proof {
            assert(modules@.drop_last() =~= old(modules)@);
            assert forall|i: int| 0 <= i < modules@.len() implies {
                &&& modules_index@.contains_key((#[trigger] modules@[i]).id@)
                &&& modules_index@[modules@[i].id@] == i
                &&& modules@[i].index == i
                &&& modules@[i].wf()
            } by {
                if i < old(modules)@.len() {
                    assert(modules@[i] == old(modules)@[i]);
                }
            }
            lemma_registry_position(modules_index@, modules@, module_name@);
        }
        module_id
    }
}

/// [CssMap] is used to create unique identifiers for class names, variables
/// and keyframes.
pub struct CssMap {
    index: StringHashMap<u32>,
    modules: Vec<CssMapModule>,
    classes: IdSet,
    vars: IdSet,
    keyframes: IdSet,
    new_ids_buf: String,
}

impl View for CssMap {
    type V = CssMapView;

    closed spec fn view(&self) -> CssMapView {
        CssMapView {
            modules: module_views(self.modules@),
            classes: self.classes@,
            vars: self.vars@,
            keyframes: self.keyframes@,
            new_ids: self.new_ids_buf@,
        }
    }
}

impl CssMap {
    /// Whether the map is in order: the modules are registered under their
    /// names, each identifier stands where it belongs, and the generators
    /// know the global identifiers.
    pub closed spec fn wf(&self) -> bool {
        &&& registry_wf(self.index@, self.modules@)
        &&& self@.entries_own()
        &&& self@.globals_known()
    }

    /// What `wf` says of the view.
    pub proof fn lemma_wf(&self)
        requires
            self.wf(),
        ensures
            self@.modules.len() <= u32::MAX,
            self@.entries_own(),
            self@.globals_known(),
            forall|i: int| 0 <= i < self@.modules.len() ==> (#[trigger] self@.modules[i]).index == i,
            forall|i: int| 0 <= i < self@.modules.len() ==> module_position(
                self@.modules,
                (#[trigger] self@.modules[i]).id,
            ) == Some(i),
    {
        assert forall|i: int| 0 <= i < self@.modules.len() implies module_position(
            self@.modules,
            (#[trigger] self@.modules[i]).id,
        ) == Some(i) by {
            lemma_registry_position(self.index@, self.modules@, self.modules@[i].id@);
        }
    }

    /// Within one module, no two names of a kind are the same.
    pub proof fn lemma_locals_unique(&self, m: int, kind: IdKind)
        requires
            self.wf(),
            0 <= m < self@.modules.len(),
        ensures
            distinct_keys(self@.modules[m].table(kind)),
    {
        let module = self.modules@[m];
        assert(module.wf());
        match kind {
            IdKind::Class => module.classes.lemma_distinct(),
            IdKind::Var => module.vars.lemma_distinct(),
            IdKind::Keyframes => module.keyframes.lemma_distinct(),
        }
    }

    pub fn new(
        exclude_class: &Vec<String>,
        exclude_var: &Vec<String>,
        exclude_keyframes: &Vec<String>,
    ) -> (r: Result<Self, CssMapError>)
        ensures
            r is Ok <==> all_compile(texts(exclude_class@)) && all_compile(texts(exclude_var@))
                && all_compile(texts(exclude_keyframes@)),
            match r {
                Ok(map) => {
                    &&& map.wf()
                    &&& map@ == (CssMapView {
                        modules: Seq::empty(),
                        classes: IdSetView {
                            index: 0,
                            exclude: pattern_languages(texts(exclude_class@)),
                            seen: Set::empty(),
                        },
                        vars: IdSetView {
                            index: 0,
                            exclude: pattern_languages(texts(exclude_var@)),
                            seen: Set::empty(),
                        },
                        keyframes: IdSetView {
                            index: 0,
                            exclude: pattern_languages(texts(exclude_keyframes@)),
                            seen: Set::empty(),
                        },
                        new_ids: Seq::empty(),
                    })
                },
                Err(e) => e is InvalidExcludeRule,
            },
    {
        let classes = match build_exclude(exclude_class) {
            Ok(rules) => IdSet::new(0, rules),
            Err(e) => {
                return Err(e);
            },
        };
        let vars = match build_exclude(exclude_var) {
            Ok(rules) => IdSet::new(0, rules),
            Err(e) => {
                return Err(e);
            },
        };
        let keyframes = match build_exclude(exclude_keyframes) {
            Ok(rules) => IdSet::new(0, rules),
            Err(e) => {
                return Err(e);
            },
        };
        let map = Self {
            index: StringHashMap::new(),
            modules: Vec::new(),
            classes,
            vars,
            keyframes,
            new_ids_buf: String::new(),
        };
        assert(map@.modules =~= Seq::empty());
        Ok(map)
    }

    /// The modules, each at its index.
    pub fn modules(&self) -> (modules: &Vec<CssMapModule>)
        ensures
            module_views(modules@) == self@.modules,
            self.wf() ==> forall|i: int| 0 <= i < modules@.len() ==> (#[trigger] modules@[i]).wf(),
    {
        &self.modules
    }

    /// Returns module index if the module exists, otherwise creates a new one
    /// and returns its index.
    pub fn get_module_index(&mut self, module_name: &str) -> (i: u32)
        requires
            old(self).wf(),
            module_position(old(self)@.modules, module_name@) is None ==> old(self)@.modules.len()
                < u32::MAX,
        ensures
            final(self).wf(),
            final(self)@ == old(self)@.with_module(module_name@),
            module_position(final(self)@.modules, module_name@) == Some(i as int),
            i < final(self)@.modules.len(),
    {
        let i = get_module_index(&mut self.index, &mut self.modules, module_name);
        proof {
            lemma_module_position_is_module(module_views(self.modules@), module_name@);
            let before = old(self)@;
            let after = self@;
            if module_position(before.modules, module_name@) is None {
                assert(after.modules =~= before.modules.push(
                    CssMapModuleView::fresh(module_name@, before.modules.len() as u32),
                ));
                assert forall|m: int, kind: IdKind, k: int|
                    0 <= m < after.modules.len() && 0 <= k < after.modules[m].table(
                        kind,
                    ).len() implies {
                    let e = #[trigger] after.modules[m].table(kind)[k];
                    &&& e.0 == e.1.local_id
                    &&& e.1.kind == kind
                    &&& e.1.module_index == m
                    &&& (after.id_set(kind).seen.contains(e.1.global_id) || after.id_set(
                        kind,
                    ).is_spent(e.1.global_id))
                } by {
                    assert(m < before.modules.len());
                    assert(after.modules[m] == before.modules[m]);
                    let e = before.modules[m].table(kind)[k];
                }
            } else {
                assert(after.modules =~= before.modules);
            }
        }
        i
    }

    /// Puts `id` at the end of the table of its kind in module `mi`.
    fn put(&mut self, mi: usize, id: Id)
        requires
            registry_wf(old(self).index@, old(self).modules@),
            mi < old(self).modules@.len(),
            old(self)@.lookup(mi as int, id.kind, id.local_id@) is None,
        ensures
            registry_wf(final(self).index@, final(self).modules@),
            final(self)@ == old(self)@.with_entry(mi as int, id@),
    {
        let key = id.local_id.clone();
        let ghost entry = (key@, id@);
        let ghost kind = id.kind;
        match id.kind {
            IdKind::Class => self.modules[mi].classes.insert(key, id),
            IdKind::Var => self.modules[mi].vars.insert(key, id),
            IdKind::Keyframes => self.modules[mi].keyframes.insert(key, id),
        }
        proof {
            assert(self.modules@[mi as int]@ == old(self).modules@[mi as int]@.with_table(
                kind,
                old(self).modules@[mi as int]@.table(kind).push(entry),
            ));
            assert(self@.modules =~= old(self)@.with_entry(mi as int, entry.1).modules);
        }
    }

    /// Returns [Id] if it exists or creates a new one. `None` says that the
    /// generator of the kind has no identifier left to give.
    pub fn get_id(&mut self, module_index: u32, id_kind: IdKind, local_id: &str) -> (r: Option<Id>)
        requires
            old(self).wf(),
            module_index < old(self)@.modules.len(),
        ensures
            final(self).wf(),
            final(self)@ == old(self)@.after_get_id(module_index as int, id_kind, local_id@),
            match old(self)@.got_id(module_index as int, id_kind, local_id@) {
                Some(id) => r matches Some(got) && got@ == id,
                None => r is None,
            },
            r matches Some(got) ==> got@.module_index == module_index,
            final(self)@.modules.len() == old(self)@.modules.len(),
    {
        let mi = module_index as usize;
        if let Some(id) = self.modules[mi].table(id_kind).get(local_id) {
            proof {
                lemma_find_is_entry(self@.modules[mi as int].table(id_kind), local_id@);
            }
            return Some(id.duplicate());
        }
        let minted = match id_kind {
            IdKind::Class => self.classes.next_id(),
            IdKind::Var => self.vars.next_id(),
            IdKind::Keyframes => self.keyframes.next_id(),
        };
        match minted {
            None => {
                proof {
                    assert(self@ == old(self)@.with_id_set(
                        id_kind,
                        IdSetView { index: u64::MAX as nat, ..old(self)@.id_set(id_kind) },
                    ));
                    old(self).classes.lemma_index_bound();
                    old(self).vars.lemma_index_bound();
                    old(self).keyframes.lemma_index_bound();
                    lemma_known_after_advance(old(self)@, id_kind, u64::MAX as nat);
                }
                None
            },
            Some(global_id) => {
                let ghost j = old(self)@.id_set(id_kind).next()->0;
                let mut row_text = String::new();
                row_text.push(id_kind.to_letter());
                row_text.push(',');
                row_text.append(self.modules[mi].id.as_str());
                row_text.push(',');
                row_text.append(local_id);
                row_text.push(',');
                row_text.append(global_id.as_str());
                row_text.push('\n');
                proof {
                    reveal_strlit(",");
                    reveal_strlit("\n");
                    assert(row_text@ =~= row(
                        id_kind,
                        self.modules@[mi as int].id@,
                        local_id@,
                        global_id@,
                    ));
                }
                self.new_ids_buf.append(row_text.as_str());
                let id = Id::new(id_kind, module_index, String::from_str(local_id), global_id);
                let copy = id.duplicate();
                self.put(mi, id);
                proof {
                    let expected = old(self)@.minted(module_index as int, id_kind, local_id@, j);
                    assert(self@.modules =~= expected.modules);
                    assert(self@ == expected);
                    lemma_minted_wf(old(self)@, module_index as int, id_kind, local_id@, j);
                }
                Some(copy)
            },
        }
    }

    /// The rows of the identifiers made since the last flush, in the order
    /// in which they were made.
    pub fn new_ids(&self) -> (rows: &str)
        ensures
            rows@ == self@.new_ids,
    {
        self.new_ids_buf.as_str()
    }

    /// Ends a flush. The caller has tried to write `new_ids()` out, and says
    /// whether all of it was written: only then are the rows let go.
    pub fn flush_new_ids(&mut self, delivered: bool)
        requires
            old(self).wf(),
        ensures
            final(self).wf(),
            final(self)@ == (CssMapView {
                new_ids: if delivered {
                    Seq::empty()
                } else {
                    old(self)@.new_ids
                },
                ..old(self)@
            }),
    {
        if delivered {
            self.new_ids_buf = String::new();
        }
    }

    /// The place of the module called `name`, if the map has one.
    fn find_module(&self, name: &str) -> (r: Option<usize>)
        requires
            self.wf(),
        ensures
            match module_position(self@.modules, name@) {
                Some(i) => r == Some(i as usize) && 0 <= i < self.modules@.len(),
                None => r is None,
            },
    {
        proof {
            lemma_registry_position(self.index@, self.modules@, name@);
        }
        match self.index.get(name) {
            Some(i) => Some(*i as usize),
            None => None,
        }
    }

    /// Says whether the rows of `contents` can be taken in one after the
    /// other, and why not. The map is only read: a name counts as held
    /// where the map holds it or a row before has given it.
    fn check_import(&self, contents: &str) -> (r: Result<(), CssMapError>)
        requires
            self.wf(),
        ensures
            match self@.import_from(contents@, 0, 1).failure {
                None => r is Ok,
                Some(ImportFailure::Parse { kind, line_num }) => {
                    &&& r matches Err(CssMapError::ParserError(e))
                    &&& e.kind == kind
                    &&& e.line_num == line_num
                },
                Some(ImportFailure::Duplicate { kind, module_id, local_id }) => {
                    &&& r matches Err(CssMapError::DuplicateEntry(k, m, l))
                    &&& k == kind
                    &&& m@ == module_id
                    &&& l@ == local_id
                },
            },
    {
        let mut parser = Parser::new(contents);
        let mut names = StringHashSet::new();
        let mut module_name = String::new();
        let mut module_at: Option<usize> = None;
        let ghost text = contents@;
        let ghost mut run = self@;
        loop
            invariant
                parser.wf(),
                self.wf(),
                parser@.text == text,
                text == contents@,
                self@.import_from(text, 0, 1).failure == run.import_from(
                    text,
                    parser@.pos,
                    parser@.line_num,
                ).failure,
                module_name@ == parser@.prev_module_id,
                parser@.prev_module_id.len() > 0 ==> match module_position(
                    self@.modules,
                    module_name@,
                ) {
                    Some(i) => module_at == Some(i as usize) && 0 <= i < self.modules@.len(),
                    None => module_at is None,
                },
                forall|q: Row|
                    Field::Module.accepts(q.module_id) ==> ((#[trigger] held(run, q)) is Some
                        <==> held(self@, q) is Some || names@.contains(
                        name_key(q.kind, q.module_id, q.local_id),
                    )),
            decreases text.len() - parser@.pos,
        {
            let ghost p = parser@.pos;
            proof {
                parser.lemma_wf();
                lemma_scan_row(text, p);
            }
            let next = match parser.next_id() {
                Err(e) => {
                    return Err(CssMapError::ParserError(e));
                },
                Ok(next) => next,
            };
            let (kind, module_id, local_id, global_id) = match next {
                None => {
                    return Ok(());
                },
                Some(found) => found,
            };
            if let Some(name) = module_id {
                module_at = self.find_module(name.as_str());
                module_name = name;
            }
            let ghost r = Row {
                kind,
                module_id: module_name@,
                local_id: local_id@,
                global_id: global_id@,
            };
            let held_before = match module_at {
                Some(i) => self.modules[i].table(kind).get(local_id.as_str()).is_some(),
                None => false,
            };
            let ghost before = names@;
            let fresh = names.insert(name_key_of(kind, module_name.as_str(), local_id.as_str()));
            proof {
                assert(held_before == (held(self@, r) is Some));
                lemma_duplicate_is_held(run, r);
            }
            if held_before || !fresh {
                return Err(CssMapError::DuplicateEntry(kind, module_name, local_id));
            }
            proof {
                assert(held(run, r) is None);
                assert forall|q: Row| Field::Module.accepts(q.module_id) implies ((#[trigger] held(
                    with_row(run, r),
                    q,
                )) is Some <==> held(self@, q) is Some || names@.contains(
                    name_key(q.kind, q.module_id, q.local_id),
                )) by {
                    lemma_with_row_holds(run, r, q);
                    if name_key(q.kind, q.module_id, q.local_id) == name_key(
                        r.kind,
                        r.module_id,
                        r.local_id,
                    ) {
                        lemma_name_key_injective(
                            q.kind,
                            q.module_id,
                            q.local_id,
                            r.kind,
                            r.module_id,
                            r.local_id,
                        );
                    }
                    assert(held(run, q) is Some <==> held(self@, q) is Some || before.contains(
                        name_key(q.kind, q.module_id, q.local_id),
                    ));
                }
                run = with_row(run, r);
            }
        }
    }

    /// Imports the rows of a persistent map: all of them, or, where one of
    /// them does not fit the grammar or gives a local name again, none.
    pub fn import(&mut self, contents: &str) -> (r: Result<(), CssMapError>)
        requires
            old(self).wf(),
            old(self)@.modules.len() + contents@.len() <= u32::MAX,
        ensures
            final(self).wf(),
            final(self)@ == old(self)@.import(contents@).map,
            r is Err ==> final(self)@ == old(self)@,
            r is Err <==> old(self)@.import(contents@).failure is Some,
            match old(self)@.import(contents@).failure {
                None => r is Ok,
                Some(ImportFailure::Parse { kind, line_num }) => {
                    &&& r matches Err(CssMapError::ParserError(e))
                    &&& e.kind == kind
                    &&& e.line_num == line_num
                },
                Some(ImportFailure::Duplicate { kind, module_id, local_id }) => {
                    &&& r matches Err(CssMapError::DuplicateEntry(k, m, l))
                    &&& k == kind
                    &&& m@ == module_id
                    &&& l@ == local_id
                },
            },
    {
        match self.check_import(contents) {
            Err(e) => Err(e),
            Ok(()) => self.take_in(contents),
        }
    }

    /// Takes in the rows of `contents` one after the other, up to the first
    /// that fails.
    fn take_in(&mut self, contents: &str) -> (r: Result<(), CssMapError>)
        requires
            old(self).wf(),
            old(self)@.modules.len() + contents@.len() <= u32::MAX,
        ensures
            final(self).wf(),
            final(self)@ == old(self)@.import_from(contents@, 0, 1).map,
            match old(self)@.import_from(contents@, 0, 1).failure {
                None => r is Ok,
                Some(ImportFailure::Parse { kind, line_num }) => {
                    &&& r matches Err(CssMapError::ParserError(e))
                    &&& e.kind == kind
                    &&& e.line_num == line_num
                },
                Some(ImportFailure::Duplicate { kind, module_id, local_id }) => {
                    &&& r matches Err(CssMapError::DuplicateEntry(k, m, l))
                    &&& k == kind
                    &&& m@ == module_id
                    &&& l@ == local_id
                },
            },
    {
        let mut parser = Parser::new(contents);
        let mut module_index: u32 = 0;
        let ghost text = contents@;
        loop
            invariant
                parser.wf(),
                self.wf(),
                parser@.text == text,
                text == contents@,
                self@.modules.len() + (text.len() - parser@.pos) <= u32::MAX,
                old(self)@.import_from(text, 0, 1) == self@.import_from(
                    text,
                    parser@.pos,
                    parser@.line_num,
                ),
                parser@.prev_module_id.len() > 0 ==> module_position(
                    self@.modules,
                    parser@.prev_module_id,
                ) == Some(module_index as int),
            decreases text.len() - parser@.pos,
        {
            let ghost before = self@;
            let ghost p = parser@.pos;
            proof {
                parser.lemma_wf();
                lemma_scan_row(text, p);
            }
            let next = match parser.next_id() {
                Err(e) => {
                    return Err(CssMapError::ParserError(e));
                },
                Ok(next) => next,
            };
            let (kind, module_id, local_id, global_id) = match next {
                None => {
                    return Ok(());
                },
                Some(found) => found,
            };
            if let Some(module_id) = module_id {
                module_index = self.get_module_index(module_id.as_str());
            }
            proof {
                self.lemma_wf();
                lemma_module_position_is_module(self@.modules, parser@.prev_module_id);
                assert(self@ == before.with_module(parser@.prev_module_id));
            }
            let mi = module_index as usize;
            if self.modules[mi].table(kind).get(local_id.as_str()).is_some() {
                return Err(
                    CssMapError::DuplicateEntry(kind, self.modules[mi].id.clone(), local_id),
                );
            }
            match kind {
                IdKind::Class => self.classes.add(global_id.as_str()),
                IdKind::Var => self.vars.add(global_id.as_str()),
                IdKind::Keyframes => self.keyframes.add(global_id.as_str()),
            }
            let id = Id::new(kind, module_index, local_id, global_id);
            self.put(mi, id);
            proof {
                let expected = before.imported(kind, parser@.prev_module_id, id.local_id@, id.global_id@);
                assert(self@.modules =~= expected.modules);
                assert(self@ == expected);
                lemma_imported_wf(before, kind, parser@.prev_module_id, id.local_id@, id.global_id@);
                lemma_module_position_names(
                    before.with_module(parser@.prev_module_id).modules,
                    self@.modules,
                    parser@.prev_module_id,
                );
            }
        }
    }
}

/// The generator still knows every global identifier after its counter has
/// moved on.
pub proof fn lemma_known_after_advance(map: CssMapView, kind: IdKind, index: nat)
    requires
        map.globals_known(),
        map.entries_own(),
        map.id_set(kind).index <= index,
    ensures
        map.with_id_set(kind, IdSetView { index, ..map.id_set(kind) }).globals_known(),
        map.with_id_set(kind, IdSetView { index, ..map.id_set(kind) }).entries_own(),
{
    let after = map.with_id_set(kind, IdSetView { index, ..map.id_set(kind) });
    assert forall|m: int, k: IdKind, i: int|
        0 <= m < after.modules.len() && 0 <= i < after.modules[m].table(k).len() implies {
        let g = (#[trigger] after.modules[m].table(k)[i]).1.global_id;
        after.id_set(k).seen.contains(g) || after.id_set(k).is_spent(g)
    } by {
        let g = map.modules[m].table(k)[i].1.global_id;
        if k == kind && map.id_set(k).is_spent(g) {
            let w = choose|w: nat| w < map.id_set(k).index && #[trigger] next_for(w) == g;
            assert(w < after.id_set(k).index && next_for(w) == g);
        }
    }
}

/// Making an identifier keeps the map in order.
pub proof fn lemma_minted_wf(map: CssMapView, m: int, kind: IdKind, local_id: Seq<char>, j: nat)
    requires
        map.entries_own(),
        map.globals_known(),
        0 <= m < map.modules.len() <= u32::MAX,
        map.id_set(kind).index <= j,
    ensures
        map.minted(m, kind, local_id, j).entries_own(),
        map.minted(m, kind, local_id, j).globals_known(),
{
    let after = map.minted(m, kind, local_id, j);
    assert forall|n: int, k: IdKind, i: int|
        0 <= n < after.modules.len() && 0 <= i < after.modules[n].table(k).len() implies {
        let e = #[trigger] after.modules[n].table(k)[i];
        &&& e.0 == e.1.local_id
        &&& e.1.kind == k
        &&& e.1.module_index == n
        &&& (after.id_set(k).seen.contains(e.1.global_id) || after.id_set(k).is_spent(
            e.1.global_id,
        ))
    } by {
        if n == m && k == kind && i == map.modules[m].table(kind).len() {
            assert(j < after.id_set(k).index && next_for(j) == next_for(j));
        } else {
            let e = map.modules[n].table(k)[i];
            assert(after.modules[n].table(k)[i] == e);
            if k == kind && map.id_set(k).is_spent(e.1.global_id) {
                let w = choose|w: nat|
                    w < map.id_set(k).index && #[trigger] next_for(w) == e.1.global_id;
                assert(w < after.id_set(k).index && next_for(w) == e.1.global_id);
            }
        }
    }
}

/// Taking a row in keeps the map in order.
pub proof fn lemma_imported_wf(
    map: CssMapView,
    kind: IdKind,
    module_id: Seq<char>,
    local_id: Seq<char>,
    global_id: Seq<char>,
)
    requires
        map.entries_own(),
        map.globals_known(),
        map.modules.len() < u32::MAX,
    ensures
        map.imported(kind, module_id, local_id, global_id).entries_own(),
        map.imported(kind, module_id, local_id, global_id).globals_known(),
{
    let with = map.with_module(module_id);
    let after = map.imported(kind, module_id, local_id, global_id);
    if module_position(map.modules, module_id) is Some {
        lemma_module_position_is_module(map.modules, module_id);
    } else {
        lemma_module_position_none_push(map.modules, module_id);
    }
    let m = module_position(with.modules, module_id)->0;
    assert forall|n: int, k: IdKind, i: int|
        0 <= n < after.modules.len() && 0 <= i < after.modules[n].table(k).len() implies {
        let e = #[trigger] after.modules[n].table(k)[i];
        &&& e.0 == e.1.local_id
        &&& e.1.kind == k
        &&& e.1.module_index == n
        &&& (after.id_set(k).seen.contains(e.1.global_id) || after.id_set(k).is_spent(
            e.1.global_id,
        ))
    } by {
        if n == m && k == kind && i == with.modules[m].table(kind).len() {
        } else {
            assert(n < map.modules.len());
            let e = map.modules[n].table(k)[i];
            assert(after.modules[n].table(k)[i] == e);
        }
    }
}

/// Where a module is found depends on the names of the modules alone.
pub proof fn lemma_module_position_names(
    a: Seq<CssMapModuleView>,
    b: Seq<CssMapModuleView>,
    name: Seq<char>,
)
    requires
        a.len() == b.len(),
        forall|i: int| 0 <= i < a.len() ==> (#[trigger] a[i]).id == b[i].id,
    ensures
        module_position(a, name) == module_position(b, name),
    decreases a.len(),
{
    if a.len() > 0 {
        assert(a.last().id == b[a.len() - 1].id);
        assert forall|i: int| 0 <= i < a.drop_last().len() implies (#[trigger] a.drop_last()[i]).id
            == b.drop_last()[i].id by {
            assert(a[i].id == b[i].id);
        }
        lemma_module_position_names(a.drop_last(), b.drop_last(), name);
    }
}

/// The identifier that is made for a name is not the identifier of any name
/// of its kind that the map holds.
pub proof fn lemma_minted_is_new(map: CssMapView, kind: IdKind, j: nat)
    requires
        map.globals_known(),
        map.id_set(kind).first_free(j),
    ensures
        !map.has_global(kind, next_for(j)),
{
    if map.has_global(kind, next_for(j)) {
        let (m, i) = choose|m: int, i: int|
            0 <= m < map.modules.len() && 0 <= i < map.modules[m].table(kind).len() && (
            #[trigger] map.modules[m].table(kind)[i]).1.global_id == next_for(j);
        let g = map.modules[m].table(kind)[i].1.global_id;
        if map.id_set(kind).is_spent(g) {
            let w = choose|w: nat| w < map.id_set(kind).index && #[trigger] next_for(w) == g;
            lemma_next_for_injective(w, j);
        }
    }
}

/// Where no two names of a kind have the same global identifier, that is
/// still so after an identifier was made.
pub proof fn lemma_minted_keeps_unique(
    map: CssMapView,
    m: int,
    kind: IdKind,
    local_id: Seq<char>,
    j: nat,
    of: IdKind,
)
    requires
        map.globals_known(),
        map.globals_unique(of),
        0 <= m < map.modules.len(),
        map.id_set(kind).first_free(j),
    ensures
        map.minted(m, kind, local_id, j).globals_unique(of),
{
    let after = map.minted(m, kind, local_id, j);
    lemma_minted_is_new(map, kind, j);
    let last = map.modules[m].table(kind).len() as int;
    assert forall|m1: int, i1: int, m2: int, i2: int|
        0 <= m1 < after.modules.len() && 0 <= i1 < after.modules[m1].table(of).len() && 0 <= m2
            < after.modules.len() && 0 <= i2 < after.modules[m2].table(of).len() && (m1 != m2 || i1
            != i2) implies (#[trigger] after.modules[m1].table(of)[i1]).1.global_id != (
    #[trigger] after.modules[m2].table(of)[i2]).1.global_id by {
        let new1 = of == kind && m1 == m && i1 == last;
        let new2 = of == kind && m2 == m && i2 == last;
        if !new1 {
            assert(after.modules[m1].table(of)[i1] == map.modules[m1].table(of)[i1]);
        }
        if !new2 {
            assert(after.modules[m2].table(of)[i2] == map.modules[m2].table(of)[i2]);
        }
        if new1 && !new2 {
            assert(map.modules[m2].table(kind)[i2].1.global_id != next_for(j));
        }
        if new2 && !new1 {
            assert(map.modules[m1].table(kind)[i1].1.global_id != next_for(j));
        }
    }
}

/// The modules that a map holds stay at their places, under their names,
/// when a module is asked for.
pub proof fn lemma_modules_stay(map: CssMapView, name: Seq<char>, i: int)
    requires
        0 <= i < map.modules.len(),
    ensures
        map.with_module(name).modules.len() >= map.modules.len(),
        map.with_module(name).modules[i] == map.modules[i],
{
}

/// A row that was taken in is found: the module of the row holds the local
/// name with the global identifier of the row, so that asking for the name
/// makes no new identifier.
pub proof fn lemma_imported_is_found(
    map: CssMapView,
    kind: IdKind,
    module_id: Seq<char>,
    local_id: Seq<char>,
    global_id: Seq<char>,
)
    requires
        map.modules.len() < u32::MAX,
        ({
            let with = map.with_module(module_id);
            with.lookup(module_position(with.modules, module_id)->0, kind, local_id) is None
        }),
    ensures
        ({
            let after = map.imported(kind, module_id, local_id, global_id);
            let m = module_position(after.modules, module_id);
            &&& m is Some
            &&& after.lookup(m->0, kind, local_id) matches Some(id)
            &&& id.global_id == global_id
            &&& after.after_get_id(m->0, kind, local_id) == after
        }),
{
    let with = map.with_module(module_id);
    if module_position(map.modules, module_id) is Some {
        lemma_module_position_is_module(map.modules, module_id);
    } else {
        lemma_module_position_none_push(map.modules, module_id);
    }
    let m = module_position(with.modules, module_id)->0;
    let after = map.imported(kind, module_id, local_id, global_id);
    lemma_module_position_names(with.modules, after.modules, module_id);
    let table = with.modules[m].table(kind);
    let id = IdView { kind, module_index: m as u32, local_id, global_id };
    assert(after.modules[m].table(kind) == table.push((local_id, id)));
    assert(table.push((local_id, id)).drop_last() =~= table);
}

/// A module that is added at the end is found there.
pub proof fn lemma_module_position_none_push(modules: Seq<CssMapModuleView>, name: Seq<char>)
    requires
        module_position(modules, name) is None,
    ensures
        module_position(
            modules.push(CssMapModuleView::fresh(name, modules.len() as u32)),
            name,
        ) == Some(modules.len() as int),
{
    let pushed = modules.push(CssMapModuleView::fresh(name, modules.len() as u32));
    assert(pushed.drop_last() =~= modules);
}

} // verus!
