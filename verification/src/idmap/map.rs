use crate::id::{find, Table};
use crate::idmap::id::{Id, IdKind, IdView};
use crate::idmap::key::{lemma_name_key_injective, name_key, name_key_of};
use crate::idmap::parser::{
    io_error_message, lemma_scan_row, scan_row, ErrorKind, Field, ParseError, Parser, RowScan,
};
use vstd::hash_map::StringHashMap;
use vstd::hash_set::StringHashSet;
use vstd::prelude::*;
use vstd::string::StringExecFns;

verus! {

/// The place of a module in the map.
#[derive(Debug, Clone, Copy)]
pub struct ModuleIndex(usize);

impl View for ModuleIndex {
    type V = usize;

    closed spec fn view(&self) -> usize {
        self.0
    }
}

impl ModuleIndex {
    /// The place as a number.
    pub fn position(&self) -> (i: usize)
        ensures
            i == self@,
    {
        self.0
    }
}

/// One entry of a table of a module.
pub type Entry = (Seq<char>, IdView);

pub struct ModuleView {
    pub id: Seq<char>,
    pub index: usize,
    pub classes: Seq<Entry>,
    pub vars: Seq<Entry>,
    pub keyframes: Seq<Entry>,
}

impl ModuleView {
    /// A module that holds no name yet.
    pub open spec fn fresh(id: Seq<char>, index: usize) -> ModuleView {
        ModuleView { id, index, classes: Seq::empty(), vars: Seq::empty(), keyframes: Seq::empty() }
    }

    /// The names of one kind.
    pub open spec fn table(self, kind: IdKind) -> Seq<Entry> {
        match kind {
            IdKind::Class => self.classes,
            IdKind::Var => self.vars,
            IdKind::Keyframes => self.keyframes,
        }
    }

    /// The module with one more name.
    pub open spec fn with_id(self, id: IdView) -> ModuleView {
        match id.kind {
            IdKind::Class => ModuleView { classes: self.classes.push((id.local_id, id)), ..self },
            IdKind::Var => ModuleView { vars: self.vars.push((id.local_id, id)), ..self },
            IdKind::Keyframes => ModuleView {
                keyframes: self.keyframes.push((id.local_id, id)),
                ..self
            },
        }
    }
}

/// The names of one module, by kind.
pub struct Module {
    pub id: String,
    pub index: ModuleIndex,
    pub classes: Table<Id>,
    pub vars: Table<Id>,
    pub keyframes: Table<Id>,
}

impl View for Module {
    type V = ModuleView;

    open spec fn view(&self) -> ModuleView {
        ModuleView {
            id: self.id@,
            index: self.index@,
            classes: self.classes@,
            vars: self.vars@,
            keyframes: self.keyframes@,
        }
    }
}

impl Module {
    /// Whether the three tables are in order.
    pub open spec fn wf(&self) -> bool {
        &&& self.classes.wf()
        &&& self.vars.wf()
        &&& self.keyframes.wf()
    }

    pub fn new(id: String, index: ModuleIndex) -> (m: Self)
        ensures
            m.wf(),
            m@ == ModuleView::fresh(id@, index@),
    {
        Self { id, index, classes: Table::new(), vars: Table::new(), keyframes: Table::new() }
    }

    /// The table of one kind.
    pub fn table(&self, kind: IdKind) -> (t: &Table<Id>)
        ensures
            t@ == self@.table(kind),
            self.wf() ==> t.wf(),
    {
        match kind {
            IdKind::Class => &self.classes,
            IdKind::Var => &self.vars,
            IdKind::Keyframes => &self.keyframes,
        }
    }
}

#[derive(Debug)]
pub enum MapError {
    IOError(std::io::Error),
    ParserError(ParseError),
    /// The identifier whose local name its module holds already.
    DuplicateEntry(Id),
}

impl From<std::io::Error> for MapError {
    fn from(value: std::io::Error) -> (e: Self) {
        MapError::IOError(value)
    }
}

impl vstd::std_specs::convert::FromSpecImpl<std::io::Error> for MapError {
    open spec fn obeys_from_spec() -> bool {
        true
    }

    open spec fn from_spec(value: std::io::Error) -> MapError {
        MapError::IOError(value)
    }
}

impl From<ParseError> for MapError {
    fn from(value: ParseError) -> (e: Self) {
        MapError::ParserError(value)
    }
}

impl vstd::std_specs::convert::FromSpecImpl<ParseError> for MapError {
    open spec fn obeys_from_spec() -> bool {
        true
    }

    open spec fn from_spec(value: ParseError) -> MapError {
        MapError::ParserError(value)
    }
}

impl MapError {
    /// The message that describes the error. That of an `IOError` is the
    /// description that the system gives.
    pub fn message(&self) -> (s: String)
        ensures
            self matches MapError::DuplicateEntry(id) ==> s@ == "Duplicate entry: '"@ + id@.text()
                + "'"@,
            self matches MapError::ParserError(e) ==> !(e.kind is IOError) ==> s@
                == e.message_text(),
    {
        match self {
            MapError::IOError(err) => io_error_message(err),
            MapError::ParserError(err) => err.message(),
            MapError::DuplicateEntry(id) => {
                let mut s = String::from_str("Duplicate entry: '");
                s.append(id.to_text().as_str());
                s.append("'");
                s
            },
        }
    }
}

/// The position of the module called `name`: that of the first with this
/// name.
pub open spec fn position(modules: Seq<ModuleView>, name: Seq<char>) -> Option<int>
    decreases modules.len(),
{
    if modules.len() == 0 {
        None
    } else {
        match position(modules.drop_last(), name) {
            Some(i) => Some(i),
            None => if modules.last().id == name {
                Some(modules.len() - 1)
            } else {
                None
            },
        }
    }
}

/// A name that no module has is not found.
pub proof fn lemma_position_none(modules: Seq<ModuleView>, name: Seq<char>)
    requires
        forall|i: int| 0 <= i < modules.len() ==> (#[trigger] modules[i]).id != name,
    ensures
        position(modules, name) is None,
    decreases modules.len(),
{
    if modules.len() > 0 {
        lemma_position_none(modules.drop_last(), name);
    }
}

/// Where the names of the modules are distinct, each is found at its place.
pub proof fn lemma_position_some(modules: Seq<ModuleView>, i: int)
    requires
        forall|a: int, b: int|
            0 <= a < modules.len() && 0 <= b < modules.len() && a != b ==> (
            #[trigger] modules[a]).id != (#[trigger] modules[b]).id,
        0 <= i < modules.len(),
    ensures
        position(modules, modules[i].id) == Some(i),
    decreases modules.len(),
{
    let name = modules[i].id;
    let rest = modules.drop_last();
    if i == modules.len() - 1 {
        assert forall|k: int| 0 <= k < rest.len() implies (#[trigger] rest[k]).id != name by {
            assert(rest[k] == modules[k]);
        }
        lemma_position_none(rest, name);
    } else {
        assert forall|a: int, b: int|
            0 <= a < rest.len() && 0 <= b < rest.len() && a != b implies (#[trigger] rest[a]).id != (
        #[trigger] rest[b]).id by {
            assert(rest[a] == modules[a]);
            assert(rest[b] == modules[b]);
        }
        assert(rest[i] == modules[i]);
        lemma_position_some(rest, i);
    }
}

/// Where a module is found depends on the names of the modules alone.
pub proof fn lemma_position_names(a: Seq<ModuleView>, b: Seq<ModuleView>, name: Seq<char>)
    requires
        a.len() == b.len(),
        forall|i: int| 0 <= i < a.len() ==> (#[trigger] a[i]).id == b[i].id,
    ensures
        position(a, name) == position(b, name),
    decreases a.len(),
{
    if a.len() > 0 {
        assert(a.last().id == b[a.len() - 1].id);
        assert forall|i: int| 0 <= i < a.drop_last().len() implies (#[trigger] a.drop_last()[i]).id
            == b.drop_last()[i].id by {
            assert(a[i].id == b[i].id);
        }
        lemma_position_names(a.drop_last(), b.drop_last(), name);
    }
}

/// The modules with one called `name`: themselves where there is one, else
/// with a new module at the end.
pub open spec fn with_module(modules: Seq<ModuleView>, name: Seq<char>) -> Seq<ModuleView> {
    if position(modules, name) is Some {
        modules
    } else {
        modules.push(ModuleView::fresh(name, modules.len() as usize))
    }
}

/// The modules after a row was taken in: its module holds the identifier.
pub open spec fn imported(modules: Seq<ModuleView>, id: IdView) -> Seq<ModuleView> {
    let with = with_module(modules, id.module_id);
    let m = position(with, id.module_id)->0;
    with.update(m, with[m].with_id(id))
}

/// Why a text could not be imported.
#[allow(inconsistent_fields)]
pub enum ImportFailure {
    /// A row does not fit the grammar.
    Parse { kind: ErrorKind, line_num: nat },
    /// A row gives a local name that its module holds already.
    Duplicate { id: IdView },
}

/// The modules that an import leaves, and why the import failed, if it did.
pub struct ImportOutcome {
    pub modules: Seq<ModuleView>,
    pub failure: Option<ImportFailure>,
}

/// The outcome of taking in the rows of `text` one after the other from
/// place `p` on, where the row at `p` stands in line `line_num`. The run
/// stops at the first row that does not fit the grammar or that gives a
/// local name again; `modules` is then what the run had made of the modules
/// up to there.
pub open spec fn import_from(modules: Seq<ModuleView>, text: Seq<char>, p: int, line_num: nat) -> ImportOutcome
    decreases text.len() - p,
{
    match scan_row(text, p) {
        RowScan::End => ImportOutcome { modules, failure: None },
        RowScan::Fail { kind, next } => ImportOutcome {
            modules,
            failure: Some(ImportFailure::Parse { kind, line_num }),
        },
        RowScan::Row { kind, module_id, local_id, global_id, next } => {
            let id = IdView { kind, module_id, local_id, global_id };
            let with = with_module(modules, module_id);
            let m = position(with, module_id)->0;
            if find(with[m].table(kind), local_id) is Some {
                ImportOutcome { modules: with, failure: Some(ImportFailure::Duplicate { id }) }
            } else if p < next <= text.len() {
                import_from(imported(modules, id), text, next, line_num + 1)
            } else {
                ImportOutcome { modules, failure: None }
            }
        },
    }
}

/// The outcome of importing `text`: all of its rows are taken in, or, where
/// one of them fails, none is and the modules stay as they are.
pub open spec fn import(modules: Seq<ModuleView>, text: Seq<char>) -> ImportOutcome {
    let run = import_from(modules, text, 0, 1);
    ImportOutcome {
        modules: if run.failure is Some {
            modules
        } else {
            run.modules
        },
        failure: run.failure,
    }
}

/// The identifier that the modules hold for a local name of a kind in the
/// module called `module_id`.
pub open spec fn held(
    modules: Seq<ModuleView>,
    kind: IdKind,
    module_id: Seq<char>,
    local_id: Seq<char>,
) -> Option<IdView> {
    match position(modules, module_id) {
        Some(m) => find(modules[m].table(kind), local_id),
        None => None,
    }
}

/// A module that is found has the name that was asked for.
pub proof fn lemma_position_is_module(modules: Seq<ModuleView>, name: Seq<char>)
    requires
        position(modules, name) is Some,
    ensures
        0 <= position(modules, name)->0 < modules.len(),
        modules[position(modules, name)->0].id == name,
    decreases modules.len(),
{
    if modules.len() > 0 {
        let rest = modules.drop_last();
        if position(rest, name) is Some {
            lemma_position_is_module(rest, name);
            assert(rest[position(rest, name)->0] == modules[position(rest, name)->0]);
        }
    }
}

/// A module that is added at the end is found there.
pub proof fn lemma_position_none_push(modules: Seq<ModuleView>, name: Seq<char>)
    requires
        position(modules, name) is None,
    ensures
        position(modules.push(ModuleView::fresh(name, modules.len() as usize)), name) == Some(
            modules.len() as int,
        ),
{
    let pushed = modules.push(ModuleView::fresh(name, modules.len() as usize));
    assert(pushed.drop_last() =~= modules);
}

/// A module that is added at the end leaves the others where they are.
pub proof fn lemma_position_push_other(modules: Seq<ModuleView>, module: ModuleView, name: Seq<char>)
    requires
        module.id != name,
    ensures
        position(modules.push(module), name) == position(modules, name),
{
    assert(modules.push(module).drop_last() =~= modules);
}

/// Asking for a module changes nothing that the modules hold.
pub proof fn lemma_with_module_holds(
    modules: Seq<ModuleView>,
    name: Seq<char>,
    kind: IdKind,
    module_id: Seq<char>,
    local_id: Seq<char>,
)
    ensures
        held(with_module(modules, name), kind, module_id, local_id) == held(
            modules,
            kind,
            module_id,
            local_id,
        ),
{
    let with = with_module(modules, name);
    if position(modules, name) is None {
        let module = ModuleView::fresh(name, modules.len() as usize);
        if module_id == name {
            lemma_position_none_push(modules, name);
            assert(with[modules.len() as int] == module);
        } else {
            lemma_position_push_other(modules, module, module_id);
            if position(modules, module_id) is Some {
                lemma_position_is_module(modules, module_id);
                let k = position(modules, module_id)->0;
                assert(with[k] == modules[k]);
            }
        }
    }
}

/// A row gives a local name again exactly where the modules hold its name.
pub proof fn lemma_duplicate_is_held(modules: Seq<ModuleView>, id: IdView)
    ensures
        ({
            let with = with_module(modules, id.module_id);
            let m = position(with, id.module_id)->0;
            find(with[m].table(id.kind), id.local_id) == held(
                modules,
                id.kind,
                id.module_id,
                id.local_id,
            )
        }),
{
    lemma_with_module_holds(modules, id.module_id, id.kind, id.module_id, id.local_id);
    if position(modules, id.module_id) is Some {
        lemma_position_is_module(modules, id.module_id);
    } else {
        lemma_position_none_push(modules, id.module_id);
    }
}

/// An identifier that was taken in is held, and what the modules held under
/// other names is held as before.
pub proof fn lemma_imported_holds(
    modules: Seq<ModuleView>,
    id: IdView,
    kind: IdKind,
    module_id: Seq<char>,
    local_id: Seq<char>,
)
    requires
        held(modules, id.kind, id.module_id, id.local_id) is None,
    ensures
        held(imported(modules, id), id.kind, id.module_id, id.local_id) == Some(id),
        !(kind == id.kind && module_id == id.module_id && local_id == id.local_id) ==> held(
            imported(modules, id),
            kind,
            module_id,
            local_id,
        ) == held(modules, kind, module_id, local_id),
{
    let with = with_module(modules, id.module_id);
    lemma_with_module_holds(modules, id.module_id, id.kind, id.module_id, id.local_id);
    lemma_with_module_holds(modules, id.module_id, kind, module_id, local_id);
    if position(modules, id.module_id) is Some {
        lemma_position_is_module(modules, id.module_id);
    } else {
        lemma_position_none_push(modules, id.module_id);
    }
    let m = position(with, id.module_id)->0;
    let after = imported(modules, id);
    let table = with[m].table(id.kind);
    assert(after[m].table(id.kind) == table.push((id.local_id, id)));
    assert(table.push((id.local_id, id)).drop_last() =~= table);
    lemma_position_names(with, after, id.module_id);
    lemma_position_names(with, after, module_id);
    if !(kind == id.kind && module_id == id.module_id && local_id == id.local_id) {
        if position(with, module_id) is Some {
            lemma_position_is_module(with, module_id);
            let k = position(with, module_id)->0;
            if k != m {
                assert(after[k] == with[k]);
            } else if kind != id.kind {
                assert(after[k].table(kind) == with[k].table(kind));
            }
        }
    }
}

/// The views of a list of modules.
pub open spec fn module_views(modules: Seq<Module>) -> Seq<ModuleView> {
    modules.map_values(|m: Module| m@)
}

/// The modules of a persistent map, by name and by place.
pub struct ModuleMap {
    index: StringHashMap<ModuleIndex>,
    items: Vec<Module>,
}

impl View for ModuleMap {
    type V = Seq<ModuleView>;

    closed spec fn view(&self) -> Seq<ModuleView> {
        module_views(self.items@)
    }
}

impl ModuleMap {
    /// Whether the modules are registered under their names, each at its
    /// place.
    pub closed spec fn wf(&self) -> bool {
        &&& forall|i: int|
            0 <= i < self.items@.len() ==> {
                &&& self.index@.contains_key((#[trigger] self.items@[i]).id@)
                &&& self.index@[self.items@[i].id@]@ == i
                &&& self.items@[i].index@ == i
                &&& self.items@[i].wf()
            }
        &&& forall|k: Seq<char>| #[trigger]
            self.index@.contains_key(k) ==> self.index@[k]@ < self.items@.len()
                && self.items@[self.index@[k]@ as int].id@ == k
    }

    proof fn lemma_position(&self, name: Seq<char>)
        requires
            self.wf(),
        ensures
            match position(self@, name) {
                Some(i) => self.index@.contains_key(name) && self.index@[name]@ == i && 0 <= i
                    < self.items@.len(),
                None => !self.index@.contains_key(name),
            },
    {
        let views = self@;
        if self.index@.contains_key(name) {
            let i = self.index@[name]@ as int;
            assert forall|a: int, b: int|
                0 <= a < views.len() && 0 <= b < views.len() && a != b implies (
            #[trigger] views[a]).id != (#[trigger] views[b]).id by {
                assert(self.index@[self.items@[a].id@]@ == a);
                assert(self.index@[self.items@[b].id@]@ == b);
            }
            assert(views[i].id == name);
            lemma_position_some(views, i);
        } else {
            assert forall|i: int| 0 <= i < views.len() implies (#[trigger] views[i]).id != name by {
                assert(self.index@.contains_key(self.items@[i].id@));
            }
            lemma_position_none(views, name);
        }
    }

    pub fn new() -> (m: Self)
        ensures
            m.wf(),
            m@ == Seq::<ModuleView>::empty(),
    {
        let m = Self { index: StringHashMap::new(), items: Vec::new() };
        assert(m@ =~= Seq::<ModuleView>::empty());
        m
    }

    /// The module at a place.
    pub fn get_by_index(&self, index: ModuleIndex) -> (r: Option<&Module>)
        ensures
            match r {
                Some(module) => index@ < self@.len() && module@ == self@[index@ as int],
                None => index@ >= self@.len(),
            },
    {
        if index.0 < self.items.len() {
            Some(&self.items[index.0])
        } else {
            None
        }
    }

    /// The module at a place, to be changed. What the caller makes of the
    /// module is what the map holds at that place afterwards.
    pub fn get_mut_by_index(&mut self, index: ModuleIndex) -> (r: Option<&mut Module>)
        ensures
            match r {
                Some(module) => {
                    &&& index@ < old(self)@.len()
                    &&& module@ == old(self)@[index@ as int]
                    &&& final(self)@ == old(self)@.update(index@ as int, final(module)@)
                },
                None => index@ >= old(self)@.len() && final(self)@ == old(self)@,
            },
    {
        if index.0 < self.items.len() {
            Some(&mut self.items[index.0])
        } else {
            None
        }
    }

    /// The module with a name.
    pub fn get_by_id(&self, id: &str) -> (r: Option<&Module>)
        requires
            self.wf(),
        ensures
            match position(self@, id@) {
                Some(i) => r matches Some(module) && module@ == self@[i],
                None => r is None,
            },
    {
        proof {
            self.lemma_position(id@);
        }
        if let Some(index) = self.index.get(id) {
            self.get_by_index(*index)
        } else {
            None
        }
    }

    /// The module with a name, to be changed. What the caller makes of the
    /// module is what the map holds at that place afterwards.
    pub fn get_mut_by_id(&mut self, id: &str) -> (r: Option<&mut Module>)
        requires
            old(self).wf(),
        ensures
            match position(old(self)@, id@) {
                Some(i) => {
                    &&& r matches Some(module)
                    &&& module@ == old(self)@[i]
                    &&& final(self)@ == old(self)@.update(i, final(module)@)
                },
                None => r is None && final(self)@ == old(self)@,
            },
    {
        proof {
            self.lemma_position(id@);
        }
        let found = match self.index.get(id) {
            Some(index) => Some(*index),
            None => None,
        };
        match found {
            Some(index) => self.get_mut_by_index(index),
            None => None,
        }
    }

    /// The place of the module called `name`, which is made where there is
    /// none.
    fn module_index(&mut self, name: &str) -> (i: usize)
        requires
            old(self).wf(),
        ensures
            final(self).wf(),
            final(self)@ == with_module(old(self)@, name@),
            position(final(self)@, name@) == Some(i as int),
            i < final(self).items@.len(),
    {
        proof {
            self.lemma_position(name@);
        }
        if let Some(index) = self.index.get(name) {
            index.0
        } else {
            let index = ModuleIndex(self.items.len());
            self.index.insert(String::from_str(name), index);
            self.items.push(Module::new(String::from_str(name), index));
            proof {
                assert(self.items@.drop_last() =~= old(self).items@);
                assert forall|i: int| 0 <= i < self.items@.len() implies {
                    &&& self.index@.contains_key((#[trigger] self.items@[i]).id@)
                    &&& self.index@[self.items@[i].id@]@ == i
                    &&& self.items@[i].index@ == i
                    &&& self.items@[i].wf()
                } by {
                    if i < old(self).items@.len() {
                        assert(self.items@[i] == old(self).items@[i]);
                    }
                }
                assert(self@ =~= with_module(old(self)@, name@));
                self.lemma_position(name@);
            }
            index.0
        }
    }

    /// Puts `id` at the end of the table of its kind in module `mi`.
    fn put(&mut self, mi: usize, id: Id)
        requires
            old(self).wf(),
            mi < old(self).items@.len(),
            find(old(self)@[mi as int].table(id.kind), id.local_id@) is None,
        ensures
            final(self).wf(),
            final(self)@ == old(self)@.update(mi as int, old(self)@[mi as int].with_id(id@)),
    {
        let key = id.local_id.clone();
        let ghost view = id@;
        match id.kind {
            IdKind::Class => self.items[mi].classes.insert(key, id),
            IdKind::Var => self.items[mi].vars.insert(key, id),
            IdKind::Keyframes => self.items[mi].keyframes.insert(key, id),
        }
        proof {
            assert(self.items@[mi as int]@ == old(self).items@[mi as int]@.with_id(view));
            assert(self@ =~= old(self)@.update(mi as int, old(self)@[mi as int].with_id(view)));
        }
    }

    /// The place of the module called `name`, if the map has one.
    fn find_module(&self, name: &str) -> (r: Option<usize>)
        requires
            self.wf(),
        ensures
            match position(self@, name@) {
                Some(i) => r == Some(i as usize) && 0 <= i < self.items@.len(),
                None => r is None,
            },
    {
        proof {
            self.lemma_position(name@);
        }
        match self.index.get(name) {
            Some(index) => Some(index.0),
            None => None,
        }
    }

    /// Says whether the rows of `contents` can be taken in one after the
    /// other, and why not. The map is only read: a name counts as held
    /// where the map holds it or a row before has given it.
    fn check_import(&self, contents: &str) -> (r: Result<(), MapError>)
        requires
            self.wf(),
        ensures
            match import_from(self@, contents@, 0, 1).failure {
                None => r is Ok,
                Some(ImportFailure::Parse { kind, line_num }) => {
                    &&& r matches Err(MapError::ParserError(e))
                    &&& e.kind == kind
                    &&& e.line_num == line_num
                },
                Some(ImportFailure::Duplicate { id }) => {
                    &&& r matches Err(MapError::DuplicateEntry(found))
                    &&& found@ == id
                },
            },
    {
        let mut p = Parser::new(contents);
        let mut names = StringHashSet::new();
        let mut module_name = String::new();
        let mut module_at: Option<usize> = None;
        let ghost text = contents@;
        let ghost mut run = self@;
        loop
            invariant
                p.wf(),
                self.wf(),
                p@.text == text,
                text == contents@,
                import_from(self@, text, 0, 1).failure == import_from(
                    run,
                    text,
                    p@.pos,
                    p@.line_num,
                ).failure,
                module_name@ == p@.prev_module_id,
                p@.prev_module_id.len() > 0 ==> match position(self@, module_name@) {
                    Some(i) => module_at == Some(i as usize) && 0 <= i < self.items@.len(),
                    None => module_at is None,
                },
                forall|kind: IdKind, module_id: Seq<char>, local_id: Seq<char>|
                    Field::Module.accepts(module_id) ==> ((#[trigger] held(
                        run,
                        kind,
                        module_id,
                        local_id,
                    )) is Some <==> held(self@, kind, module_id, local_id) is Some
                        || names@.contains(name_key(kind, module_id, local_id))),
            decreases text.len() - p@.pos,
        {
            proof {
                p.lemma_wf();
                lemma_scan_row(text, p@.pos);
            }
            let next = match p.next_id() {
                Err(e) => {
                    return Err(MapError::ParserError(e));
                },
                Ok(next) => next,
            };
            let (kind, module_id, local_id, global_id) = match next {
                None => {
                    return Ok(());
                },
                Some(found) => found,
            };
            if let Some(name) = module_id {
                module_at = self.find_module(name.as_str());
                module_name = name;
            }
            let held_before = match module_at {
                Some(i) => self.items[i].table(kind).get(local_id.as_str()).is_some(),
                None => false,
            };
            let ghost before = names@;
            let fresh = names.insert(name_key_of(kind, module_name.as_str(), local_id.as_str()));
            let id = Id::new(kind, module_name.clone(), local_id, global_id);
            proof {
                assert(held_before == (held(self@, id@.kind, id@.module_id, id@.local_id) is Some));
                lemma_duplicate_is_held(run, id@);
            }
            if held_before || !fresh {
                return Err(MapError::DuplicateEntry(id));
            }
            proof {
                assert(held(run, id@.kind, id@.module_id, id@.local_id) is None);
                assert forall|kind: IdKind, module_id: Seq<char>, local_id: Seq<char>|
                    Field::Module.accepts(module_id) implies ((#[trigger] held(
                    imported(run, id@),
                    kind,
                    module_id,
                    local_id,
                )) is Some <==> held(self@, kind, module_id, local_id) is Some || names@.contains(
                    name_key(kind, module_id, local_id),
                )) by {
                    lemma_imported_holds(run, id@, kind, module_id, local_id);
                    if name_key(kind, module_id, local_id) == name_key(
                        id@.kind,
                        id@.module_id,
                        id@.local_id,
                    ) {
                        lemma_name_key_injective(
                            kind,
                            module_id,
                            local_id,
                            id@.kind,
                            id@.module_id,
                            id@.local_id,
                        );
                    }
                    assert(held(run, kind, module_id, local_id) is Some <==> held(
                        self@,
                        kind,
                        module_id,
                        local_id,
                    ) is Some || before.contains(name_key(kind, module_id, local_id)));
                }
                run = imported(run, id@);
            }
        }
    }

    /// Imports the rows of a persistent map: all of them, or, where one of
    /// them does not fit the grammar or gives a local name again, none.
    pub fn import(&mut self, contents: &str) -> (r: Result<(), MapError>)
        requires
            old(self).wf(),
        ensures
            final(self).wf(),
            final(self)@ == import(old(self)@, contents@).modules,
            r is Err ==> final(self)@ == old(self)@,
            r is Err <==> import(old(self)@, contents@).failure is Some,
            match import(old(self)@, contents@).failure {
                None => r is Ok,
                Some(ImportFailure::Parse { kind, line_num }) => {
                    &&& r matches Err(MapError::ParserError(e))
                    &&& e.kind == kind
                    &&& e.line_num == line_num
                },
                Some(ImportFailure::Duplicate { id }) => {
                    &&& r matches Err(MapError::DuplicateEntry(found))
                    &&& found@ == id
                },
            },
    {
        match self.check_import(contents) {
            Err(e) => Err(e),
            Ok(()) => self.take_in(contents),
        }
    }

    /// Takes in the rows of `contents` one after the other, up to the first
    /// that fails.
    fn take_in(&mut self, contents: &str) -> (r: Result<(), MapError>)
        requires
            old(self).wf(),
        ensures
            final(self).wf(),
            final(self)@ == import_from(old(self)@, contents@, 0, 1).modules,
            match import_from(old(self)@, contents@, 0, 1).failure {
                None => r is Ok,
                Some(ImportFailure::Parse { kind, line_num }) => {
                    &&& r matches Err(MapError::ParserError(e))
                    &&& e.kind == kind
                    &&& e.line_num == line_num
                },
                Some(ImportFailure::Duplicate { id }) => {
                    &&& r matches Err(MapError::DuplicateEntry(found))
                    &&& found@ == id
                },
            },
    {
        let mut p = Parser::new(contents);
        let mut module_index: usize = 0;
        let ghost text = contents@;
        loop
            invariant
                p.wf(),
                self.wf(),
                p@.text == text,
                text == contents@,
                import_from(old(self)@, text, 0, 1) == import_from(self@, text, p@.pos, p@.line_num),
                p@.prev_module_id.len() > 0 ==> position(self@, p@.prev_module_id) == Some(
                    module_index as int,
                ),
            decreases text.len() - p@.pos,
        {
            let ghost before = self@;
            proof {
                p.lemma_wf();
                lemma_scan_row(text, p@.pos);
            }
            let next = match p.next_id() {
                Err(e) => {
                    return Err(MapError::ParserError(e));
                },
                Ok(next) => next,
            };
            let (kind, module_id, local_id, global_id) = match next {
                None => {
                    return Ok(());
                },
                Some(found) => found,
            };
            if let Some(module_id) = module_id {
                module_index = self.module_index(module_id.as_str());
            }
            proof {
                self.lemma_position(p@.prev_module_id);
                assert(self@ == with_module(before, p@.prev_module_id));
            }
            let id = Id::new(kind, self.items[module_index].id.clone(), local_id, global_id);
            if self.items[module_index].table(kind).get(id.local_id.as_str()).is_some() {
                return Err(MapError::DuplicateEntry(id));
            }
            let ghost with = self@;
            self.put(module_index, id);
            proof {
                assert(self@ == imported(before, id@));
                lemma_position_names(with, self@, p@.prev_module_id);
            }
        }
    }
}

} // verus!
