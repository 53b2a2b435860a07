use crate::css_map::{module_position, CssMap, CssMapView};
use crate::id::{find, Entry, Id, IdTable, IdView};
use crate::idmap::IdKind;
use vstd::prelude::*;
use vstd::string::StringExecFns;

verus! {

pub struct ModuleScopeView {
    pub module_index: u32,
    pub classes: Seq<Entry>,
    pub vars: Seq<Entry>,
    pub keyframes: Seq<Entry>,
}

impl ModuleScopeView {
    /// The names of one kind.
    pub open spec fn table(self, kind: IdKind) -> Seq<Entry> {
        match kind {
            IdKind::Class => self.classes,
            IdKind::Var => self.vars,
            IdKind::Keyframes => self.keyframes,
        }
    }

    /// The scope with one more name.
    pub open spec fn with_entry(self, kind: IdKind, key: Seq<char>, id: IdView) -> ModuleScopeView {
        match kind {
            IdKind::Class => ModuleScopeView { classes: self.classes.push((key, id)), ..self },
            IdKind::Var => ModuleScopeView { vars: self.vars.push((key, id)), ..self },
            IdKind::Keyframes => ModuleScopeView {
                keyframes: self.keyframes.push((key, id)),
                ..self
            },
        }
    }

    /// Whether each identifier of the scope belongs to one of the first
    /// `modules` modules.
    pub open spec fn within(self, modules: nat) -> bool {
        forall|kind: IdKind, i: int|
            0 <= i < self.table(kind).len() ==> (#[trigger] self.table(kind)[i]).1.module_index
                < modules
    }

    /// A scope stays within the modules where modules are added.
    pub proof fn lemma_within_more(self, before: nat, after: nat)
        requires
            self.within(before),
            before <= after,
        ensures
            self.within(after),
    {
        assert forall|k: IdKind, i: int| 0 <= i < self.table(k).len() implies (#[trigger] self.table(
            k,
        )[i]).1.module_index < after by {}
    }

    /// A scope stays within the modules where a name of one of them is
    /// added.
    pub proof fn lemma_within(self, kind: IdKind, key: Seq<char>, id: IdView, before: nat, after: nat)
        requires
            self.within(before),
            before <= after,
            id.module_index < after,
        ensures
            self.with_entry(kind, key, id).within(after),
    {
        let with = self.with_entry(kind, key, id);
        assert forall|k: IdKind, i: int| 0 <= i < with.table(k).len() implies (#[trigger] with.table(
            k,
        )[i]).1.module_index < after by {
            if k == kind && i == self.table(k).len() {
            } else {
                assert(with.table(k)[i] == self.table(k)[i]);
            }
        }
    }

    /// The identifier that the scope gives for a name: the one it holds, else
    /// the one that the module of the scope gives.
    pub open spec fn got_id(self, map: CssMapView, kind: IdKind, local_id: Seq<char>) -> Option<
        IdView,
    > {
        match find(self.table(kind), local_id) {
            Some(id) => Some(id),
            None => map.got_id(self.module_index as int, kind, local_id),
        }
    }

    /// The scope after it was asked for the identifier of a name: it holds
    /// the name from then on, unless there was no identifier to give.
    pub open spec fn after_get_id(self, map: CssMapView, kind: IdKind, local_id: Seq<char>) -> ModuleScopeView {
        if find(self.table(kind), local_id) is Some {
            self
        } else {
            match map.got_id(self.module_index as int, kind, local_id) {
                Some(id) => self.with_entry(kind, local_id, id),
                None => self,
            }
        }
    }

    /// The map after the scope was asked for the identifier of a name.
    pub open spec fn map_after_get_id(self, map: CssMapView, kind: IdKind, local_id: Seq<char>) -> CssMapView {
        if find(self.table(kind), local_id) is Some {
            map
        } else {
            map.after_get_id(self.module_index as int, kind, local_id)
        }
    }

    /// The identifier that a name of another module is bound to: the one
    /// that the scope holds for the local name, else the one that the other
    /// module gives for the imported name.
    pub open spec fn got_extern(
        self,
        map: CssMapView,
        module_id: Seq<char>,
        kind: IdKind,
        local_id: Seq<char>,
        imported_id: Seq<char>,
    ) -> Option<IdView> {
        match find(self.table(kind), local_id) {
            Some(id) => Some(id),
            None => {
                let with = map.with_module(module_id);
                with.got_id(module_position(with.modules, module_id)->0, kind, imported_id)
            },
        }
    }

    /// The scope after a name of another module was bound.
    pub open spec fn after_add_extern(
        self,
        map: CssMapView,
        module_id: Seq<char>,
        kind: IdKind,
        local_id: Seq<char>,
        imported_id: Seq<char>,
    ) -> ModuleScopeView {
        if find(self.table(kind), local_id) is Some {
            self
        } else {
            match self.got_extern(map, module_id, kind, local_id, imported_id) {
                Some(id) => self.with_entry(kind, local_id, id),
                None => self,
            }
        }
    }

    /// The map after a name of another module was bound: the other module
    /// exists, and holds the imported name.
    pub open spec fn map_after_add_extern(
        self,
        map: CssMapView,
        module_id: Seq<char>,
        kind: IdKind,
        local_id: Seq<char>,
        imported_id: Seq<char>,
    ) -> CssMapView {
        if find(self.table(kind), local_id) is Some {
            map
        } else {
            let with = map.with_module(module_id);
            with.after_get_id(module_position(with.modules, module_id)->0, kind, imported_id)
        }
    }
}

/// The names that one module uses, each with its identifier.
pub struct ModuleScope {
    pub module_index: u32,
    pub classes: IdTable,
    pub vars: IdTable,
    pub keyframes: IdTable,
}

impl View for ModuleScope {
    type V = ModuleScopeView;

    open spec fn view(&self) -> ModuleScopeView {
        ModuleScopeView {
            module_index: self.module_index,
            classes: self.classes@,
            vars: self.vars@,
            keyframes: self.keyframes@,
        }
    }
}

impl ModuleScope {
    /// Whether the three tables are in order.
    pub open spec fn wf(&self) -> bool {
        &&& self.classes.wf()
        &&& self.vars.wf()
        &&& self.keyframes.wf()
    }

    pub fn new(module_index: u32) -> (s: Self)
        ensures
            s.wf(),
            s@ == (ModuleScopeView {
                module_index,
                classes: Seq::empty(),
                vars: Seq::empty(),
                keyframes: Seq::empty(),
            }),
    {
        Self {
            module_index,
            classes: IdTable::new(),
            vars: IdTable::new(),
            keyframes: IdTable::new(),
        }
    }

    /// The table of one kind.
    pub fn table(&self, kind: IdKind) -> (t: &IdTable)
        ensures
            t@ == self@.table(kind),
            self.wf() ==> t.wf(),
    {
        match kind {
            IdKind::Class => &self.classes,
            IdKind::Var => &self.vars,
            IdKind::Keyframes => &self.keyframes,
        }
    }

    fn put(&mut self, kind: IdKind, key: String, id: Id)
        requires
            old(self).wf(),
            find(old(self)@.table(kind), key@) is None,
        ensures
            final(self).wf(),
            final(self)@ == old(self)@.with_entry(kind, key@, id@),
    {
        match kind {
            IdKind::Class => self.classes.insert(key, id),
            IdKind::Var => self.vars.insert(key, id),
            IdKind::Keyframes => self.keyframes.insert(key, id),
        }
    }

    /// Binds `local_id` to the identifier that the module called `module_id`
    /// has for `imported_id`, unless the scope holds `local_id` already.
    /// `None` says that there was no identifier left to give.
    pub fn add_extern(
        &mut self,
        css_map: &mut CssMap,
        module_id: &str,
        id_kind: IdKind,
        local_id: &str,
        imported_id: &str,
    ) -> (r: Option<Id>)
        requires
            old(self).wf(),
            old(css_map).wf(),
            old(css_map)@.modules.len() < u32::MAX,
        ensures
            final(self).wf(),
            final(css_map).wf(),
            final(self)@ == old(self)@.after_add_extern(
                old(css_map)@,
                module_id@,
                id_kind,
                local_id@,
                imported_id@,
            ),
            final(css_map)@ == old(self)@.map_after_add_extern(
                old(css_map)@,
                module_id@,
                id_kind,
                local_id@,
                imported_id@,
            ),
            match old(self)@.got_extern(old(css_map)@, module_id@, id_kind, local_id@, imported_id@) {
                Some(id) => r matches Some(got) && got@ == id,
                None => r is None,
            },
            old(css_map)@.modules.len() <= final(css_map)@.modules.len() <= old(
                css_map,
            )@.modules.len() + 1,
            final(self)@.module_index == old(self)@.module_index,
            old(self)@.within(old(css_map)@.modules.len()) ==> final(self)@.within(
                final(css_map)@.modules.len(),
            ),
    {
        if let Some(id) = self.table(id_kind).get(local_id) {
            return Some(id.duplicate());
        }
        let module_index = css_map.get_module_index(module_id);
        proof {
            crate::css_map::lemma_module_position_is_module(css_map@.modules, module_id@);
        }
        match css_map.get_id(module_index, id_kind, imported_id) {
            Some(id) => {
                let copy = id.duplicate();
                proof {
                    if old(self)@.within(old(css_map)@.modules.len()) {
                        old(self)@.lemma_within(
                            id_kind,
                            local_id@,
                            id@,
                            old(css_map)@.modules.len(),
                            css_map@.modules.len(),
                        );
                    }
                }
                self.put(id_kind, String::from_str(local_id), id);
                Some(copy)
            },
            None => {
                proof {
                    if old(self)@.within(old(css_map)@.modules.len()) {
                        old(self)@.lemma_within_more(
                            old(css_map)@.modules.len(),
                            css_map@.modules.len(),
                        );
                    }
                }
                None
            },
        }
    }

    /// The identifier of `local_id`: the one that the scope holds, else the
    /// one that the module of the scope gives, which the scope then holds.
    /// `None` says that there was no identifier left to give.
    pub fn get_id(&mut self, css_map: &mut CssMap, id_kind: IdKind, local_id: &str) -> (r: Option<Id>)
        requires
            old(self).wf(),
            old(css_map).wf(),
            old(self)@.module_index < old(css_map)@.modules.len(),
        ensures
            final(self).wf(),
            final(css_map).wf(),
            final(self)@ == old(self)@.after_get_id(old(css_map)@, id_kind, local_id@),
            final(css_map)@ == old(self)@.map_after_get_id(old(css_map)@, id_kind, local_id@),
            final(css_map)@.modules.len() == old(css_map)@.modules.len(),
            match old(self)@.got_id(old(css_map)@, id_kind, local_id@) {
                Some(id) => r matches Some(got) && got@ == id,
                None => r is None,
            },
            final(self)@.module_index == old(self)@.module_index,
            old(self)@.within(old(css_map)@.modules.len()) ==> final(self)@.within(
                final(css_map)@.modules.len(),
            ),
    {
        if let Some(id) = self.table(id_kind).get(local_id) {
            return Some(id.duplicate());
        }
        match css_map.get_id(self.module_index, id_kind, local_id) {
            Some(id) => {
                let copy = id.duplicate();
                proof {
                    if old(self)@.within(old(css_map)@.modules.len()) {
                        old(self)@.lemma_within(
                            id_kind,
                            local_id@,
                            id@,
                            old(css_map)@.modules.len(),
                            css_map@.modules.len(),
                        );
                    }
                }
                self.put(id_kind, String::from_str(local_id), id);
                Some(copy)
            },
            None => None,
        }
    }
}

} // verus!
