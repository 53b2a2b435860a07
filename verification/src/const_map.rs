use vstd::hash_map::StringHashMap;
use vstd::prelude::*;

verus! {

/// The name of the property of a declaration.
#[derive(Debug)]
pub enum DeclarationName {
    Ident(String),
    DashedIdent(String),
}

/// The constants of a style sheet: for each name the number of the
/// declaration that gives it its value.
pub struct ConstMap {
    index: StringHashMap<usize>,
}

impl View for ConstMap {
    type V = Map<Seq<char>, usize>;

    closed spec fn view(&self) -> Map<Seq<char>, usize> {
        self.index@
    }
}

impl ConstMap {
    pub fn new() -> (m: Self)
        ensures
            m@ == Map::<Seq<char>, usize>::empty(),
    {
        Self { index: StringHashMap::new() }
    }

    /// Takes in the declaration with the number `declaration`: where its
    /// property is a dashed identifier, that name stands for it from now on.
    pub fn visit_declaration(&mut self, name: &DeclarationName, declaration: usize)
        ensures
            final(self)@ == (match name {
                DeclarationName::DashedIdent(ident) => old(self)@.insert(ident@, declaration),
                DeclarationName::Ident(_) => old(self)@,
            }),
    {
        if let DeclarationName::DashedIdent(ident) = name {
            self.index.insert(ident.clone(), declaration);
        }
    }

    /// The number of the declaration that a name stands for.
    pub fn get(&self, name: &str) -> (r: Option<usize>)
        ensures
            r == (if self@.contains_key(name@) {
                Some(self@[name@])
            } else {
                None
            }),
    {
        match self.index.get(name) {
            Some(declaration) => Some(*declaration),
            None => None,
        }
    }
}

} // verus!
