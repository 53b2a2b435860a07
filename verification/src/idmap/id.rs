use vstd::prelude::*;
use vstd::string::StringExecFns;

verus! {

/// The three kinds of names. Each kind has a namespace of its own.
#[derive(Debug, Clone, Copy, PartialEq, Eq, Structural)]
pub enum IdKind {
    Class,
    Var,
    Keyframes,
}

impl IdKind {
    /// The word for the kind.
    pub open spec fn name_text(self) -> Seq<char> {
        match self {
            IdKind::Class => "class"@,
            IdKind::Var => "var"@,
            IdKind::Keyframes => "keyframes"@,
        }
    }

    /// The word for the kind.
    pub fn name(&self) -> (s: &'static str)
        ensures
            s@ == self.name_text(),
    {
        match self {
            IdKind::Class => "class",
            IdKind::Var => "var",
            IdKind::Keyframes => "keyframes",
        }
    }

    /// The letter that stands for the kind in a row of the persistent map.
    pub open spec fn letter(self) -> char {
        match self {
            IdKind::Class => 'C',
            IdKind::Var => 'V',
            IdKind::Keyframes => 'K',
        }
    }

    /// The letter that stands for the kind in a row of the persistent map.
    pub fn to_letter(&self) -> (c: char)
        ensures
            c == self.letter(),
    {
        match self {
            IdKind::Class => 'C',
            IdKind::Var => 'V',
            IdKind::Keyframes => 'K',
        }
    }

    /// The kind that a letter stands for.
    pub open spec fn of_letter(c: char) -> Option<IdKind> {
        if c == 'C' {
            Some(IdKind::Class)
        } else if c == 'V' {
            Some(IdKind::Var)
        } else if c == 'K' {
            Some(IdKind::Keyframes)
        } else {
            None
        }
    }
}

pub struct IdView {
    pub kind: IdKind,
    pub module_id: Seq<char>,
    pub local_id: Seq<char>,
    pub global_id: Seq<char>,
}

impl IdView {
    /// The identifier as an error message shows it.
    pub open spec fn text(self) -> Seq<char> {
        self.module_id + ","@ + self.kind.name_text() + ","@ + self.local_id + ","@
            + self.global_id + "\n"@
    }
}

/// A name of one module and the identifier it is known by everywhere.
#[derive(Debug)]
pub struct Id {
    pub kind: IdKind,
    pub module_id: String,
    pub local_id: String,
    pub global_id: String,
}

impl View for Id {
    type V = IdView;

    open spec fn view(&self) -> IdView {
        IdView {
            kind: self.kind,
            module_id: self.module_id@,
            local_id: self.local_id@,
            global_id: self.global_id@,
        }
    }
}

impl Id {
    pub fn new(kind: IdKind, module_id: String, local_id: String, global_id: String) -> (id: Self)
        ensures
            id.kind == kind,
            id.module_id == module_id,
            id.local_id == local_id,
            id.global_id == global_id,
    {
        Self { kind, module_id, local_id, global_id }
    }

    /// A copy of the identifier.
    pub fn duplicate(&self) -> (id: Self)
        ensures
            id == *self,
    {
        Self {
            kind: self.kind,
            module_id: self.module_id.clone(),
            local_id: self.local_id.clone(),
            global_id: self.global_id.clone(),
        }
    }

    /// The identifier as an error message shows it.
    pub fn to_text(&self) -> (s: String)
        ensures
            s@ == self@.text(),
    {
        let mut s = self.module_id.clone();
        s.append(",");
        s.append(self.kind.name());
        s.append(",");
        s.append(self.local_id.as_str());
        s.append(",");
        s.append(self.global_id.as_str());
        s.append("\n");
        assert(s@ =~= self@.text());
        s
    }
}

} // verus!
