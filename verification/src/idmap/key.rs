use crate::idmap::id::IdKind;
use crate::idmap::parser::Field;
use vstd::prelude::*;
use vstd::string::StringExecFns;

verus! {

/// The text that stands for a local name of a kind in a module: the start of
/// its row, up to the local name.
pub open spec fn name_key(kind: IdKind, module_id: Seq<char>, local_id: Seq<char>) -> Seq<char> {
    seq![kind.letter()] + ","@ + module_id + ","@ + local_id
}

/// Different names have different keys, where the names of the modules fit
/// the grammar: no comma stands in them.
pub proof fn lemma_name_key_injective(
    k1: IdKind,
    m1: Seq<char>,
    l1: Seq<char>,
    k2: IdKind,
    m2: Seq<char>,
    l2: Seq<char>,
)
    requires
        Field::Module.accepts(m1),
        Field::Module.accepts(m2),
        name_key(k1, m1, l1) == name_key(k2, m2, l2),
    ensures
        k1 == k2,
        m1 == m2,
        l1 == l2,
{
    reveal_strlit(",");
    let a = name_key(k1, m1, l1);
    let b = name_key(k2, m2, l2);
    let n1 = m1.len() as int;
    let n2 = m2.len() as int;
    assert(a[0] == k1.letter());
    assert(b[0] == k2.letter());
    assert(a.len() == 3 + m1.len() + l1.len());
    assert(b.len() == 3 + m2.len() + l2.len());
    assert forall|i: int| 0 <= i < m1.len() implies a[2 + i] == #[trigger] m1[i] by {}
    assert forall|i: int| 0 <= i < m2.len() implies b[2 + i] == #[trigger] m2[i] by {}
    assert(a[2 + n1] == ',');
    assert(b[2 + n2] == ',');
    if n1 < n2 {
        assert(b[2 + n1] == m2[n1]);
        assert(Field::Module.continues(m2[n1]));
    }
    if n2 < n1 {
        assert(a[2 + n2] == m1[n2]);
        assert(Field::Module.continues(m1[n2]));
    }
    assert(m1 =~= m2);
    assert forall|i: int| 0 <= i < l1.len() implies a[3 + n1 + i] == #[trigger] l1[i] by {}
    assert forall|i: int| 0 <= i < l2.len() implies b[3 + n2 + i] == #[trigger] l2[i] by {}
    assert(l1 =~= l2);
}

/// The key of a name.
pub fn name_key_of(kind: IdKind, module_id: &str, local_id: &str) -> (key: String)
    ensures
        key@ == name_key(kind, module_id@, local_id@),
{
    let mut key = String::new();
    key.push(kind.to_letter());
    key.append(",");
    key.append(module_id);
    key.append(",");
    key.append(local_id);
    assert(key@ =~= name_key(kind, module_id@, local_id@));
    key
}

} // verus!
