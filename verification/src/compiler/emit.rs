use crate::class_map::{ClassMap, ClassMapOutput, ClassMapView, MAX_STATES};
use crate::compiler::module::{class_map_views, ModuleCompiler};
use crate::compiler::scope::{ModuleScope, ModuleScopeView};
use crate::css_map::{module_views, CssMap, CssMapModule, CssMapModuleView};
use crate::id::{Entry, Id, IdTable, IdView};
use crate::text::{chars_of, str_eq};
use vstd::prelude::*;
use vstd::string::StringExecFns;

verus! {

/// Whether `a` comes before `b` in the order of a dictionary, letters being
/// ordered by their code points.
pub open spec fn lex_less(a: Seq<char>, b: Seq<char>) -> bool
    decreases a.len(),
{
    if b.len() == 0 {
        false
    } else if a.len() == 0 {
        true
    } else if a[0] != b[0] {
        a[0] < b[0]
    } else {
        lex_less(a.drop_first(), b.drop_first())
    }
}

fn key_less(a: &Vec<char>, b: &Vec<char>) -> (r: bool)
    ensures
        r == lex_less(a@, b@),
{
    let mut i: usize = 0;
    proof {
        assert(a@.skip(0) =~= a@);
        assert(b@.skip(0) =~= b@);
    }
    loop
        invariant
            i <= a.len(),
            i <= b.len(),
            lex_less(a@, b@) == lex_less(a@.skip(i as int), b@.skip(i as int)),
        decreases a.len() - i,
    {
        if i >= b.len() {
            return false;
        }
        if i >= a.len() {
            return true;
        }
        proof {
            assert(a@.skip(i as int)[0] == a@[i as int]);
            assert(b@.skip(i as int)[0] == b@[i as int]);
            assert(a@.skip(i as int).drop_first() =~= a@.skip(i + 1));
            assert(b@.skip(i as int).drop_first() =~= b@.skip(i + 1));
        }
        if a[i] != b[i] {
            return a[i] < b[i];
        }
        i += 1;
    }
}

/// `sorted` with one more entry, which stands behind the entries that do
/// not come after it.
pub open spec fn insert_sorted(sorted: Seq<Entry>, entry: Entry) -> Seq<Entry>
    decreases sorted.len(),
{
    if sorted.len() == 0 {
        seq![entry]
    } else if lex_less(entry.0, sorted.last().0) {
        insert_sorted(sorted.drop_last(), entry).push(sorted.last())
    } else {
        sorted.push(entry)
    }
}

/// The entries in the order of their names.
pub open spec fn sorted_by_key(entries: Seq<Entry>) -> Seq<Entry>
    decreases entries.len(),
{
    if entries.len() == 0 {
        Seq::empty()
    } else {
        insert_sorted(sorted_by_key(entries.drop_last()), entries.last())
    }
}

/// Whether no entry comes before the one that stands before it.
pub open spec fn ordered(entries: Seq<Entry>) -> bool {
    forall|i: int, j: int|
        0 <= i < j < entries.len() ==> !lex_less((#[trigger] entries[j]).0, (#[trigger] entries[i]).0)
}

/// No text comes before itself, and of two texts at most one comes before
/// the other.
pub proof fn lemma_lex_asymmetric(a: Seq<char>, b: Seq<char>)
    ensures
        !(lex_less(a, b) && lex_less(b, a)),
    decreases a.len(),
{
    if a.len() > 0 && b.len() > 0 && a[0] == b[0] {
        lemma_lex_asymmetric(a.drop_first(), b.drop_first());
    }
}

/// Of two different texts one comes before the other.
pub proof fn lemma_lex_total(a: Seq<char>, b: Seq<char>)
    requires
        a != b,
    ensures
        lex_less(a, b) || lex_less(b, a),
    decreases a.len(),
{
    if a.len() > 0 && b.len() > 0 && a[0] == b[0] {
        if a.drop_first() == b.drop_first() {
            assert(a =~= seq![a[0]] + a.drop_first());
            assert(b =~= seq![b[0]] + b.drop_first());
        } else {
            lemma_lex_total(a.drop_first(), b.drop_first());
        }
    } else if a.len() == 0 && b.len() == 0 {
        assert(a =~= b);
    }
}

/// What comes before a text comes before all that this text comes before.
pub proof fn lemma_lex_transitive(a: Seq<char>, b: Seq<char>, c: Seq<char>)
    requires
        lex_less(a, b),
        lex_less(b, c),
    ensures
        lex_less(a, c),
    decreases a.len(),
{
    if a.len() > 0 && b.len() > 0 && c.len() > 0 && a[0] == b[0] && b[0] == c[0] {
        lemma_lex_transitive(a.drop_first(), b.drop_first(), c.drop_first());
    }
}

/// Putting an entry in its place adds this entry and no other.
pub proof fn lemma_insert_sorted_holds(sorted: Seq<Entry>, entry: Entry)
    ensures
        insert_sorted(sorted, entry).len() == sorted.len() + 1,
        forall|x: Entry| #[trigger]
            insert_sorted(sorted, entry).contains(x) <==> sorted.contains(x) || x == entry,
    decreases sorted.len(),
{
    let result = insert_sorted(sorted, entry);
    if sorted.len() == 0 {
        assert(result[0] == entry);
        assert forall|x: Entry| #[trigger] result.contains(x) <==> sorted.contains(x) || x
            == entry by {}
    } else if lex_less(entry.0, sorted.last().0) {
        let rest = sorted.drop_last();
        let inner = insert_sorted(rest, entry);
        lemma_insert_sorted_holds(rest, entry);
        assert forall|x: Entry| #[trigger] result.contains(x) <==> sorted.contains(x) || x
            == entry by {
            if result.contains(x) {
                let k = choose|k: int| 0 <= k < result.len() && result[k] == x;
                if k < inner.len() {
                    assert(inner[k] == x);
                    assert(inner.contains(x));
                    if rest.contains(x) {
                        let r = choose|r: int| 0 <= r < rest.len() && rest[r] == x;
                        assert(sorted[r] == x);
                    }
                } else {
                    assert(sorted[sorted.len() - 1] == x);
                }
            }
            if sorted.contains(x) || x == entry {
                if x == entry {
                    assert(inner.contains(x));
                    let r = choose|r: int| 0 <= r < inner.len() && inner[r] == x;
                    assert(result[r] == x);
                } else {
                    let r = choose|r: int| 0 <= r < sorted.len() && sorted[r] == x;
                    if r < rest.len() {
                        assert(rest[r] == x);
                        assert(rest.contains(x));
                        assert(inner.contains(x));
                        let q = choose|q: int| 0 <= q < inner.len() && inner[q] == x;
                        assert(result[q] == x);
                    } else {
                        assert(result[result.len() - 1] == x);
                    }
                }
            }
        }
    } else {
        assert forall|x: Entry| #[trigger] result.contains(x) <==> sorted.contains(x) || x
            == entry by {
            if result.contains(x) {
                let k = choose|k: int| 0 <= k < result.len() && result[k] == x;
                if k < sorted.len() {
                    assert(sorted[k] == x);
                }
            }
            if sorted.contains(x) {
                let r = choose|r: int| 0 <= r < sorted.len() && sorted[r] == x;
                assert(result[r] == x);
            }
            if x == entry {
                assert(result[result.len() - 1] == x);
            }
        }
    }
}

/// Putting an entry in its place keeps the entries in order.
pub proof fn lemma_insert_sorted_ordered(sorted: Seq<Entry>, entry: Entry)
    requires
        ordered(sorted),
    ensures
        ordered(insert_sorted(sorted, entry)),
    decreases sorted.len(),
{
    let result = insert_sorted(sorted, entry);
    if sorted.len() == 0 {
    } else if lex_less(entry.0, sorted.last().0) {
        let rest = sorted.drop_last();
        let inner = insert_sorted(rest, entry);
        assert(ordered(rest)) by {
            assert forall|i: int, j: int| 0 <= i < j < rest.len() implies !lex_less(
                (#[trigger] rest[j]).0,
                (#[trigger] rest[i]).0,
            ) by {
                assert(rest[i] == sorted[i]);
                assert(rest[j] == sorted[j]);
            }
        }
        lemma_insert_sorted_ordered(rest, entry);
        lemma_insert_sorted_holds(rest, entry);
        assert forall|i: int, j: int| 0 <= i < j < result.len() implies !lex_less(
            (#[trigger] result[j]).0,
            (#[trigger] result[i]).0,
        ) by {
            if j < inner.len() {
                assert(result[i] == inner[i]);
                assert(result[j] == inner[j]);
            } else {
                assert(result[j] == sorted.last());
                assert(result[i] == inner[i]);
                assert(inner.contains(inner[i]));
                if inner[i] == entry {
                    lemma_lex_asymmetric(entry.0, sorted.last().0);
                } else {
                    let r = choose|r: int| 0 <= r < rest.len() && rest[r] == inner[i];
                    assert(sorted[r] == inner[i]);
                    assert(!lex_less(sorted[sorted.len() - 1].0, sorted[r].0));
                }
            }
        }
    } else {
        assert forall|i: int, j: int| 0 <= i < j < result.len() implies !lex_less(
            (#[trigger] result[j]).0,
            (#[trigger] result[i]).0,
        ) by {
            if j < sorted.len() {
                assert(result[i] == sorted[i]);
                assert(result[j] == sorted[j]);
            } else {
                assert(result[j] == entry);
                assert(result[i] == sorted[i]);
                let last = sorted[sorted.len() - 1];
                if lex_less(entry.0, sorted[i].0) {
                    // the last entry does not come after `entry`, and no entry comes after the last
                    if i < sorted.len() - 1 {
                        assert(!lex_less(last.0, sorted[i].0));
                    }
                    if last.0 == entry.0 {
                    } else {
                        lemma_lex_total(last.0, entry.0);
                        if sorted[i].0 != last.0 {
                            lemma_lex_total(sorted[i].0, last.0);
                            lemma_lex_transitive(entry.0, sorted[i].0, last.0);
                        }
                    }
                }
            }
        }
    }
}

/// The sorted entries are the entries, each once, in the order of their
/// names.
pub proof fn lemma_sorted_by_key(entries: Seq<Entry>)
    ensures
        ordered(sorted_by_key(entries)),
        sorted_by_key(entries).len() == entries.len(),
        forall|x: Entry| #[trigger] sorted_by_key(entries).contains(x) <==> entries.contains(x),
    decreases entries.len(),
{
    let sorted = sorted_by_key(entries);
    if entries.len() == 0 {
        assert forall|x: Entry| #[trigger] sorted.contains(x) <==> entries.contains(x) by {}
    } else {
        let rest = entries.drop_last();
        lemma_sorted_by_key(rest);
        lemma_insert_sorted_ordered(sorted_by_key(rest), entries.last());
        lemma_insert_sorted_holds(sorted_by_key(rest), entries.last());
        assert forall|x: Entry| #[trigger] sorted.contains(x) <==> entries.contains(x) by {
            if entries.contains(x) {
                let r = choose|r: int| 0 <= r < entries.len() && entries[r] == x;
                if r < rest.len() {
                    assert(rest[r] == x);
                    assert(rest.contains(x));
                }
            }
            if rest.contains(x) {
                let r = choose|r: int| 0 <= r < rest.len() && rest[r] == x;
                assert(entries[r] == x);
            }
            if x == entries.last() {
                assert(entries[entries.len() - 1] == x);
            }
        }
    }
}

proof fn lemma_insert_at(sorted: Seq<Entry>, entry: Entry, j: int)
    requires
        0 <= j <= sorted.len(),
        forall|k: int| j <= k < sorted.len() ==> lex_less(entry.0, (#[trigger] sorted[k]).0),
        j > 0 ==> !lex_less(entry.0, sorted[j - 1].0),
    ensures
        insert_sorted(sorted, entry) == sorted.insert(j, entry),
    decreases sorted.len(),
{
    if sorted.len() == 0 {
        assert(sorted.insert(j, entry) =~= seq![entry]);
    } else if j == sorted.len() {
        assert(sorted.insert(j, entry) =~= sorted.push(entry));
    } else {
        let rest = sorted.drop_last();
        assert(lex_less(entry.0, sorted[sorted.len() - 1].0));
        assert forall|k: int| j <= k < rest.len() implies lex_less(entry.0, (#[trigger] rest[k]).0) by {
            assert(rest[k] == sorted[k]);
        }
        if j > 0 {
            assert(rest[j - 1] == sorted[j - 1]);
        }
        lemma_insert_at(rest, entry, j);
        assert(rest.insert(j, entry).push(sorted.last()) =~= sorted.insert(j, entry));
    }
}

/// The entries at the places that `order` lists.
pub open spec fn entries_at(entries: Seq<Entry>, order: Seq<usize>) -> Seq<Entry> {
    Seq::new(order.len(), |k: int| entries[order[k] as int])
}

/// The places of the entries of a table in the order of their names.
pub fn sorted_order(table: &IdTable) -> (order: Vec<usize>)
    requires
        table.wf(),
    ensures
        order@.len() == table@.len(),
        forall|k: int| 0 <= k < order@.len() ==> (#[trigger] order@[k]) < table@.len(),
        entries_at(table@, order@) == sorted_by_key(table@),
{
    let n = table.len();
    let mut keys: Vec<Vec<char>> = Vec::new();
    let mut i: usize = 0;
    while i < n
        invariant
            i <= n,
            n == table@.len(),
            table.wf(),
            keys.len() == i,
            forall|k: int| 0 <= k < i ==> (#[trigger] keys@[k])@ == table@[k].0,
        decreases n - i,
    {
        keys.push(chars_of(table.key_at(i).as_str()));
        i += 1;
    }
    let mut order: Vec<usize> = Vec::new();
    let mut i: usize = 0;
    proof {
        assert(table@.take(0) =~= Seq::<Entry>::empty());
        assert(entries_at(table@, order@) =~= Seq::<Entry>::empty());
    }
    while i < n
        invariant
            i <= n,
            n == table@.len(),
            keys.len() == n,
            forall|k: int| 0 <= k < n ==> (#[trigger] keys@[k])@ == table@[k].0,
            order@.len() == i,
            forall|k: int| 0 <= k < order@.len() ==> (#[trigger] order@[k]) < n,
            entries_at(table@, order@) == sorted_by_key(table@.take(i as int)),
        decreases n - i,
    {
        let ghost sorted = entries_at(table@, order@);
        let ghost entry = table@[i as int];
        let mut j: usize = order.len();
        while j > 0 && key_less(&keys[i], &keys[order[j - 1]])
            invariant
                j <= order@.len(),
                i < n,
                n == table@.len(),
                keys.len() == n,
                forall|k: int| 0 <= k < n ==> (#[trigger] keys@[k])@ == table@[k].0,
                forall|k: int| 0 <= k < order@.len() ==> (#[trigger] order@[k]) < n,
                sorted == entries_at(table@, order@),
                entry == table@[i as int],
                forall|k: int| j <= k < sorted.len() ==> lex_less(entry.0, (#[trigger] sorted[k]).0),
            decreases j,
        {
            j -= 1;
        }
        proof {
            if j > 0 {
                assert(sorted[j - 1] == table@[order@[j - 1] as int]);
            }
            lemma_insert_at(sorted, entry, j as int);
            assert(table@.take(i + 1).drop_last() =~= table@.take(i as int));
            assert(table@.take(i + 1).last() == entry);
        }
        order.insert(j, i);
        proof {
            assert(entries_at(table@, order@) =~= sorted.insert(j as int, entry));
        }
        i += 1;
    }
    proof {
        assert(table@.take(n as int) =~= table@);
    }
    order
}

/// The comment that stands above a name in the declarations: for a name of
/// the module its kind, for a name of another module also that module, and
/// the name that it has there where that is another one.
pub open spec fn id_comment(key: Seq<char>, id: IdView, module_index: u32, modules: Seq<
    CssMapModuleView,
>) -> Seq<char> {
    if id.module_index == module_index {
        "/** "@ + id.kind.name_text() + " {@link "@ + key + "} */\n"@
    } else if key == id.local_id {
        "/** extern "@ + id.kind.name_text() + " {@link "@ + key + "} from '"@
            + modules[id.module_index as int].id + "' */\n"@
    } else {
        "/** extern "@ + id.kind.name_text() + " "@ + id.local_id + " as {@link "@ + key
            + "} from '"@ + modules[id.module_index as int].id + "' */\n"@
    }
}

/// Appends the comment that stands above a name in the declarations.
pub fn emit_id_comment(
    output: &mut String,
    key: &str,
    id: &Id,
    module_index: u32,
    modules: &Vec<CssMapModule>,
)
    requires
        id.module_index == module_index || id.module_index < modules.len(),
    ensures
        final(output)@ == old(output)@ + id_comment(key@, id@, module_index, module_views(modules@)),
{
    if id.module_index == module_index {
        output.append("/** ");
        output.append(id.kind.name());
        output.append(" {@link ");
        output.append(key);
        output.append("} */\n");
        assert(output@ =~= old(output)@ + id_comment(
            key@,
            id@,
            module_index,
            module_views(modules@),
        ));
    } else {
        let module = &modules[id.module_index as usize];
        assert(module_views(modules@)[id.module_index as int].id == module.id@);
        if str_eq(key, id.local_id.as_str()) {
            output.append("/** extern ");
            output.append(id.kind.name());
            output.append(" {@link ");
            output.append(key);
            output.append("} from '");
            output.append(module.id.as_str());
            output.append("' */\n");
            assert(output@ =~= old(output)@ + id_comment(
                key@,
                id@,
                module_index,
                module_views(modules@),
            ));
        } else {
            let mut line = String::from_str("/** extern ");
            line.append(id.kind.name());
            line.append(" ");
            line.append(id.local_id.as_str());
            line.append(" as {@link ");
            line.append(key);
            let mut tail = String::from_str("} from '");
            tail.append(module.id.as_str());
            tail.append("' */\n");
            output.append(line.as_str());
            output.append(tail.as_str());
            assert(output@ =~= old(output)@ + id_comment(
                key@,
                id@,
                module_index,
                module_views(modules@),
            ));
        }
    }
}

/// The line of a name in the declarations, with the comment above it.
pub open spec fn entry_lines(entry: Entry, module_index: u32, modules: Seq<CssMapModuleView>) -> Seq<
    char,
> {
    "  "@ + id_comment(entry.0, entry.1, module_index, modules) + "  "@ + entry.0 + " = \""@
        + entry.1.global_id + "\",\n"@
}

/// The lines of the first `n` names.
pub open spec fn entries_lines(entries: Seq<Entry>, n: int, module_index: u32, modules: Seq<
    CssMapModuleView,
>) -> Seq<char>
    decreases n,
{
    if n <= 0 {
        Seq::empty()
    } else {
        entries_lines(entries, n - 1, module_index, modules) + entry_lines(
            entries[n - 1],
            module_index,
            modules,
        )
    }
}

/// The enumeration of the names of one kind, in the order of the names.
pub open spec fn enumeration(
    head: Seq<char>,
    entries: Seq<Entry>,
    module_index: u32,
    modules: Seq<CssMapModuleView>,
) -> Seq<char> {
    head + entries_lines(
        sorted_by_key(entries),
        sorted_by_key(entries).len() as int,
        module_index,
        modules,
    ) + "}\n"@
}

/// Whether each entry belongs to one of the first `modules` modules.
pub open spec fn entries_within(entries: Seq<Entry>, modules: nat) -> bool {
    forall|i: int| 0 <= i < entries.len() ==> (#[trigger] entries[i]).1.module_index < modules
}

fn emit_enumeration(
    output: &mut String,
    head: &str,
    table: &IdTable,
    module_index: u32,
    modules: &Vec<CssMapModule>,
)
    requires
        table.wf(),
        entries_within(table@, modules@.len()),
    ensures
        final(output)@ == old(output)@ + enumeration(
            head@,
            table@,
            module_index,
            module_views(modules@),
        ),
{
    let order = sorted_order(table);
    let ghost sorted = sorted_by_key(table@);
    let ghost views = module_views(modules@);
    let mut lines = String::new();
    let mut k: usize = 0;
    while k < order.len()
        invariant
            k <= order.len(),
            table.wf(),
            entries_within(table@, modules@.len()),
            order@.len() == table@.len(),
            forall|j: int| 0 <= j < order@.len() ==> (#[trigger] order@[j]) < table@.len(),
            sorted == entries_at(table@, order@),
            views == module_views(modules@),
            lines@ == entries_lines(sorted, k as int, module_index, views),
        decreases order.len() - k,
    {
        let at = order[k];
        let key = table.key_at(at);
        let id = table.id_at(at);
        assert(sorted[k as int] == table@[at as int]);
        let mut line = String::from_str("  ");
        emit_id_comment(&mut line, key.as_str(), id, module_index, modules);
        line.append("  ");
        line.append(key.as_str());
        line.append(" = \"");
        line.append(id.global_id.as_str());
        line.append("\",\n");
        assert(line@ =~= entry_lines(sorted[k as int], module_index, views));
        lines.append(line.as_str());
        k += 1;
    }
    output.append(head);
    output.append(lines.as_str());
    output.append("}\n");
}

/// The declarations of the class maps from `i` on.
pub open spec fn class_maps_ts(class_maps: Seq<ClassMapView>, n: int) -> Seq<char>
    decreases n,
{
    if n <= 0 {
        Seq::empty()
    } else {
        class_maps_ts(class_maps, n - 1) + class_maps[n - 1].ts()
    }
}

/// The functions of the first `n` class maps.
pub open spec fn class_maps_js(class_maps: Seq<ClassMapView>, kind: ClassMapOutput, n: int) -> Seq<
    char,
>
    decreases n,
{
    if n <= 0 {
        Seq::empty()
    } else {
        class_maps_js(class_maps, kind, n - 1) + class_maps[n - 1].js(kind)
    }
}

/// The declarations of a module: the three enumerations of its names, each
/// in the order of the names, and the functions of its class maps.
pub open spec fn ts_text(scope: ModuleScopeView, class_maps: Seq<ClassMapView>, modules: Seq<
    CssMapModuleView,
>) -> Seq<char> {
    enumeration(
        "/** class names */\nexport const enum c {\n"@,
        scope.classes,
        scope.module_index,
        modules,
    ) + enumeration("/** vars */\nexport const enum v {\n"@, scope.vars, scope.module_index, modules)
        + enumeration(
        "/** keyframes */\nexport const enum k {\n"@,
        scope.keyframes,
        scope.module_index,
        modules,
    ) + (if class_maps.len() > 0 {
        "\n"@ + class_maps_ts(class_maps, class_maps.len() as int)
    } else {
        Seq::empty()
    })
}

/// Appends the declarations of a module.
pub fn emit_ts(
    output: &mut String,
    scope: &ModuleScope,
    class_maps: &Vec<ClassMap>,
    modules: &Vec<CssMapModule>,
)
    requires
        scope.wf(),
        scope@.within(modules@.len()),
    ensures
        final(output)@ == old(output)@ + ts_text(
            scope@,
            class_map_views(class_maps@),
            module_views(modules@),
        ),
{
    proof {
        assert(scope@.table(crate::idmap::IdKind::Class) == scope@.classes);
        assert(scope@.table(crate::idmap::IdKind::Var) == scope@.vars);
        assert(scope@.table(crate::idmap::IdKind::Keyframes) == scope@.keyframes);
        assert(entries_within(scope@.classes, modules@.len())) by {
            assert forall|i: int| 0 <= i < scope@.classes.len() implies (
            #[trigger] scope@.classes[i]).1.module_index < modules@.len() by {
                assert(scope@.table(crate::idmap::IdKind::Class)[i].1.module_index < modules@.len());
            }
        }
        assert(entries_within(scope@.vars, modules@.len())) by {
            assert forall|i: int| 0 <= i < scope@.vars.len() implies (
            #[trigger] scope@.vars[i]).1.module_index < modules@.len() by {
                assert(scope@.table(crate::idmap::IdKind::Var)[i].1.module_index < modules@.len());
            }
        }
        assert(entries_within(scope@.keyframes, modules@.len())) by {
            assert forall|i: int| 0 <= i < scope@.keyframes.len() implies (
            #[trigger] scope@.keyframes[i]).1.module_index < modules@.len() by {
                assert(scope@.table(crate::idmap::IdKind::Keyframes)[i].1.module_index
                    < modules@.len());
            }
        }
    }
    emit_enumeration(
        output,
        "/** class names */\nexport const enum c {\n",
        &scope.classes,
        scope.module_index,
        modules,
    );
    emit_enumeration(
        output,
        "/** vars */\nexport const enum v {\n",
        &scope.vars,
        scope.module_index,
        modules,
    );
    emit_enumeration(
        output,
        "/** keyframes */\nexport const enum k {\n",
        &scope.keyframes,
        scope.module_index,
        modules,
    );
    let ghost views = class_map_views(class_maps@);
    let mut tail = String::new();
    if class_maps.len() > 0 {
        tail.push('\n');
        let ghost head = tail@;
        let mut k: usize = 0;
        while k < class_maps.len()
            invariant
                k <= class_maps.len(),
                views == class_map_views(class_maps@),
                tail@ == head + class_maps_ts(views, k as int),
            decreases class_maps.len() - k,
        {
            assert(views[k as int] == class_maps@[k as int]@);
            class_maps[k].emit_ts(&mut tail);
            k += 1;
        }
        proof {
            reveal_strlit("\n");
            assert(head =~= "\n"@);
        }
    }
    output.append(tail.as_str());
    assert(output@ =~= old(output)@ + ts_text(scope@, views, module_views(modules@)));
}

/// Appends the functions of the class maps of a module.
pub fn emit_js(output: &mut String, class_maps: &Vec<ClassMap>, class_map_output: ClassMapOutput)
    requires
        forall|i: int|
            0 <= i < class_maps@.len() ==> (#[trigger] class_maps@[i])@.states.len() <= MAX_STATES,
    ensures
        final(output)@ == old(output)@ + class_maps_js(
            class_map_views(class_maps@),
            class_map_output,
            class_maps@.len() as int,
        ),
{
    let ghost views = class_map_views(class_maps@);
    let mut k: usize = 0;
    while k < class_maps.len()
        invariant
            k <= class_maps.len(),
            views == class_map_views(class_maps@),
            forall|i: int|
                0 <= i < class_maps@.len() ==> (#[trigger] class_maps@[i])@.states.len()
                    <= MAX_STATES,
            output@ == old(output)@ + class_maps_js(views, class_map_output, k as int),
        decreases class_maps.len() - k,
    {
        assert(views[k as int] == class_maps@[k as int]@);
        class_maps[k].emit_js(output, class_map_output);
        k += 1;
    }
}

/// What the compilation of a module gives: the style sheet, the functions of
/// its class maps and the declarations of its names.
#[derive(Debug)]
pub struct CompilationArtifact {
    pub css: String,
    pub js: String,
    pub ts: String,
}

impl ModuleCompiler {
    /// Ends the compilation of a module whose style sheet was written out as
    /// `css`. There is no artifact where a diagnostic was raised.
    pub fn finish(&self, css_map: &CssMap, css: String, class_map_output: ClassMapOutput) -> (r:
        Option<CompilationArtifact>)
        requires
            self.fits(css_map),
        ensures
            r is None <==> self@.diagnostics.len() > 0,
            r matches Some(artifact) ==> {
                &&& artifact.css == css
                &&& artifact.js@ == class_maps_js(
                    self@.class_maps,
                    class_map_output,
                    self@.class_maps.len() as int,
                )
                &&& artifact.ts@ == ts_text(self@.scope, self@.class_maps, css_map@.modules)
            },
    {
        if self.has_errors() {
            return None;
        }
        let mut js = String::new();
        proof {
            assert forall|i: int| 0 <= i < self.class_maps@.len() implies (
            #[trigger] self.class_maps@[i])@.states.len() <= MAX_STATES by {
                assert(self@.class_maps[i] == self.class_maps@[i]@);
            }
        }
        emit_js(&mut js, &self.class_maps, class_map_output);
        let mut ts = String::new();
        emit_ts(&mut ts, &self.scope, &self.class_maps, css_map.modules());
        proof {
            assert(js@ =~= class_maps_js(
                self@.class_maps,
                class_map_output,
                self@.class_maps.len() as int,
            ));
            assert(ts@ =~= ts_text(self@.scope, self@.class_maps, css_map@.modules));
        }
        Some(CompilationArtifact { css, js, ts })
    }
}

} // verus!
