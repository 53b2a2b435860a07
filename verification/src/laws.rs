use crate::css_map::{
    lemma_module_position_is_module, lemma_module_position_names,
    lemma_module_position_none_push, module_position, row, CssMapModuleView, CssMapView,
    ImportOutcome,
};
use crate::id::IdView;
use crate::idmap::parser::{
    run_end, scan_field, scan_kind, scan_row, Field, FieldScan, KindScan, RowScan,
};
use crate::idmap::IdKind;
use vstd::prelude::*;

verus! {

/// One row of a persistent map.
pub struct Row {
    pub kind: IdKind,
    pub module_id: Seq<char>,
    pub local_id: Seq<char>,
    pub global_id: Seq<char>,
}

impl Row {
    /// The row as it is written.
    pub open spec fn text(self) -> Seq<char> {
        row(self.kind, self.module_id, self.local_id, self.global_id)
    }

    /// Whether the three names of the row fit the grammar of their fields.
    pub open spec fn fits(self) -> bool {
        &&& Field::Module.accepts(self.module_id)
        &&& Field::Local.accepts(self.local_id)
        &&& Field::Global.accepts(self.global_id)
    }

    /// Whether two rows give the same local name of the same kind in the
    /// same module.
    pub open spec fn same_name(self, other: Row) -> bool {
        &&& self.kind == other.kind
        &&& self.module_id == other.module_id
        &&& self.local_id == other.local_id
    }
}

/// The rows as they are written, one after the other.
pub open spec fn text_of(rows: Seq<Row>) -> Seq<char>
    decreases rows.len(),
{
    if rows.len() == 0 {
        Seq::empty()
    } else {
        rows[0].text() + text_of(rows.drop_first())
    }
}

proof fn lemma_run_end_exact(text: Seq<char>, p: int, e: int, field: Field)
    requires
        0 <= p <= e < text.len(),
        forall|k: int| p <= k < e ==> field.continues(#[trigger] text[k]),
        !field.continues(text[e]),
    ensures
        run_end(text, p, field) == e,
    decreases e - p,
{
    if p < e {
        lemma_run_end_exact(text, p + 1, e, field);
    }
}

proof fn lemma_field_scans_back(text: Seq<char>, row: int, p: int, value: Seq<char>, field: Field)
    requires
        0 <= p,
        p + value.len() < text.len(),
        field.accepts(value),
        text.subrange(p, p + value.len()) == value,
        text[p + value.len()] == field.terminator(),
    ensures
        scan_field(text, row, p, field) == (FieldScan::Found { value, next: p + value.len() + 1 }),
{
    let e = p + value.len();
    assert(text[p] == value[0]);
    assert forall|k: int| p + 1 <= k < e implies field.continues(#[trigger] text[k]) by {
        assert(text[k] == value[k - p]);
    }
    lemma_run_end_exact(text, p + 1, e, field);
}

/// A row that was written is read back as it was written, whatever stands
/// before and after it, where its names fit the grammar of their fields.
pub proof fn lemma_row_scans_back(before: Seq<char>, r: Row, after: Seq<char>)
    requires
        r.fits(),
    ensures
        scan_row(before + r.text() + after, before.len() as int) == (RowScan::Row {
            kind: r.kind,
            module_id: r.module_id,
            local_id: r.local_id,
            global_id: r.global_id,
            next: (before.len() + r.text().len()) as int,
        }),
{
    reveal_strlit(",");
    reveal_strlit("\n");
    let line = r.text();
    let text = before + line + after;
    let p = before.len() as int;
    let m = p + 2;
    let l = m + r.module_id.len() + 1;
    let g = l + r.local_id.len() + 1;
    assert(line.len() == g - p + r.global_id.len() + 1);
    assert(text[p] == line[0]);
    assert(text[p + 1] == line[1]);
    assert(scan_kind(text, p) == (KindScan::Found { kind: r.kind, next: m }));
    assert(text.subrange(m, m + r.module_id.len()) =~= r.module_id);
    assert(text[m + r.module_id.len()] == line[m - p + r.module_id.len()]);
    lemma_field_scans_back(text, p, m, r.module_id, Field::Module);
    assert(text.subrange(l, l + r.local_id.len()) =~= r.local_id);
    assert(text[l + r.local_id.len()] == line[l - p + r.local_id.len()]);
    lemma_field_scans_back(text, p, l, r.local_id, Field::Local);
    assert(text.subrange(g, g + r.global_id.len()) =~= r.global_id);
    assert(text[g + r.global_id.len()] == line[g - p + r.global_id.len()]);
    lemma_field_scans_back(text, p, g, r.global_id, Field::Global);
}

/// The identifier that a map holds for the name of a row.
pub open spec fn held(map: CssMapView, r: Row) -> Option<IdView> {
    match module_position(map.modules, r.module_id) {
        Some(m) => map.lookup(m, r.kind, r.local_id),
        None => None,
    }
}

/// The map after a row was taken in.
pub open spec fn with_row(map: CssMapView, r: Row) -> CssMapView {
    map.imported(r.kind, r.module_id, r.local_id, r.global_id)
}

/// The map after the rows were taken in, one after the other.
pub open spec fn with_rows(map: CssMapView, rows: Seq<Row>) -> CssMapView
    decreases rows.len(),
{
    if rows.len() == 0 {
        map
    } else {
        with_rows(with_row(map, rows[0]), rows.drop_first())
    }
}

/// Whether each row fits the grammar.
pub open spec fn all_fit(rows: Seq<Row>) -> bool {
    forall|i: int| 0 <= i < rows.len() ==> (#[trigger] rows[i]).fits()
}

/// Whether no two rows give the same name.
pub open spec fn distinct_names(rows: Seq<Row>) -> bool {
    forall|i: int, j: int|
        0 <= i < rows.len() && 0 <= j < rows.len() && i != j ==> !(#[trigger] rows[i]).same_name(
            #[trigger] rows[j],
        )
}

/// Whether the map holds the name of none of the rows.
pub open spec fn none_held(map: CssMapView, rows: Seq<Row>) -> bool {
    forall|i: int| 0 <= i < rows.len() ==> held(map, #[trigger] rows[i]) is None
}

proof fn lemma_position_push_other(
    modules: Seq<CssMapModuleView>,
    module: CssMapModuleView,
    name: Seq<char>,
)
    requires
        module.id != name,
    ensures
        module_position(modules.push(module), name) == module_position(modules, name),
{
    assert(modules.push(module).drop_last() =~= modules);
}

/// Asking for a module changes nothing that a map holds.
proof fn lemma_with_module_holds(map: CssMapView, name: Seq<char>, r: Row)
    ensures
        held(map.with_module(name), r) == held(map, r),
{
    let with = map.with_module(name);
    if module_position(map.modules, name) is None {
        let module = CssMapModuleView::fresh(name, map.modules.len() as u32);
        if r.module_id == name {
            lemma_module_position_none_push(map.modules, name);
            assert(with.modules[map.modules.len() as int] == module);
        } else {
            lemma_position_push_other(map.modules, module, r.module_id);
            if module_position(map.modules, r.module_id) is Some {
                lemma_module_position_is_module(map.modules, r.module_id);
                let k = module_position(map.modules, r.module_id)->0;
                assert(with.modules[k] == map.modules[k]);
            }
        }
    }
}

/// A row gives a local name again exactly where the map holds its name.
pub proof fn lemma_duplicate_is_held(map: CssMapView, r: Row)
    ensures
        ({
            let with = map.with_module(r.module_id);
            let m = module_position(with.modules, r.module_id)->0;
            with.lookup(m, r.kind, r.local_id) == held(map, r)
        }),
{
    lemma_with_module_holds(map, r.module_id, r);
    if module_position(map.modules, r.module_id) is Some {
        lemma_module_position_is_module(map.modules, r.module_id);
    } else {
        lemma_module_position_none_push(map.modules, r.module_id);
    }
}

/// A row that was taken in is held with its global identifier, and what the
/// map held under other names is held as before.
pub proof fn lemma_with_row_holds(map: CssMapView, r: Row, other: Row)
    requires
        held(map, r) is None,
    ensures
        held(with_row(map, r), r) matches Some(id) && id.global_id == r.global_id,
        !other.same_name(r) ==> held(with_row(map, r), other) == held(map, other),
{
    let with = map.with_module(r.module_id);
    lemma_with_module_holds(map, r.module_id, r);
    lemma_with_module_holds(map, r.module_id, other);
    if module_position(map.modules, r.module_id) is Some {
        lemma_module_position_is_module(map.modules, r.module_id);
    } else {
        lemma_module_position_none_push(map.modules, r.module_id);
    }
    let m = module_position(with.modules, r.module_id)->0;
    let after = with_row(map, r);
    let id = IdView { kind: r.kind, module_index: m as u32, local_id: r.local_id, global_id: r.global_id };
    let table = with.modules[m].table(r.kind);
    assert(after.modules[m].table(r.kind) == table.push((r.local_id, id)));
    assert(table.push((r.local_id, id)).drop_last() =~= table);
    lemma_module_position_names(with.modules, after.modules, r.module_id);
    lemma_module_position_names(with.modules, after.modules, other.module_id);
    if !other.same_name(r) {
        if module_position(with.modules, other.module_id) is Some {
            lemma_module_position_is_module(with.modules, other.module_id);
            let k = module_position(with.modules, other.module_id)->0;
            if k != m {
                assert(after.modules[k] == with.modules[k]);
            } else if other.kind != r.kind {
                assert(after.modules[k].table(other.kind) == with.modules[k].table(other.kind));
            }
        }
    }
}

/// What a map holds under a name that no row gives is held as before after
/// the rows were taken in.
proof fn lemma_with_rows_keeps(map: CssMapView, rows: Seq<Row>, other: Row)
    requires
        none_held(map, rows),
        distinct_names(rows),
        forall|i: int| 0 <= i < rows.len() ==> !other.same_name(#[trigger] rows[i]),
    ensures
        held(with_rows(map, rows), other) == held(map, other),
    decreases rows.len(),
{
    if rows.len() > 0 {
        let rest = rows.drop_first();
        assert(held(map, rows[0]) is None);
        lemma_with_row_holds(map, rows[0], other);
        lemma_rest_not_held(map, rows);
        assert forall|i: int| 0 <= i < rest.len() implies !other.same_name(#[trigger] rest[i]) by {
            assert(rest[i] == rows[i + 1]);
        }
        lemma_with_rows_keeps(with_row(map, rows[0]), rest, other);
    }
}

/// After the first row was taken in, the map holds none of the others, and
/// these still give different names.
proof fn lemma_rest_not_held(map: CssMapView, rows: Seq<Row>)
    requires
        rows.len() > 0,
        none_held(map, rows),
        distinct_names(rows),
    ensures
        none_held(with_row(map, rows[0]), rows.drop_first()),
        distinct_names(rows.drop_first()),
{
    let rest = rows.drop_first();
    assert(held(map, rows[0]) is None);
    assert forall|i: int| 0 <= i < rest.len() implies held(
        with_row(map, rows[0]),
        #[trigger] rest[i],
    ) is None by {
        assert(rest[i] == rows[i + 1]);
        assert(!rows[i + 1].same_name(rows[0]));
        lemma_with_row_holds(map, rows[0], rest[i]);
        assert(held(map, rows[i + 1]) is None);
    }
    assert forall|i: int, j: int|
        0 <= i < rest.len() && 0 <= j < rest.len() && i != j implies !(#[trigger] rest[i]).same_name(
        #[trigger] rest[j],
    ) by {
        assert(rest[i] == rows[i + 1]);
        assert(rest[j] == rows[j + 1]);
    }
}

/// Importing rows as they are written takes each of them in: where the rows
/// fit the grammar and give names that differ from each other and from
/// those that the map holds, the import does not fail, and the map is the
/// one after the rows were taken in one after the other.
pub proof fn lemma_import_of_rows(map: CssMapView, before: Seq<char>, rows: Seq<Row>, line_num: nat)
    requires
        all_fit(rows),
        distinct_names(rows),
        none_held(map, rows),
    ensures
        map.import_from(before + text_of(rows), before.len() as int, line_num) == (ImportOutcome {
            map: with_rows(map, rows),
            failure: None,
        }),
    decreases rows.len(),
{
    let text = before + text_of(rows);
    let p = before.len() as int;
    if rows.len() == 0 {
        assert(text =~= before);
    } else {
        let r = rows[0];
        let rest = rows.drop_first();
        assert(r.fits());
        assert(text =~= before + r.text() + text_of(rest));
        lemma_row_scans_back(before, r, text_of(rest));
        let next = (before.len() + r.text().len()) as int;
        assert(held(map, r) is None);
        lemma_with_module_holds(map, r.module_id, r);
        let with = map.with_module(r.module_id);
        if module_position(map.modules, r.module_id) is Some {
            lemma_module_position_is_module(map.modules, r.module_id);
        } else {
            lemma_module_position_none_push(map.modules, r.module_id);
        }
        reveal_strlit("\n");
        assert(r.text().len() > 0);
        assert(p < next <= text.len());
        lemma_rest_not_held(map, rows);
        assert forall|i: int| 0 <= i < rest.len() implies (#[trigger] rest[i]).fits() by {
            assert(rest[i] == rows[i + 1]);
        }
        let further = before + r.text();
        assert(text =~= further + text_of(rest));
        lemma_import_of_rows(with_row(map, r), further, rest, line_num + 1);
    }
}

/// Each row that was taken in is held with its global identifier.
pub proof fn lemma_rows_are_held(map: CssMapView, rows: Seq<Row>, i: int)
    requires
        distinct_names(rows),
        none_held(map, rows),
        0 <= i < rows.len(),
    ensures
        held(with_rows(map, rows), rows[i]) matches Some(id) && id.global_id == rows[i].global_id,
    decreases rows.len(),
{
    let rest = rows.drop_first();
    assert(held(map, rows[0]) is None);
    lemma_rest_not_held(map, rows);
    if i == 0 {
        lemma_with_row_holds(map, rows[0], rows[0]);
        assert forall|k: int| 0 <= k < rest.len() implies !rows[0].same_name(#[trigger] rest[k]) by {
            assert(rest[k] == rows[k + 1]);
        }
        lemma_with_rows_keeps(with_row(map, rows[0]), rest, rows[0]);
    } else {
        assert(rest[i - 1] == rows[i]);
        lemma_rows_are_held(with_row(map, rows[0]), rest, i - 1);
    }
}

/// A map comes back from what was written of it: where rows that fit the
/// grammar and give different names are written one after the other, and a
/// map that holds none of these names imports the text, then the import
/// does not fail, and the map gives for the name of each row the global
/// identifier of that row; asking it for this name makes no new identifier
/// and leaves the map as it is.
pub proof fn lemma_round_trip(map: CssMapView, rows: Seq<Row>, i: int)
    requires
        all_fit(rows),
        distinct_names(rows),
        none_held(map, rows),
        0 <= i < rows.len(),
    ensures
        map.import(text_of(rows)).failure is None,
        ({
            let back = map.import(text_of(rows)).map;
            let r = rows[i];
            &&& module_position(back.modules, r.module_id) matches Some(m)
            &&& back.got_id(m, r.kind, r.local_id) matches Some(id)
            &&& id.global_id == r.global_id
            &&& back.after_get_id(m, r.kind, r.local_id) == back
        }),
{
    assert(Seq::<char>::empty() + text_of(rows) =~= text_of(rows));
    lemma_import_of_rows(map, Seq::empty(), rows, 1);
    lemma_rows_are_held(map, rows, i);
}

} // verus!
