use xiss::css_map::{CssMap, CssMapError};
use xiss::global_id::{index_to_css_identifier, IdSet};
use xiss::idmap::parser::{ErrorKind, Parser};
use xiss::idmap::IdKind;

fn empty_map() -> CssMap {
    CssMap::new(&vec![], &vec![], &vec![]).unwrap()
}

#[test]
fn first_compile_mints_a() {
    let mut map = empty_map();
    let module = map.get_module_index("foo");
    assert_eq!(module, 0);
    let id = map.get_id(module, IdKind::Class, "title").unwrap();
    assert_eq!(id.global_id, "a");
    assert_eq!(id.local_id, "title");
    assert_eq!(id.module_index, 0);
    assert_eq!(id.kind, IdKind::Class);
    assert_eq!(map.new_ids(), "C,foo,title,a\n");
}

#[test]
fn second_compile_keeps_ids() {
    let mut map = empty_map();
    map.import("C,foo,title,a\n").unwrap();
    let module = map.get_module_index("foo");
    assert_eq!(module, 0);
    let subtitle = map.get_id(module, IdKind::Class, "subtitle").unwrap();
    assert_eq!(subtitle.global_id, "b");
    let title = map.get_id(module, IdKind::Class, "title").unwrap();
    assert_eq!(title.global_id, "a");
    assert_eq!(map.new_ids(), "C,foo,subtitle,b\n");
}

#[test]
fn get_id_is_idempotent() {
    let mut map = empty_map();
    let module = map.get_module_index("m");
    let first = map.get_id(module, IdKind::Var, "x").unwrap();
    let again = map.get_id(module, IdKind::Var, "x").unwrap();
    assert_eq!(first.global_id, again.global_id);
    assert_eq!(map.new_ids(), "V,m,x,a\n");
}

#[test]
fn kinds_do_not_share_names() {
    let mut map = empty_map();
    let module = map.get_module_index("m");
    let class = map.get_id(module, IdKind::Class, "foo").unwrap();
    let var = map.get_id(module, IdKind::Var, "foo").unwrap();
    let keyframes = map.get_id(module, IdKind::Keyframes, "foo").unwrap();
    assert_eq!(class.global_id, "a");
    assert_eq!(var.global_id, "a");
    assert_eq!(keyframes.global_id, "a");
    assert_eq!(class.kind, IdKind::Class);
    assert_eq!(var.kind, IdKind::Var);
    assert_eq!(keyframes.kind, IdKind::Keyframes);
    assert_eq!(map.new_ids(), "C,m,foo,a\nV,m,foo,a\nK,m,foo,a\n");
}

#[test]
fn global_ids_are_unique_across_modules() {
    let mut map = empty_map();
    let foo = map.get_module_index("foo");
    let bar = map.get_module_index("bar");
    assert_eq!(foo, 0);
    assert_eq!(bar, 1);
    assert_eq!(map.get_module_index("foo"), 0);
    let a = map.get_id(foo, IdKind::Class, "x").unwrap();
    let b = map.get_id(bar, IdKind::Class, "x").unwrap();
    assert_eq!(a.global_id, "a");
    assert_eq!(b.global_id, "b");
}

#[test]
fn imported_ids_are_not_minted_again() {
    let mut map = empty_map();
    map.import("C,foo,x,b\nC,foo,y,a\nV,bar,z,a\n").unwrap();
    assert_eq!(map.modules().len(), 2);
    let foo = map.get_module_index("foo");
    let new = map.get_id(foo, IdKind::Class, "w").unwrap();
    assert_eq!(new.global_id, "c");
    let var = map.get_id(foo, IdKind::Var, "w").unwrap();
    assert_eq!(var.global_id, "b");
    assert_eq!(map.new_ids(), "C,foo,w,c\nV,foo,w,b\n");
}

#[test]
fn import_reads_modules_by_row() {
    let mut map = empty_map();
    map.import("C,foo,a1,a\nC,foo,a2,b\nC,bar/baz,a1,c\nK,foo,k,a").unwrap();
    assert_eq!(map.modules().len(), 2);
    assert_eq!(map.modules()[0].id, "foo");
    assert_eq!(map.modules()[1].id, "bar/baz");
    assert_eq!(map.modules()[0].classes.len(), 2);
    assert_eq!(map.modules()[1].classes.len(), 1);
    assert_eq!(map.modules()[0].keyframes.len(), 1);
    assert_eq!(map.modules()[0].classes.get("a2").unwrap().global_id, "b");
    assert_eq!(map.new_ids(), "");
}

#[test]
fn import_rejects_duplicate_entry() {
    let mut map = empty_map();
    let err = map.import("C,foo,title,a\nC,foo,title,b\n").unwrap_err();
    match &err {
        CssMapError::DuplicateEntry(kind, module, local) => {
            assert_eq!(*kind, IdKind::Class);
            assert_eq!(module, "foo");
            assert_eq!(local, "title");
        }
        other => panic!("unexpected error {:?}", other),
    }
    assert_eq!(err.message(), "Duplicate entry: class,foo,title");
    // nothing of the text was taken in: no module, no name, no identifier
    assert_eq!(map.modules().len(), 0);
    let foo = map.get_module_index("foo");
    assert_eq!(map.get_id(foo, IdKind::Class, "other").unwrap().global_id, "a");
    // a name that the map holds already
    let mut map = empty_map();
    map.import("C,foo,title,a\n").unwrap();
    let err = map.import("C,bar,x,b\nV,foo,gap,b\nC,foo,title,c\n").unwrap_err();
    assert!(matches!(err, CssMapError::DuplicateEntry(_, _, _)));
    assert_eq!(map.modules().len(), 1);
    assert_eq!(map.modules()[0].classes.len(), 1);
    assert_eq!(map.modules()[0].vars.len(), 0);
    assert_eq!(map.new_ids(), "");
    let foo = map.get_module_index("foo");
    assert_eq!(map.get_id(foo, IdKind::Var, "gap").unwrap().global_id, "a");
    assert_eq!(map.get_id(foo, IdKind::Class, "next").unwrap().global_id, "b");
}

#[test]
fn import_rejects_invalid_char() {
    let mut map = empty_map();
    let err = map.import("C,foo,title,a\nX,foo,t,b\n").unwrap_err();
    match err {
        CssMapError::ParserError(e) => {
            assert_eq!(e.line_num, 2);
            assert!(matches!(e.kind, ErrorKind::InvalidChar(0, 'X')));
        }
        other => panic!("unexpected error {:?}", other),
    }
    // the row before the error is not taken in
    assert_eq!(map.modules().len(), 0);
    let foo = map.get_module_index("foo");
    assert_eq!(map.get_id(foo, IdKind::Class, "title").unwrap().global_id, "a");
    assert_eq!(map.new_ids(), "C,foo,title,a\n");
}

#[test]
fn import_rejects_unexpected_end() {
    let mut map = empty_map();
    let err = map.import("C,foo,title").unwrap_err();
    match err {
        CssMapError::ParserError(e) => {
            assert_eq!(e.line_num, 1);
            assert!(matches!(e.kind, ErrorKind::UnexpectedEOL));
            assert_eq!(e.message(), "Unexpected end of line 1");
        }
        other => panic!("unexpected error {:?}", other),
    }
}

#[test]
fn invalid_exclude_rule_is_rejected() {
    let r = CssMap::new(&vec!["(".to_string()], &vec![], &vec![]);
    assert!(matches!(r, Err(CssMapError::InvalidExcludeRule(_))));
    let r = CssMap::new(&vec![], &vec![], &vec!["[".to_string()]);
    assert!(matches!(r, Err(CssMapError::InvalidExcludeRule(_))));
}

#[test]
fn exclude_regex_skips_candidates() {
    let mut map = CssMap::new(&vec!["^ad".to_string()], &vec![], &vec![]).unwrap();
    let module = map.get_module_index("m");
    let mut seen = Vec::new();
    for i in 0..400 {
        let id = map.get_id(module, IdKind::Class, &format!("c{}", i)).unwrap();
        assert!(!id.global_id.starts_with("ad"));
        seen.push(id.global_id);
    }
    // "ad" has index 52 + 3 and is skipped, so the 56th identifier is "ae".
    assert_eq!(index_to_css_identifier(55), "ad");
    assert_eq!(seen[54], "ac");
    assert_eq!(seen[55], "ae");
    // vars have no exclusion rule
    let v = map.get_module_index("m");
    for i in 0..55 {
        map.get_id(v, IdKind::Var, &format!("v{}", i)).unwrap();
    }
    assert_eq!(map.get_id(v, IdKind::Var, "last").unwrap().global_id, "ad");
}

#[test]
fn id_set_skips_added_and_excluded() {
    let exclude = vec![regex::Regex::new("^b$").unwrap()];
    let mut set = IdSet::new(0, exclude);
    set.add("a");
    set.add("d");
    assert_eq!(set.next_id().unwrap(), "c");
    assert_eq!(set.next_id().unwrap(), "e");
    // the counter is not rewound
    set.add("zz");
    assert_eq!(set.next_id().unwrap(), "f");
}

#[test]
fn id_set_runs_out_at_the_last_index() {
    let mut set = IdSet::new(u64::MAX - 1, vec![]);
    assert!(set.next_id().is_some());
    assert!(set.next_id().is_none());
    assert!(set.next_id().is_none());
}

#[test]
fn flush_clears_only_when_delivered() {
    let mut map = empty_map();
    let module = map.get_module_index("foo");
    map.get_id(module, IdKind::Class, "title").unwrap();
    map.flush_new_ids(false);
    assert_eq!(map.new_ids(), "C,foo,title,a\n");
    map.flush_new_ids(true);
    assert_eq!(map.new_ids(), "");
    map.get_id(module, IdKind::Class, "other").unwrap();
    assert_eq!(map.new_ids(), "C,foo,other,b\n");
}

#[test]
fn map_round_trip() {
    let mut map = empty_map();
    let foo = map.get_module_index("foo");
    let bar = map.get_module_index("dir/bar");
    let names = [
        (foo, IdKind::Class, "title"),
        (foo, IdKind::Var, "gap"),
        (bar, IdKind::Class, "title"),
        (bar, IdKind::Keyframes, "spin"),
        (foo, IdKind::Class, "sub_title"),
    ];
    let mut globals = Vec::new();
    for (m, kind, local) in names.iter() {
        globals.push(map.get_id(*m, *kind, local).unwrap().global_id);
    }
    let rows = map.new_ids().to_string();
    let mut copy = empty_map();
    copy.import(&rows).unwrap();
    for (i, (m, kind, local)) in names.iter().enumerate() {
        let module = copy.get_module_index(&map.modules()[*m as usize].id);
        let id = copy.get_id(module, *kind, local).unwrap();
        assert_eq!(id.global_id, globals[i]);
    }
    assert_eq!(copy.new_ids(), "");
}

#[test]
fn parser_yields_module_only_when_it_changes() {
    let mut p = Parser::new("C,foo,a,a\nV,foo,b,a\nC,bar,a,b\nC,foo,c,c\n");
    let row = p.next_id().unwrap().unwrap();
    assert_eq!(row.1.as_deref(), Some("foo"));
    let row = p.next_id().unwrap().unwrap();
    assert_eq!(row.0, IdKind::Var);
    assert_eq!(row.1, None);
    assert_eq!(row.2, "b");
    assert_eq!(row.3, "a");
    let row = p.next_id().unwrap().unwrap();
    assert_eq!(row.1.as_deref(), Some("bar"));
    let row = p.next_id().unwrap().unwrap();
    assert_eq!(row.1.as_deref(), Some("foo"));
    assert!(p.next_id().unwrap().is_none());
    assert!(p.next_id().unwrap().is_none());
}

#[test]
fn parser_reports_line_and_column() {
    let mut p = Parser::new("C,foo,a,a\nC,f\u{e9}o,a,b\n");
    p.next_id().unwrap().unwrap();
    let e = p.next_id().unwrap_err();
    assert_eq!(e.line_num, 2);
    assert!(matches!(e.kind, ErrorKind::InvalidChar(3, '\u{e9}')));
    assert_eq!(e.message(), "Invalid char '2' at [3;\u{e9}]");
    let mut p = Parser::new("C,m,a-b,g");
    let e = p.next_id().unwrap_err();
    assert_eq!(e.line_num, 1);
    assert!(matches!(e.kind, ErrorKind::InvalidChar(5, '-')));
    let mut p = Parser::new("C,m,l,g\n?");
    p.next_id().unwrap().unwrap();
    let e = p.next_id().unwrap_err();
    assert_eq!(e.line_num, 2);
    assert!(matches!(e.kind, ErrorKind::InvalidChar(0, '?')));
    let mut p = Parser::new("C,m,l,g\nC;");
    p.next_id().unwrap().unwrap();
    let e = p.next_id().unwrap_err();
    assert!(matches!(e.kind, ErrorKind::InvalidChar(1, ';')));
    let mut p = Parser::new("C,m,l,g\nK,mod,loc,g h");
    p.next_id().unwrap().unwrap();
    let e = p.next_id().unwrap_err();
    assert!(matches!(e.kind, ErrorKind::InvalidChar(11, ' ')));
}

#[test]
fn parser_rejects_bad_fields() {
    let bad = ["C", "C;", "C,-m,l,g\n", "C,m,1l,g\n", "C,m,l-x,g\n", "C,m,l,1g\n", "C,m,l,g!\n", "C,m,l,", "\n"];
    for text in bad.iter() {
        let mut p = Parser::new(text);
        assert!(p.next_id().is_err(), "{:?}", text);
    }
    let mut p = Parser::new("");
    assert!(p.next_id().unwrap().is_none());
}

#[test]
fn candidate_is_accepted_unless_excluded_or_registered() {
    let mut set = IdSet::new(0, vec![]);
    set.add("a");
    assert!(!set.accepts("a", false));
    assert!(!set.accepts("a", true));
    assert!(set.accepts("b", false));
    assert!(!set.accepts("b", true));
}

#[test]
fn refused_pattern_becomes_invalid_exclude_rule() {
    let r = xiss::css_map::exclude_rule(regex::Regex::new("a(b"));
    assert!(matches!(r, Err(CssMapError::InvalidExcludeRule(_))));
    let r = xiss::css_map::exclude_rule(regex::Regex::new("^ad"));
    let rule = r.unwrap();
    assert!(rule.is_match("adX"));
    assert!(!rule.is_match("bad"));
    let err = CssMap::new(&vec![], &vec!["a(b".to_string()], &vec![]).err().unwrap();
    assert!(err.message().starts_with("Invalid exclude rule: "));
}
