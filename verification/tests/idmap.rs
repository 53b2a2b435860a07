use xiss::idmap::map::{MapError, ModuleMap};
use xiss::idmap::parser::ErrorKind;
use xiss::idmap::{Id, IdKind};

#[test]
fn kind_names_and_letters() {
    assert_eq!(IdKind::Class.name(), "class");
    assert_eq!(IdKind::Var.name(), "var");
    assert_eq!(IdKind::Keyframes.name(), "keyframes");
    assert_eq!(IdKind::Class.to_letter(), 'C');
    assert_eq!(IdKind::Var.to_letter(), 'V');
    assert_eq!(IdKind::Keyframes.to_letter(), 'K');
}

#[test]
fn id_text() {
    let id = Id::new(IdKind::Var, "foo".to_string(), "gap".to_string(), "a".to_string());
    assert_eq!(id.to_text(), "foo,var,gap,a\n");
    let copy = id.duplicate();
    assert_eq!(copy.module_id, "foo");
    assert_eq!(copy.local_id, "gap");
    assert_eq!(copy.global_id, "a");
    assert_eq!(copy.kind, IdKind::Var);
}

#[test]
fn module_map_import() {
    let mut map = ModuleMap::new();
    map.import("C,foo,title,a\nV,foo,gap,a\nC,bar,title,b\nC,foo,sub,c\n").unwrap();
    let foo = map.get_by_id("foo").unwrap();
    assert_eq!(foo.id, "foo");
    assert_eq!(foo.index.position(), 0);
    assert_eq!(foo.classes.len(), 2);
    assert_eq!(foo.vars.len(), 1);
    assert_eq!(foo.keyframes.len(), 0);
    let title = foo.classes.get("title").unwrap();
    assert_eq!(title.global_id, "a");
    assert_eq!(title.module_id, "foo");
    assert_eq!(foo.classes.get("sub").unwrap().global_id, "c");
    let bar = map.get_by_id("bar").unwrap();
    assert_eq!(bar.index.position(), 1);
    assert_eq!(bar.classes.get("title").unwrap().global_id, "b");
    assert!(map.get_by_id("baz").is_none());
    let index = bar.index;
    assert_eq!(map.get_by_index(index).unwrap().id, "bar");
    // a second import goes on from the modules that are there
    map.import("K,bar,spin,a\nC,baz,x,d\n").unwrap();
    assert_eq!(map.get_by_id("bar").unwrap().keyframes.len(), 1);
    assert_eq!(map.get_by_id("baz").unwrap().index.position(), 2);
}

#[test]
fn module_map_import_errors() {
    let mut map = ModuleMap::new();
    let err = map.import("C,foo,title,a\nC,foo,title,b\n").unwrap_err();
    match &err {
        MapError::DuplicateEntry(id) => {
            assert_eq!(id.module_id, "foo");
            assert_eq!(id.local_id, "title");
            assert_eq!(id.global_id, "b");
        }
        other => panic!("unexpected error {:?}", other),
    }
    assert_eq!(err.message(), "Duplicate entry: 'foo,class,title,b\n'");
    // nothing of a text that fails is taken in
    assert!(map.get_by_id("foo").is_none());
    map.import("C,foo,title,a\n").unwrap();
    let err = map.import("C,bar,x,b\nV,foo,gap,c\nC,foo,title,d\n").unwrap_err();
    assert!(matches!(err, MapError::DuplicateEntry(_)));
    assert!(map.get_by_id("bar").is_none());
    assert_eq!(map.get_by_id("foo").unwrap().classes.len(), 1);
    assert_eq!(map.get_by_id("foo").unwrap().vars.len(), 0);
    let err = map.import("C,bar,x,b\nC,bar,x,c\n").unwrap_err();
    assert!(matches!(err, MapError::DuplicateEntry(_)));
    assert!(map.get_by_id("bar").is_none());
    // the same local name of another kind or module is no duplicate
    map.import("V,foo,title,a\nC,bar,title,b\n").unwrap();
    let mut map = ModuleMap::new();
    let err = map.import("C,foo,title,a\nC,foo;").unwrap_err();
    match err {
        MapError::ParserError(e) => {
            assert_eq!(e.line_num, 2);
            assert!(matches!(e.kind, ErrorKind::InvalidChar(5, ';')));
        }
        other => panic!("unexpected error {:?}", other),
    }
    // the rows before the error are not taken in
    assert!(map.get_by_id("foo").is_none());
}

#[test]
fn module_map_hands_out_modules_to_change() {
    let mut map = ModuleMap::new();
    map.import("C,foo,title,a\nC,bar,title,b\n").unwrap();
    let index = map.get_by_id("bar").unwrap().index;
    let bar = map.get_mut_by_index(index).unwrap();
    bar.vars.insert(
        "gap".to_string(),
        Id::new(IdKind::Var, "bar".to_string(), "gap".to_string(), "a".to_string()),
    );
    assert_eq!(map.get_by_id("bar").unwrap().vars.len(), 1);
    let foo = map.get_mut_by_id("foo").unwrap();
    foo.keyframes.insert(
        "spin".to_string(),
        Id::new(IdKind::Keyframes, "foo".to_string(), "spin".to_string(), "a".to_string()),
    );
    assert_eq!(map.get_by_id("foo").unwrap().keyframes.get("spin").unwrap().global_id, "a");
    assert!(map.get_mut_by_id("baz").is_none());
}
