use xiss::idmap::parser::{parse_line, Scanner};
use xiss::idmap::IdKind;

#[test]
fn single_chars() {
    let line = "C,m,l,g\n";
    let mut iter = Scanner::new(line);
    let (kind, module_id, local_id, global_id) = parse_line(&mut iter).unwrap().unwrap();
    assert_eq!(kind, IdKind::Class);
    assert_eq!(module_id, "m");
    assert_eq!(local_id, "l");
    assert_eq!(global_id, "g");
}

#[test]
fn multiple_chars() {
    let line = "C,m2,l2,g2\n";
    let mut iter = Scanner::new(line);
    let (kind, module_id, local_id, global_id) = parse_line(&mut iter).unwrap().unwrap();
    assert_eq!(kind, IdKind::Class);
    assert_eq!(module_id, "m2");
    assert_eq!(local_id, "l2");
    assert_eq!(global_id, "g2");
}

#[test]
fn var() {
    let line = "V,m,l,g\n";
    let mut iter = Scanner::new(line);
    let (kind, module_id, local_id, global_id) = parse_line(&mut iter).unwrap().unwrap();
    assert_eq!(kind, IdKind::Var);
    assert_eq!(module_id, "m");
    assert_eq!(local_id, "l");
    assert_eq!(global_id, "g");
}

#[test]
fn keyframes() {
    let line = "K,m,l,g\n";
    let mut iter = Scanner::new(line);
    let (kind, module_id, local_id, global_id) = parse_line(&mut iter).unwrap().unwrap();
    assert_eq!(kind, IdKind::Keyframes);
    assert_eq!(module_id, "m");
    assert_eq!(local_id, "l");
    assert_eq!(global_id, "g");
}

fn check_module_id(c1: char, c2: Option<char>, c3: Option<char>) {
    let mut expected_module_id = String::with_capacity(3);
    expected_module_id.push(c1);
    if let Some(c2) = c2 {
        expected_module_id.push(c2);
        if let Some(c3) = c3 {
            expected_module_id.push(c3);
        }
    }
    let line = format!("K,{},l,g\n", &expected_module_id);
    let mut iter = Scanner::new(&line);
    let (_, module_id, _, _) = parse_line(&mut iter).unwrap().unwrap();
    assert_eq!(module_id, expected_module_id);
}

#[test]
fn module_id_valid_chars() {
    for c in 'a'..='z' {
        check_module_id(c, None, None);
        check_module_id('a', Some(c), None);
        check_module_id('a', Some('/'), Some(c));
    }
    for c in 'A'..='Z' {
        check_module_id(c, None, None);
        check_module_id('a', Some(c), None);
        check_module_id('a', Some('/'), Some(c));
    }
    for c in '0'..='9' {
        check_module_id(c, None, None);
        check_module_id('a', Some(c), None);
        check_module_id('a', Some('/'), Some(c));
    }
    check_module_id('_', None, None);
    check_module_id('a', Some('_'), None);
    check_module_id('a', Some('/'), Some('_'));

    check_module_id('a', Some('-'), None);
    check_module_id('a', Some('/'), Some('-'));
}
