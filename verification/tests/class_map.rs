use xiss::class_map::{join_strings, ClassMap, ClassMapState};

fn state(name: &str, classes: &str) -> ClassMapState {
    ClassMapState::new(name.to_string(), classes.to_string())
}

fn class_map(states: Vec<ClassMapState>, exclude: Vec<usize>) -> ClassMap {
    ClassMap::new(String::new(), String::new(), states, exclude)
}

#[test]
fn concat_class_names_empty_a() {
    assert_eq!(join_strings("", "b"), "b");
}

#[test]
fn concat_class_names_empty_a_b() {
    assert_eq!(join_strings("", ""), "");
}

#[test]
fn concat_class_names_empty_b() {
    assert_eq!(join_strings("a", ""), "a");
}

#[test]
fn concat_class_names_a_b() {
    assert_eq!(join_strings("a", "b"), "a b");
}

#[test]
fn is_constraints_satisfied_empty() {
    let cm = class_map(vec![], vec![]);
    assert!(cm.is_constraints_satisfied(0b1))
}

#[test]
fn is_constraints_satisfied_exclude_one_rule() {
    let cm = class_map(vec![], vec![0b01]);
    assert!(cm.is_constraints_satisfied(0b10));

    assert!(!cm.is_constraints_satisfied(0b01));
}

#[test]
fn is_constraints_satisfied_exclude_two_rules() {
    let cm = class_map(vec![], vec![0b101, 0b110]);
    assert!(cm.is_constraints_satisfied(0b100));
    assert!(cm.is_constraints_satisfied(0b010));
    assert!(cm.is_constraints_satisfied(0b001));

    assert!(!cm.is_constraints_satisfied(0b101));
    assert!(!cm.is_constraints_satisfied(0b110));
}

#[test]
fn write_class_map_inline_cond_expr_1() {
    let cm = class_map(vec![state("a", "A")], vec![]);

    let mut result = String::new();
    cm.write_inline_cond_expr(&mut result, 0, "", 0);
    assert_eq!(result, "(a ? \"A\" : \"\")");
}

#[test]
fn write_class_map_inline_cond_expr_2() {
    let cm = class_map(vec![state("a", "A"), state("b", "B")], vec![]);

    let mut result = String::new();
    cm.write_inline_cond_expr(&mut result, 0, "", 0);
    assert_eq!(result, "(a ? (b ? \"A B\" : \"A\") : (b ? \"B\" : \"\"))");
}

#[test]
fn write_class_map_inline_cond_expr_exclude_0b11() {
    let cm = class_map(vec![state("a", "A"), state("b", "B")], vec![0b11]);

    let mut result = String::new();
    cm.write_inline_cond_expr(&mut result, 0, "", 0);
    assert_eq!(result, "(a ? \"A\" : (b ? \"B\" : \"\"))");
}

#[test]
fn generate_class_map_table_0() {
    let cm = class_map(vec![], vec![]);

    let mut result = cm.create_empty_table();
    cm.populate_table(&mut result, 0, "", 0);
    assert_eq!(result, vec![""]);
}

#[test]
fn generate_class_map_table_1() {
    let cm = class_map(vec![state("a", "A")], vec![]);

    let mut result = cm.create_empty_table();
    cm.populate_table(&mut result, 0, "", 0);
    assert_eq!(result, vec!["", "A"]);
}

#[test]
fn generate_class_map_table_2() {
    let cm = class_map(vec![state("a", "A"), state("b", "B")], vec![]);

    let mut result = cm.create_empty_table();
    cm.populate_table(&mut result, 0, "", 0);
    assert_eq!(result, vec!["", "A", "B", "A B"]);
}

#[test]
fn generate_class_map_table_3() {
    let cm = class_map(vec![state("a", "A"), state("b", "B"), state("c", "C")], vec![]);

    let mut result = cm.create_empty_table();
    cm.populate_table(&mut result, 0, "", 0);
    assert_eq!(result, vec!["", "A", "B", "A B", "C", "A C", "B C", "A B C"]);
}

#[test]
fn generate_class_map_table_3_exclude_0b011() {
    let cm = class_map(vec![state("a", "A"), state("b", "B"), state("c", "C")], vec![0b011]);

    let mut result = cm.create_empty_table();
    cm.populate_table(&mut result, 0, "", 0);
    assert_eq!(result, vec!["", "A", "B", "", "C", "A C", "B C", ""]);
}

#[test]
fn generate_class_map_table_3_exclude_0b011_and_0b101() {
    let cm = class_map(vec![state("a", "A"), state("b", "B"), state("c", "C")], vec![0b011, 0b101]);

    let mut result = cm.create_empty_table();
    cm.populate_table(&mut result, 0, "", 0);
    assert_eq!(result, vec!["", "A", "B", "", "C", "", "B C", ""]);
}

#[test]
fn table_and_inline_for_two_states() {
    let cm = class_map(vec![state("a", "A"), state("b", "B")], vec![]);
    assert_eq!(cm.table(), vec!["", "A", "B", "A B"]);
    let cm = class_map(vec![state("a", "A"), state("b", "B")], vec![0b11]);
    assert_eq!(cm.table(), vec!["", "A", "B", ""]);
    let cm = class_map(vec![state("a", "A"), state("b", "B"), state("c", "C")], vec![0b011, 0b101]);
    assert_eq!(cm.table(), vec!["", "A", "B", "", "C", "", "B C", ""]);
}

#[test]
fn satisfaction_follows_the_masks() {
    let cm = class_map(vec![], vec![0b011, 0b101]);
    for mask in 0..16usize {
        let excluded = (mask & 0b011) == 0b011 || (mask & 0b101) == 0b101;
        assert_eq!(cm.is_constraints_satisfied(mask), !excluded);
    }
}

#[test]
fn table_with_eight_states() {
    let states: Vec<ClassMapState> = (0..8).map(|i| state(&format!("s{}", i), &format!("c{}", i))).collect();
    let cm = ClassMap::new("Big".to_string(), "base".to_string(), states, vec![0b1000_0001]);
    let table = cm.table();
    assert_eq!(table.len(), 256);
    assert_eq!(table[0], "base");
    assert_eq!(table[0b1000_0000], "base c7");
    assert_eq!(table[0b0100_0011], "base c0 c1 c6");
    assert_eq!(table[0b1000_0001], "");
    assert_eq!(table[0b1111_1111], "");
    let mut js = String::new();
    cm.emit_js(&mut js, xiss::class_map::ClassMapOutput::Table);
    assert!(js.ends_with(
        "[(s0 ? 1 : 0) | (s1 ? 2 : 0) | (s2 ? 4 : 0) | (s3 ? 8 : 0) | (s4 ? 16 : 0) | (s5 ? 32 : 0) | (s6 ? 64 : 0) | (s7 ? 128 : 0)];\n}\n"
    ));
}

#[test]
fn output_mode_names() {
    assert_eq!(xiss::class_map::ClassMapOutput::Inline.name(), "inline");
    assert_eq!(xiss::class_map::ClassMapOutput::Table.name(), "table");
}
