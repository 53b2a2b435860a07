use xiss::class_map::ClassMapOutput;
use xiss::compiler::at_class_map::parse_at_class_map;
use xiss::compiler::at_extern::parse_at_extern;
use xiss::compiler::emit::{emit_id_comment, emit_js, emit_ts, sorted_order};
use xiss::compiler::error::ParserErrorKind;
use xiss::compiler::expect::{
    expect_colon, expect_ident, expect_identifier_list, expect_keyword, expect_semi, expect_string,
    expect_whitespace, is_valid_js_ident, join_words, skip_whitespace,
};
use xiss::compiler::module::{
    ClassSelector, DashedIdent, KeyframesName, ModuleCompiler, Rule,
};
use xiss::compiler::scope::ModuleScope;
use xiss::compiler::token::{AtRule, Block, ComponentValue, Prelude, Span, Token};
use xiss::compiler::values::{
    AnimationValue, TransformAnimationNames, UpdateConstValues, ValueEdit, ValueKind,
};
use xiss::const_map::{ConstMap, DeclarationName};
use xiss::css_map::CssMap;
use xiss::idmap::IdKind;

fn sp(lo: u32, hi: u32) -> Span {
    Span::new(lo, hi)
}

fn tok(token: Token, at: u32) -> ComponentValue {
    ComponentValue::PreservedToken { token, span: sp(at, at + 1) }
}

fn ws(at: u32) -> ComponentValue {
    tok(Token::WhiteSpace, at)
}

fn ident(name: &str, at: u32) -> ComponentValue {
    tok(Token::Ident(name.to_string()), at)
}

fn at_keyword(name: &str, at: u32) -> ComponentValue {
    tok(Token::AtKeyword(name.to_string()), at)
}

fn string(name: &str, at: u32) -> ComponentValue {
    tok(Token::Str(name.to_string()), at)
}

fn colon(at: u32) -> ComponentValue {
    tok(Token::Colon, at)
}

fn semi(at: u32) -> ComponentValue {
    tok(Token::Semi, at)
}

fn at_rule(name: &str, prelude: Vec<ComponentValue>, block: Option<Vec<ComponentValue>>) -> AtRule {
    AtRule {
        name: name.to_string(),
        span: sp(0, 100),
        prelude: Prelude::ListOfComponentValues { span: sp(1, 50), children: prelude },
        block: block.map(|value| Block { span: sp(50, 100), value }),
    }
}

fn empty_map() -> CssMap {
    CssMap::new(&vec![], &vec![], &vec![]).unwrap()
}

#[test]
fn valid_js_identifiers() {
    assert!(is_valid_js_ident("a"));
    assert!(is_valid_js_ident("_a1"));
    assert!(is_valid_js_ident("A_b_9"));
    assert!(!is_valid_js_ident(""));
    assert!(!is_valid_js_ident("1a"));
    assert!(!is_valid_js_ident("a-b"));
    assert!(!is_valid_js_ident("-a"));
    assert!(!is_valid_js_ident("a\u{e9}"));
}

#[test]
fn join_words_with_spaces() {
    assert_eq!(join_words(&vec![]), "");
    assert_eq!(join_words(&vec!["a".to_string()]), "a");
    assert_eq!(join_words(&vec!["a".to_string(), "b".to_string(), "c".to_string()]), "a b c");
}

#[test]
fn expect_steps_over_what_it_finds() {
    let values = vec![ws(0), ident("a-b", 1), colon(2), semi(3), string("s", 4), ident("as", 5)];
    let span = sp(0, 9);
    let mut pos = 0;
    assert!(expect_whitespace(&values, &mut pos, &span).is_ok());
    assert_eq!(pos, 1);
    let e = expect_whitespace(&values, &mut pos, &span).unwrap_err();
    assert!(matches!(e.kind, ParserErrorKind::ExpectedWhitespace));
    assert_eq!(e.span, sp(1, 2));
    assert_eq!(pos, 1);
    // an identifier that the target language refuses is stepped over
    let e = expect_ident(&values, &mut pos, &span, true).unwrap_err();
    assert!(matches!(e.kind, ParserErrorKind::ExpectedValidJSIdentifier));
    assert_eq!(pos, 2);
    pos = 1;
    assert_eq!(expect_ident(&values, &mut pos, &span, false).unwrap(), "a-b");
    let e = expect_ident(&values, &mut pos, &span, false).unwrap_err();
    assert!(matches!(e.kind, ParserErrorKind::ExpectedIdentifier));
    let e = expect_semi(&values, &mut pos, &span).unwrap_err();
    assert!(matches!(e.kind, ParserErrorKind::ExpectedSemicolon));
    let e = expect_string(&values, &mut pos, &span).unwrap_err();
    assert!(matches!(e.kind, ParserErrorKind::ExpectedString));
    assert!(expect_colon(&values, &mut pos, &span).is_ok());
    let e = expect_colon(&values, &mut pos, &span).unwrap_err();
    assert!(matches!(e.kind, ParserErrorKind::ExpectedColon));
    assert!(expect_semi(&values, &mut pos, &span).is_ok());
    assert_eq!(expect_string(&values, &mut pos, &span).unwrap(), "s");
    let e = expect_keyword(&values, &mut pos, "from", &span).unwrap_err();
    match e.kind {
        ParserErrorKind::ExpectedKeyword(k) => assert_eq!(k, "from"),
        other => panic!("unexpected kind {:?}", other),
    }
    assert!(expect_keyword(&values, &mut pos, "as", &span).is_ok());
    assert_eq!(pos, 6);
    // at the end the span shrinks to its upper end
    let e = expect_ident(&values, &mut pos, &span, false).unwrap_err();
    assert!(matches!(e.kind, ParserErrorKind::ExpectedIdentifier));
    assert_eq!(e.span, sp(9, 9));
    let e = expect_semi(&values, &mut pos, &span).unwrap_err();
    assert!(matches!(e.kind, ParserErrorKind::ExpectedSemicolon));
    assert_eq!(e.span, sp(9, 9));
    skip_whitespace(&values, &mut pos);
    assert_eq!(pos, 6);
    let other = vec![ComponentValue::Other];
    let mut pos = 0;
    let e = expect_whitespace(&other, &mut pos, &span).unwrap_err();
    assert!(matches!(e.kind, ParserErrorKind::UnexpectedComponentValue));
    assert_eq!(e.span, sp(0, 0));
}

#[test]
fn identifier_list_takes_trailing_space() {
    let values = vec![ident("a", 0), ws(1), ident("b", 2), ws(3), semi(4)];
    let mut pos = 0;
    let list = expect_identifier_list(&values, &mut pos, &sp(0, 5), true).unwrap();
    assert_eq!(list, vec!["a", "b"]);
    assert_eq!(pos, 4);
    let values = vec![ident("a", 0), semi(1)];
    let mut pos = 0;
    let list = expect_identifier_list(&values, &mut pos, &sp(0, 5), true).unwrap();
    assert_eq!(list, vec!["a"]);
    assert_eq!(pos, 1);
}

#[test]
fn extern_with_alias() {
    let rule = at_rule(
        "extern",
        vec![
            ws(0),
            ident("class", 1),
            ws(2),
            ident("title", 3),
            ws(4),
            ident("as", 5),
            ws(6),
            ident("t", 7),
            ws(8),
            ident("from", 9),
            ws(10),
            string("foo", 11),
        ],
        None,
    );
    let ext = parse_at_extern(&rule).unwrap();
    assert_eq!(ext.kind, IdKind::Class);
    assert_eq!(ext.imported_id, "title");
    assert_eq!(ext.local_id, "t");
    assert_eq!(ext.module_id, "foo");
}

#[test]
fn extern_without_alias() {
    let rule = at_rule(
        "extern",
        vec![ws(0), ident("keyframes", 1), ws(2), ident("spin", 3), ws(4), ident("from", 5), ws(6), string("a/b", 7)],
        None,
    );
    let ext = parse_at_extern(&rule).unwrap();
    assert_eq!(ext.kind, IdKind::Keyframes);
    assert_eq!(ext.imported_id, "spin");
    assert_eq!(ext.local_id, "spin");
    assert_eq!(ext.module_id, "a/b");
}

#[test]
fn extern_errors() {
    // a name that the target language refuses needs an alias
    let rule = at_rule(
        "extern",
        vec![ws(0), ident("var", 1), ws(2), ident("a-b", 3), ws(4), ident("from", 5), ws(6), string("m", 7)],
        None,
    );
    let e = parse_at_extern(&rule).unwrap_err();
    assert!(matches!(e.kind, ParserErrorKind::ExpectedValidJSIdentifier));
    assert_eq!(e.span, sp(3, 4));
    // unknown kind
    let rule = at_rule("extern", vec![ws(0), ident("font", 1), ws(2), ident("a", 3)], None);
    let e = parse_at_extern(&rule).unwrap_err();
    assert!(matches!(e.kind, ParserErrorKind::ExpectedIdentifier));
    assert_eq!(e.span, sp(0, 0));
    // missing string
    let rule = at_rule(
        "extern",
        vec![ws(0), ident("class", 1), ws(2), ident("a", 3), ws(4), ident("from", 5), ws(6), ident("m", 7)],
        None,
    );
    let e = parse_at_extern(&rule).unwrap_err();
    assert!(matches!(e.kind, ParserErrorKind::ExpectedString));
    // missing from
    let rule = at_rule("extern", vec![ws(0), ident("class", 1), ws(2), ident("a", 3), ws(4), string("m", 5)], None);
    let e = parse_at_extern(&rule).unwrap_err();
    assert!(matches!(e.kind, ParserErrorKind::ExpectedKeyword(_)));
    assert_eq!(e.message(), "Expected keyword 'from'");
    // no prelude
    let mut rule = at_rule("extern", vec![], None);
    rule.prelude = Prelude::Missing;
    let e = parse_at_extern(&rule).unwrap_err();
    assert!(matches!(e.kind, ParserErrorKind::ExpectedPrelude));
    assert_eq!(e.span, sp(0, 100));
}

fn class_map_block() -> Vec<ComponentValue> {
    // @static base; on: active; off: inactive; @exclude on and off;
    vec![
        ws(50),
        at_keyword("static", 51),
        ws(52),
        ident("base", 53),
        semi(54),
        ws(55),
        ident("on", 56),
        colon(57),
        ws(58),
        ident("active", 59),
        semi(60),
        ws(61),
        ident("off", 62),
        ws(63),
        colon(64),
        ident("inactive", 65),
        ws(66),
        semi(67),
        at_keyword("exclude", 68),
        ws(69),
        ident("on", 70),
        ws(71),
        ident("and", 72),
        ws(73),
        ident("off", 74),
        semi(75),
        ws(76),
    ]
}

fn three_states(exclude: Vec<&str>) -> Vec<ComponentValue> {
    // a: x; b: y; @exclude ...;
    let mut block = vec![
        ident("a", 50),
        colon(51),
        ident("x", 52),
        semi(53),
        ident("b", 54),
        colon(55),
        ident("y", 56),
        semi(57),
    ];
    block.push(at_keyword("exclude", 58));
    let mut at: u32 = 59;
    for word in exclude {
        block.push(ws(at));
        block.push(ident(word, at + 1));
        at += 2;
    }
    block.push(semi(at));
    block
}

fn exclude_of(words: Vec<&str>) -> Result<Vec<usize>, ParserErrorKind> {
    let mut map = empty_map();
    let module = map.get_module_index("m");
    let mut scope = ModuleScope::new(module);
    let rule = at_rule("classmap", vec![ws(0), ident("CN", 1)], Some(three_states(words)));
    match parse_at_class_map(&rule, &mut scope, &mut map) {
        Ok(cm) => Ok(cm.exclude_constraints),
        Err(e) => {
            assert_eq!(e.span, sp(50, 100));
            Err(e.kind)
        }
    }
}

#[test]
fn exclude_takes_and_between_states() {
    assert_eq!(exclude_of(vec!["a", "b"]).unwrap(), vec![0b11]);
    assert_eq!(exclude_of(vec!["a", "and", "b"]).unwrap(), vec![0b11]);
    assert_eq!(exclude_of(vec!["b", "and", "a"]).unwrap(), vec![0b11]);
    assert_eq!(exclude_of(vec!["b"]).unwrap(), vec![0b10]);
    assert_eq!(exclude_of(vec!["a", "and", "b", "and", "a"]).unwrap(), vec![0b11]);
    // a word that neither names a state nor joins two that do
    assert!(matches!(exclude_of(vec!["and"]), Err(ParserErrorKind::UnknownToken)));
    assert!(matches!(exclude_of(vec!["a", "and"]), Err(ParserErrorKind::UnknownToken)));
    assert!(matches!(exclude_of(vec!["and", "a"]), Err(ParserErrorKind::UnknownToken)));
    assert!(matches!(exclude_of(vec!["a", "and", "and", "b"]), Err(ParserErrorKind::UnknownToken)));
    assert!(matches!(exclude_of(vec!["a", "or", "b"]), Err(ParserErrorKind::UnknownToken)));
    assert!(matches!(exclude_of(vec!["a", "and", "c"]), Err(ParserErrorKind::UnknownToken)));
}

#[test]
fn exclude_prefers_a_state_called_and() {
    let mut map = empty_map();
    let module = map.get_module_index("m");
    let mut scope = ModuleScope::new(module);
    let mut block = vec![ident("and", 40), colon(41), ident("z", 42), semi(43)];
    block.extend(three_states(vec!["a", "and", "b"]));
    let rule = at_rule("classmap", vec![ws(0), ident("CN", 1)], Some(block));
    let cm = parse_at_class_map(&rule, &mut scope, &mut map).unwrap();
    assert_eq!(cm.exclude_constraints, vec![0b111]);
}

#[test]
fn exclude_keeps_the_bit_of_a_late_state() {
    let mut map = empty_map();
    let module = map.get_module_index("m");
    let mut scope = ModuleScope::new(module);
    let mut block = Vec::new();
    let names = ["s0", "s1", "s2", "s3", "s4", "s5", "s6", "s7", "s8", "s9"];
    let mut at: u32 = 50;
    for name in names {
        block.extend(vec![ident(name, at), colon(at + 1), ident("x", at + 2), semi(at + 3)]);
        at += 4;
    }
    block.extend(vec![at_keyword("exclude", at), ws(at + 1), ident("s0", at + 2), ws(at + 3), ident("s9", at + 4), semi(at + 5)]);
    let rule = at_rule("classmap", vec![ws(0), ident("CN", 1)], Some(block));
    let cm = parse_at_class_map(&rule, &mut scope, &mut map).unwrap();
    assert_eq!(cm.states.len(), 10);
    assert_eq!(cm.exclude_constraints, vec![0b10_0000_0001]);
}

#[test]
fn classmap_in_table_mode() {
    let mut map = empty_map();
    let module = map.get_module_index("m");
    let mut scope = ModuleScope::new(module);
    let rule = at_rule("classmap", vec![ws(0), ident("CN", 1), ws(2)], Some(class_map_block()));
    let cm = parse_at_class_map(&rule, &mut scope, &mut map).unwrap();
    assert_eq!(cm.name, "CN");
    // the classes of the states get their identifiers first, those of @static last
    assert_eq!(cm.states.len(), 2);
    assert_eq!(cm.states[0].name, "on");
    assert_eq!(cm.states[0].classes, "a");
    assert_eq!(cm.states[1].name, "off");
    assert_eq!(cm.states[1].classes, "b");
    assert_eq!(cm.static_classes, "c");
    assert_eq!(cm.exclude_constraints, vec![0b11]);
    assert_eq!(map.new_ids(), "C,m,active,a\nC,m,inactive,b\nC,m,base,c\n");
    assert_eq!(cm.table(), vec!["c", "c a", "c b", ""]);
    let mut js = String::new();
    cm.emit_js(&mut js, ClassMapOutput::Table);
    assert_eq!(
        js,
        "const __CLASS_MAP_CN = [\n  \"c\",\n  \"c a\",\n  \"c b\",\n  \"\",\n];\n\n/** classmap {@link CN} */\nexport function CN(on, off) {\n return __CLASS_MAP_CN[(on ? 1 : 0) | (off ? 2 : 0)];\n}\n"
    );
    let mut js = String::new();
    cm.emit_js(&mut js, ClassMapOutput::Inline);
    assert_eq!(
        js,
        "/** classmap {@link CN} */\nexport function CN(on, off) {\n return (on ? \"c a\" : (off ? \"c b\" : \"c\"));\n}\n"
    );
    let mut ts = String::new();
    cm.emit_ts(&mut ts);
    assert_eq!(ts, "/** classmap {@link CN} */\nexport function CN(on: boolean, off: boolean): string;\n");
}

#[test]
fn classmap_errors() {
    let mut map = empty_map();
    let module = map.get_module_index("m");
    let mut scope = ModuleScope::new(module);
    // no block
    let rule = at_rule("classmap", vec![ws(0), ident("CN", 1)], None);
    let e = parse_at_class_map(&rule, &mut scope, &mut map).unwrap_err();
    assert!(matches!(e.kind, ParserErrorKind::ExpectedBlock));
    // a token behind the name
    let rule = at_rule("classmap", vec![ws(0), ident("CN", 1), ws(2), ident("x", 3)], Some(vec![]));
    let e = parse_at_class_map(&rule, &mut scope, &mut map).unwrap_err();
    assert!(matches!(e.kind, ParserErrorKind::UnknownToken));
    assert_eq!(e.span, sp(3, 4));
    // unknown at-keyword
    let rule = at_rule("classmap", vec![ws(0), ident("CN", 1)], Some(vec![at_keyword("dynamic", 5)]));
    let e = parse_at_class_map(&rule, &mut scope, &mut map).unwrap_err();
    assert!(matches!(e.kind, ParserErrorKind::UnknownAtRule));
    // unknown token
    let rule = at_rule("classmap", vec![ws(0), ident("CN", 1)], Some(vec![colon(5)]));
    let e = parse_at_class_map(&rule, &mut scope, &mut map).unwrap_err();
    assert!(matches!(e.kind, ParserErrorKind::UnknownToken));
    // another component value
    let rule = at_rule("classmap", vec![ws(0), ident("CN", 1)], Some(vec![ComponentValue::Other]));
    let e = parse_at_class_map(&rule, &mut scope, &mut map).unwrap_err();
    assert!(matches!(e.kind, ParserErrorKind::UnexpectedComponentValue));
    assert_eq!(e.span, sp(50, 100));
    // a state without a colon
    let rule = at_rule("classmap", vec![ws(0), ident("CN", 1)], Some(vec![ident("on", 5), ws(6), ident("a", 7)]));
    let e = parse_at_class_map(&rule, &mut scope, &mut map).unwrap_err();
    assert!(matches!(e.kind, ParserErrorKind::ExpectedColon));
    // @exclude that names no state
    let rule = at_rule(
        "classmap",
        vec![ws(0), ident("CN", 1)],
        Some(vec![at_keyword("exclude", 5), ws(6), ident("on", 7), semi(8)]),
    );
    let e = parse_at_class_map(&rule, &mut scope, &mut map).unwrap_err();
    assert!(matches!(e.kind, ParserErrorKind::UnknownToken));
    // the identifiers that were made before an error stay
    let rule = at_rule(
        "classmap",
        vec![ws(0), ident("CN", 1)],
        Some(vec![ident("on", 5), colon(6), ident("active", 7), semi(8), colon(9)]),
    );
    assert!(parse_at_class_map(&rule, &mut scope, &mut map).is_err());
    assert_eq!(map.new_ids(), "C,m,active,a\n");
}

#[test]
fn compiler_rewrites_names() {
    let mut map = empty_map();
    let module = map.get_module_index("foo");
    let mut compiler = ModuleCompiler::new(module);
    let mut selector = ClassSelector { span: sp(0, 5), text: "title".to_string() };
    compiler.visit_mut_class_selector(&mut map, &mut selector);
    assert_eq!(selector.text, "a");
    let mut var = DashedIdent { span: sp(0, 5), value: "gap".to_string() };
    compiler.visit_mut_dashed_ident(&mut map, &mut var);
    assert_eq!(var.value, "a");
    assert!(!compiler.has_keyframes);
    let mut name = KeyframesName::Str("spin".to_string());
    compiler.visit_mut_keyframes_name(&mut map, &mut name);
    assert!(matches!(&name, KeyframesName::Str(s) if s == "spin"));
    assert!(!compiler.has_keyframes);
    let mut name = KeyframesName::CustomIdent { span: sp(0, 4), value: "spin".to_string() };
    compiler.visit_mut_keyframes_name(&mut map, &mut name);
    assert!(matches!(&name, KeyframesName::CustomIdent { value, .. } if value == "a"));
    assert!(compiler.has_keyframes);
    assert!(!compiler.has_errors());
    assert_eq!(map.new_ids(), "C,foo,title,a\nV,foo,gap,a\nK,foo,spin,a\n");

    let artifact = compiler.finish(&map, ".a{color:red}".to_string(), ClassMapOutput::Inline).unwrap();
    assert_eq!(artifact.css, ".a{color:red}");
    assert_eq!(artifact.js, "");
    assert!(artifact.ts.contains("title = \"a\""));
    assert_eq!(
        artifact.ts,
        "/** class names */\nexport const enum c {\n  /** class {@link title} */\n  title = \"a\",\n}\n/** vars */\nexport const enum v {\n  /** var {@link gap} */\n  gap = \"a\",\n}\n/** keyframes */\nexport const enum k {\n  /** keyframes {@link spin} */\n  spin = \"a\",\n}\n"
    );
}

#[test]
fn cross_module_extern() {
    let mut map = empty_map();
    let foo = map.get_module_index("foo");
    let mut first = ModuleCompiler::new(foo);
    let mut selector = ClassSelector { span: sp(0, 5), text: "title".to_string() };
    first.visit_mut_class_selector(&mut map, &mut selector);
    assert_eq!(selector.text, "a");

    let bar = map.get_module_index("bar");
    let mut compiler = ModuleCompiler::new(bar);
    let rule = Rule::AtRule(at_rule(
        "extern",
        vec![
            ws(0),
            ident("class", 1),
            ws(2),
            ident("title", 3),
            ws(4),
            ident("as", 5),
            ws(6),
            ident("t", 7),
            ws(8),
            ident("from", 9),
            ws(10),
            string("foo", 11),
        ],
        None,
    ));
    assert!(!compiler.visit_mut_rule(&mut map, &rule));
    let rule = Rule::AtRule(at_rule(
        "extern",
        vec![ws(0), ident("class", 1), ws(2), ident("title", 3), ws(4), ident("from", 5), ws(6), string("foo", 7)],
        None,
    ));
    assert!(!compiler.visit_mut_rule(&mut map, &rule));
    let mut selector = ClassSelector { span: sp(0, 5), text: "wrap".to_string() };
    compiler.visit_mut_class_selector(&mut map, &mut selector);
    assert_eq!(selector.text, "b");
    let mut selector = ClassSelector { span: sp(0, 5), text: "t".to_string() };
    compiler.visit_mut_class_selector(&mut map, &mut selector);
    assert_eq!(selector.text, "a");
    assert!(compiler.visit_mut_rule(&mut map, &Rule::Other));
    assert!(compiler.visit_mut_rule(&mut map, &Rule::AtRule(at_rule("media", vec![], None))));

    let artifact = compiler.finish(&map, String::new(), ClassMapOutput::Inline).unwrap();
    assert_eq!(
        artifact.ts,
        "/** class names */\nexport const enum c {\n  /** extern class title as {@link t} from 'foo' */\n  t = \"a\",\n  /** extern class {@link title} from 'foo' */\n  title = \"a\",\n  /** class {@link wrap} */\n  wrap = \"b\",\n}\n/** vars */\nexport const enum v {\n}\n/** keyframes */\nexport const enum k {\n}\n"
    );
}

#[test]
fn extern_creates_unknown_module() {
    let mut map = empty_map();
    let bar = map.get_module_index("bar");
    let mut compiler = ModuleCompiler::new(bar);
    let rule = Rule::AtRule(at_rule(
        "extern",
        vec![ws(0), ident("var", 1), ws(2), ident("gap", 3), ws(4), ident("from", 5), ws(6), string("theme", 7)],
        None,
    ));
    assert!(!compiler.visit_mut_rule(&mut map, &rule));
    assert_eq!(map.modules().len(), 2);
    assert_eq!(map.modules()[1].id, "theme");
    assert_eq!(map.new_ids(), "V,theme,gap,a\n");
}

#[test]
fn classmap_rule_is_validated() {
    let mut map = empty_map();
    let module = map.get_module_index("m");
    let mut compiler = ModuleCompiler::new(module);
    let rule = Rule::AtRule(at_rule("classmap", vec![ws(0), ident("CN", 1), ws(2)], Some(class_map_block())));
    assert!(!compiler.visit_mut_rule(&mut map, &rule));
    assert_eq!(compiler.class_maps.len(), 1);
    assert!(!compiler.has_errors());
    // one state is too few
    let rule = Rule::AtRule(at_rule(
        "classmap",
        vec![ws(0), ident("One", 1)],
        Some(vec![ident("on", 5), colon(6), ident("active", 7), semi(8)]),
    ));
    assert!(!compiler.visit_mut_rule(&mut map, &rule));
    assert_eq!(compiler.class_maps.len(), 1);
    assert_eq!(compiler.diagnostics.len(), 1);
    assert_eq!(
        compiler.diagnostics[0].message,
        "class map should have at least 2 states and no more than 8 states but got 1 states"
    );
    assert_eq!(compiler.diagnostics[0].span, sp(0, 100));
    // nine states are too many
    let mut block = Vec::new();
    for i in 0..9 {
        block.push(ident(&format!("s{}", i), 5));
        block.push(colon(6));
        block.push(ident("active", 7));
        block.push(semi(8));
    }
    block.push(at_keyword("exclude", 9));
    block.push(ws(10));
    block.push(ident("s8", 11));
    block.push(semi(12));
    let rule = Rule::AtRule(at_rule("classmap", vec![ws(0), ident("Nine", 1)], Some(block)));
    assert!(!compiler.visit_mut_rule(&mut map, &rule));
    assert_eq!(
        compiler.diagnostics[1].message,
        "class map should have at least 2 states and no more than 8 states but got 9 states"
    );
    // a rule that cannot be read
    let rule = Rule::AtRule(at_rule("classmap", vec![ident("CN", 1)], Some(vec![])));
    assert!(!compiler.visit_mut_rule(&mut map, &rule));
    assert_eq!(compiler.diagnostics[2].message, "Expected whitespace");
    assert!(compiler.finish(&map, String::new(), ClassMapOutput::Table).is_none());
}

#[test]
fn error_messages() {
    let kinds = vec![
        (ParserErrorKind::ExpectedWhitespace, "Expected whitespace"),
        (ParserErrorKind::ExpectedKeyword("as".to_string()), "Expected keyword 'as'"),
        (ParserErrorKind::ExpectedIdentifier, "Expected identifier"),
        (ParserErrorKind::ExpectedValidJSIdentifier, "Expected valid JS identifier `[a-zA-Z_][a-zA-Z0-9_]*`"),
        (ParserErrorKind::ExpectedString, "Expected string"),
        (ParserErrorKind::ExpectedSemicolon, "Expected semicolon"),
        (ParserErrorKind::ExpectedColon, "Expected colon"),
        (ParserErrorKind::ExpectedPrelude, "Expected prelude"),
        (ParserErrorKind::ExpectedBlock, "Expected block"),
        (ParserErrorKind::UnknownToken, "Unknown token"),
        (ParserErrorKind::UnknownAtRule, "Unknown at rule"),
        (ParserErrorKind::UnexpectedComponentValue, "Unexpected component value"),
        (ParserErrorKind::OutOfIdentifiers, "Out of identifiers"),
    ];
    for (kind, message) in kinds {
        assert_eq!(kind.message(), message);
    }
}

#[test]
fn enumerations_are_sorted_by_name() {
    let mut map = empty_map();
    let module = map.get_module_index("m");
    let mut scope = ModuleScope::new(module);
    for name in ["b", "a", "ab", "B", "c", "aa", "_"] {
        scope.get_id(&mut map, IdKind::Class, name).unwrap();
    }
    let order = sorted_order(&scope.classes);
    let keys: Vec<&str> = order.iter().map(|i| scope.classes.key_at(*i).as_str()).collect();
    assert_eq!(keys, vec!["B", "_", "a", "aa", "ab", "b", "c"]);
    let mut ts = String::new();
    emit_ts(&mut ts, &scope, &vec![], map.modules());
    let lines: Vec<&str> = ts.lines().filter(|l| l.contains(" = ")).collect();
    assert_eq!(
        lines,
        vec!["  B = \"d\",", "  _ = \"g\",", "  a = \"b\",", "  aa = \"f\",", "  ab = \"c\",", "  b = \"a\",", "  c = \"e\","]
    );
}

#[test]
fn id_comment_forms() {
    let mut map = empty_map();
    let foo = map.get_module_index("foo");
    let bar = map.get_module_index("bar");
    let id = map.get_id(foo, IdKind::Keyframes, "spin").unwrap();
    let mut s = String::new();
    emit_id_comment(&mut s, "spin", &id, foo, map.modules());
    assert_eq!(s, "/** keyframes {@link spin} */\n");
    let mut s = String::new();
    emit_id_comment(&mut s, "spin", &id, bar, map.modules());
    assert_eq!(s, "/** extern keyframes {@link spin} from 'foo' */\n");
    let mut s = String::new();
    emit_id_comment(&mut s, "turn", &id, bar, map.modules());
    assert_eq!(s, "/** extern keyframes spin as {@link turn} from 'foo' */\n");
}

#[test]
fn emit_js_joins_class_maps() {
    let mut map = empty_map();
    let module = map.get_module_index("m");
    let mut compiler = ModuleCompiler::new(module);
    let rule = Rule::AtRule(at_rule("classmap", vec![ws(0), ident("CN", 1), ws(2)], Some(class_map_block())));
    compiler.visit_mut_rule(&mut map, &rule);
    let rule = Rule::AtRule(at_rule("classmap", vec![ws(0), ident("Other", 1), ws(2)], Some(class_map_block())));
    compiler.visit_mut_rule(&mut map, &rule);
    let mut js = String::new();
    emit_js(&mut js, &compiler.class_maps, ClassMapOutput::Inline);
    let mut one = String::new();
    compiler.class_maps[0].emit_js(&mut one, ClassMapOutput::Inline);
    let mut two = String::new();
    compiler.class_maps[1].emit_js(&mut two, ClassMapOutput::Inline);
    assert_eq!(js, format!("{}{}", one, two));
    let artifact = compiler.finish(&map, String::new(), ClassMapOutput::Inline).unwrap();
    assert!(artifact.ts.ends_with(
        "}\n\n/** classmap {@link CN} */\nexport function CN(on: boolean, off: boolean): string;\n/** classmap {@link Other} */\nexport function Other(on: boolean, off: boolean): string;\n"
    ));
}

#[test]
fn constant_inlining() {
    let mut consts = ConstMap::new();
    consts.visit_declaration(&DeclarationName::DashedIdent("PAD".to_string()), 0);
    consts.visit_declaration(&DeclarationName::Ident("color".to_string()), 1);
    consts.visit_declaration(&DeclarationName::DashedIdent("GAP".to_string()), 2);
    // the last write wins
    consts.visit_declaration(&DeclarationName::DashedIdent("PAD".to_string()), 3);
    assert_eq!(consts.get("PAD"), Some(3));
    assert_eq!(consts.get("GAP"), Some(2));
    assert_eq!(consts.get("color"), None);

    let pass = UpdateConstValues { const_map: &consts };
    let mut diagnostics = Vec::new();
    // no call of const: the declaration stays
    let values = vec![ValueKind::Other, ValueKind::Other];
    assert_eq!(pass.visit_mut_declaration(&values, &mut diagnostics), None);
    // padding: const(--PAD)
    let values = vec![
        ValueKind::Other,
        ValueKind::ConstCall { span: sp(1, 9), argument: Some(("PAD".to_string(), sp(2, 8))) },
        ValueKind::Other,
    ];
    let edits = pass.visit_mut_declaration(&values, &mut diagnostics).unwrap();
    assert_eq!(edits, vec![ValueEdit::Keep(0), ValueEdit::Insert(3), ValueEdit::Keep(2)]);
    assert!(diagnostics.is_empty());
    // a constant without a value, and a call without a name
    let values = vec![
        ValueKind::ConstCall { span: sp(1, 9), argument: Some(("NONE".to_string(), sp(2, 8))) },
        ValueKind::Other,
        ValueKind::ConstCall { span: sp(11, 19), argument: None },
    ];
    let edits = pass.visit_mut_declaration(&values, &mut diagnostics).unwrap();
    assert_eq!(edits, vec![ValueEdit::Keep(1)]);
    assert_eq!(diagnostics.len(), 2);
    assert_eq!(diagnostics[0].message, "Cannot find a const value 'NONE'");
    assert_eq!(diagnostics[0].span, sp(2, 8));
    assert_eq!(
        diagnostics[1].message,
        "Invalid function argument, const function should have a dashed identifier, e.g. '--CONST-VAR'"
    );
    assert_eq!(diagnostics[1].span, sp(11, 19));
}

#[test]
fn animation_names_are_rewritten() {
    let mut map = empty_map();
    let module = map.get_module_index("m");
    let mut scope = ModuleScope::new(module);
    scope.get_id(&mut map, IdKind::Keyframes, "fade").unwrap();
    scope.get_id(&mut map, IdKind::Keyframes, "spin").unwrap();
    let pass = TransformAnimationNames::new(&scope.keyframes);
    let mut values = vec![
        AnimationValue::Ident("spin".to_string()),
        AnimationValue::Other,
        AnimationValue::Ident("infinite".to_string()),
        AnimationValue::Ident("fade".to_string()),
    ];
    pass.visit_mut_declaration(&DeclarationName::Ident("color".to_string()), &mut values);
    assert!(matches!(&values[0], AnimationValue::Ident(s) if s == "spin"));
    pass.visit_mut_declaration(&DeclarationName::DashedIdent("animation".to_string()), &mut values);
    assert!(matches!(&values[0], AnimationValue::Ident(s) if s == "spin"));
    pass.visit_mut_declaration(&DeclarationName::Ident("animation".to_string()), &mut values);
    assert!(matches!(&values[0], AnimationValue::Ident(s) if s == "b"));
    assert!(matches!(&values[1], AnimationValue::Other));
    assert!(matches!(&values[2], AnimationValue::Ident(s) if s == "infinite"));
    assert!(matches!(&values[3], AnimationValue::Ident(s) if s == "a"));
}
