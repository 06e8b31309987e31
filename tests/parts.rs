use sandengine_lang::document::{Node, Numeric, Scalar};
use sandengine_lang::error::ParseError;
use sandengine_lang::materials::{extract_vec4, parse_material_names, Channel};
use sandengine_lang::parser::{check_and_convert_key_to_mapping, preparse_keys};
use sandengine_lang::rules::{parse_condition, parse_do, parse_global_scope, SandRule, SandRuleType};
use sandengine_lang::shaders::{expand_include, next_include};
use sandengine_lang::types::{add_child_to_type, get_parents_rules, SandType};

fn text(s: &str) -> Node {
    Node::Str(String::from(s))
}

fn sand_type(id: usize, name: &str, inherits: &str, base_rules: &[&str]) -> SandType {
    SandType {
        id,
        name: String::from(name),
        inherits: String::from(inherits),
        children: vec![],
        base_rules: base_rules.iter().map(|r| String::from(*r)).collect(),
    }
}

#[test]
fn lowering_rewrites_words_and_cells() {
    let mut s = String::from("SELF.mat == empty and not DOWNLEFT.mat == WALL or RIGHT.density > LEFT.density");
    parse_global_scope(&mut s);
    assert_eq!(s, "self.mat == MAT_EMPTY &&  !downleft.mat == WALL || right.density > left.density");
    let mut s = String::from("DOWNRIGHT");
    parse_global_scope(&mut s);
    assert_eq!(s, "downright");
}

#[test]
fn instructions() {
    assert_eq!(parse_do("rules/a/do", "SWAP SELF DOWN").unwrap(), "swap(SELF, DOWN);\n");
    assert_eq!(parse_do("rules/a/do", "SET LEFT water").unwrap(), "LEFT = newCell(MAT_water, pos);\n");
    match parse_do("rules/a/do", "SWAP SELF UP") {
        Err(ParseError::NotFound { missing, missing_in }) => {
            assert_eq!(missing, "UP");
            assert_eq!(missing_in, "rules/a/do");
        }
        _ => panic!("expected NotFound"),
    }
    match parse_do("rules/a/do", "SET UP water") {
        Err(ParseError::NotFound { missing, .. }) => assert_eq!(missing, "UP"),
        _ => panic!("expected NotFound"),
    }
    match parse_do("rules/a/do", "SWAP SELF") {
        Err(ParseError::NotRecognized { unrecog, .. }) => assert_eq!(unrecog, "SWAP SELF"),
        _ => panic!("expected NotRecognized"),
    }
    assert!(matches!(parse_do("p", "swap(SELF, DOWN)"), Err(ParseError::NotRecognized { .. })));
    assert!(matches!(parse_do("p", "SWAP SELF DOWN RIGHT"), Err(ParseError::NotRecognized { .. })));
}

#[test]
fn conditions() {
    let types = vec![String::from("solid"), String::from("EMPTY")];
    let mats = vec![String::from("sand"), String::from("EMPTY")];
    assert_eq!(
        parse_condition("DOWN.mat == sand or DOWN.mat != EMPTY", "rules/a/if", &types, &mats).unwrap(),
        "down.mat == MAT_sand || down.mat != MAT_EMPTY"
    );
    assert_eq!(
        parse_condition("isType_solid(DOWN) and DOWN.mat != SELF.mat", "rules/a/if", &types, &mats).unwrap(),
        "isType_solid(down) && down.mat != self.mat"
    );
    match parse_condition("isType_Liquid(DOWN)", "rules/a/if", &types, &mats) {
        Err(ParseError::NotFound { missing, missing_in }) => {
            assert_eq!(missing, "Liquid");
            assert_eq!(missing_in, "rules/a/if -> isType_");
        }
        _ => panic!("expected NotFound"),
    }
    match parse_condition("SELF.mat == water", "rules/a/if", &types, &mats) {
        Err(ParseError::NotFound { missing, .. }) => assert_eq!(missing, "water"),
        _ => panic!("expected NotFound"),
    }
}

#[test]
fn descendants_reach_every_ancestor() {
    let mut types = vec![sand_type(0, "EMPTY", "", &[]), sand_type(1, "solid", "", &[]), sand_type(2, "movable", "solid", &[])];
    add_child_to_type("solid", "movable", &mut types);
    types.push(sand_type(3, "powder", "movable", &[]));
    add_child_to_type("movable", "powder", &mut types);
    assert_eq!(types[1].children, vec![String::from("movable"), String::from("powder")]);
    assert_eq!(types[2].children, vec![String::from("powder")]);
    assert!(types[0].children.is_empty());
    add_child_to_type("", "nothing", &mut types);
    assert!(types[0].children.is_empty());
}

#[test]
fn inherited_rules_nearest_first() {
    let types = vec![
        sand_type(0, "solid", "", &["fall", "settle"]),
        sand_type(1, "movable", "solid", &["slide"]),
        sand_type(2, "powder", "movable", &["blow"]),
    ];
    assert_eq!(get_parents_rules(&types, &types[2]), vec!["slide", "fall", "settle"]);
    assert_eq!(get_parents_rules(&types, &types[1]), vec!["fall", "settle"]);
    assert!(get_parents_rules(&types, &types[0]).is_empty());
}

#[test]
fn sections_and_names() {
    let doc = Node::Mapping(vec![
        (text("rules"), Node::Mapping(vec![(text("a"), Node::Null), (text("b"), Node::Null)])),
        (text("types"), Node::List(vec![])),
    ]);
    let rules = check_and_convert_key_to_mapping(&doc, "rules").unwrap();
    assert_eq!(preparse_keys(rules, "rules").unwrap(), vec!["a", "b"]);
    assert!(matches!(check_and_convert_key_to_mapping(&doc, "types"), Err(ParseError::InvalidType { .. })));
    match check_and_convert_key_to_mapping(&doc, "materials") {
        Err(ParseError::MissingField { field_name, .. }) => assert_eq!(field_name, "materials"),
        _ => panic!("expected MissingField"),
    }
    let mats = vec![(Node::Bool(true), Node::Null)];
    assert!(matches!(parse_material_names(&mats), Err(ParseError::InvalidType { .. })));
}

fn number(k: u64) -> Node {
    Node::Num(Scalar { value: Numeric::PosInt(k), text: k.to_string() })
}

fn channel_default() -> [Channel; 4] {
    let zero = || Channel::Unit(Scalar { value: Numeric::PosInt(0), text: String::from("0") });
    [zero(), zero(), zero(), zero()]
}

#[test]
fn color_vectors() {
    let entry = Node::Mapping(vec![(text("color"), Node::List(vec![number(255), number(0), number(1)]))]);
    let c = extract_vec4(&entry, "x", "color", channel_default(), true).unwrap();
    assert!(matches!(c[0], Channel::Byte(255)));
    assert!(matches!(&c[1], Channel::Unit(s) if s.value == Numeric::PosInt(0)));
    assert!(matches!(c[2], Channel::Byte(1)));
    assert!(matches!(&c[3], Channel::Unit(s) if s.value == Numeric::PosInt(1) && s.text == "1"));
    let none = extract_vec4(&entry, "x", "emission", channel_default(), false).unwrap();
    assert!(matches!(&none[3], Channel::Unit(s) if s.text == "0"));
    match extract_vec4(&entry, "x", "emission", channel_default(), true) {
        Err(ParseError::MissingField { missing_in, .. }) => assert_eq!(missing_in, "materials/x/emission"),
        _ => panic!("expected MissingField"),
    }
    let big = Node::Mapping(vec![(text("color"), Node::List(vec![number(256), number(0), number(1)]))]);
    assert!(matches!(extract_vec4(&big, "x", "color", channel_default(), true), Err(ParseError::InvalidType { .. })));
    let neg = Node::Mapping(vec![(
        text("color"),
        Node::List(vec![Node::Num(Scalar { value: Numeric::NegInt(-1), text: String::from("-1") }), number(0), number(1)]),
    )]);
    assert!(matches!(extract_vec4(&neg, "x", "color", channel_default(), true), Err(ParseError::InvalidType { .. })));
}

#[test]
fn func_logic_nests_else_blocks() {
    let conds = vec![String::from("a"), String::from("b")];
    let acts = vec![String::from("x;"), String::from("y;"), String::from("z;")];
    assert_eq!(
        SandRule::get_func_logic(&conds, &acts, 1),
        "    if (a) {\n        x;\n    } else {\n        if (b) {\n            y;\n        } else {\nz;\n        }\n    }"
    );
    let none: Vec<String> = vec![];
    assert_eq!(SandRule::get_func_logic(&none, &none, 1), "");
    assert_eq!(SandRuleType::Left, SandRuleType::Left);
}

#[test]
fn shader_include_lines() {
    let shader = "void a();\n#include \"cells.glsl\"\nvoid b();";
    let directive = next_include(shader).unwrap();
    assert_eq!(directive.start, 9);
    assert_eq!(directive.path, "cells.glsl");
    assert_eq!(directive.end, 9 + 11 + 10 + 1);
    assert_eq!(expand_include(shader, &directive, "CELLS"), "void a();CELLS\n\n\n\nvoid b();");
    let commented = "// \n#include \"cells.glsl\"\nvoid b();";
    let directive = next_include(commented).unwrap();
    assert_eq!(expand_include(commented, &directive, "CELLS"), "// \nvoid b();");
    assert!(next_include("\n#include \"x\"").is_none());
    assert!(next_include("no includes here").is_none());
}

#[test]
fn empty_material_in_condition() {
    let types = vec![String::from("EMPTY")];
    let mats = vec![String::from("EMPTY")];
    assert_eq!(
        parse_condition("SELF.mat == empty", "rules/r/if", &types, &mats).unwrap(),
        "self.mat == MAT_EMPTY"
    );
    let rules = vec![(
        text("r"),
        Node::Mapping(vec![(text("if"), text("SELF.mat == empty")), (text("do"), text("SWAP SELF DOWN"))]),
    )];
    let parsed = sandengine_lang::rules::parse_rules(&rules, &types, &mats).unwrap();
    assert_eq!(parsed[0].if_conds, vec![String::from("self.mat == MAT_EMPTY")]);
}

#[test]
fn ancestors_declared_after_their_children() {
    let types = vec![
        sand_type(0, "P", "G", &["p_rule"]),
        sand_type(1, "G", "", &["g_rule"]),
        sand_type(2, "C", "P", &["c_rule"]),
    ];
    assert_eq!(get_parents_rules(&types, &types[2]), vec!["p_rule", "g_rule"]);
    let mut types = vec![sand_type(0, "P", "G", &[]), sand_type(1, "G", "", &[])];
    add_child_to_type("P", "c", &mut types);
    assert_eq!(types[0].children, vec![String::from("c")]);
    assert_eq!(types[1].children, vec![String::from("c")]);
}

#[test]
fn cyclic_parents_end_the_walk() {
    let types = vec![sand_type(0, "A", "B", &["a"]), sand_type(1, "B", "A", &["b"])];
    assert_eq!(get_parents_rules(&types, &types[0]), vec!["b", "a"]);
    let mut types = types;
    add_child_to_type("A", "x", &mut types);
    assert_eq!(types[0].children, vec![String::from("x")]);
    assert_eq!(types[1].children, vec![String::from("x")]);
}
