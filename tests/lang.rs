use sandengine_lang::document::Numeric;
use sandengine_lang::error::ParseError;
use sandengine_lang::glsl::{materials_glsl, rules_glsl};
use sandengine_lang::materials::Channel;
use sandengine_lang::parser::parse_string;
use sandengine_lang::rules::{SandRule, SandRuleType};
use sandengine_lang::GLSLConvertible;

fn message(res: Result<sandengine_lang::ParsingResult, ParseError>) -> String {
    match res {
        Ok(_) => panic!("the document compiled"),
        Err(e) => e.describe(),
    }
}

fn rule<'a>(rules: &'a [SandRule], name: &str) -> &'a SandRule {
    rules.iter().find(|r| r.name == name).unwrap()
}

const SAND: &str = "
rules:
    gravity:
        if: DOWN.mat != SELF.mat
        do: SWAP SELF DOWN
        mirrored: false
types:
    movable:
        base_rules: [gravity]
materials:
    sand:
        type: movable
        color: [1, 1, 0]
        density: 1.5
";

#[test]
fn missing_rules() {
    let res = parse_string(&String::from("
    types:
        movable_solid:
            base_rules: [
                gravity,
                slide_diagonally
            ]


    materials:
        sand:
            color: [1.0, 1.0, 0.0, 1.0]
            type: movable_solid
            density: 1.5
            selectable: true
    "));
    let msg = message(res);
    assert!(msg.contains("MissingField"));
    assert!(msg.contains("'rules'"));
}

#[test]
fn missing_types() {
    let res = parse_string(&String::from("
    rules:
        gravity:
            if: DOWN.density < SELF.density
            do: SWAP SELF DOWN
            mirrored: false
        slide_diagonally:
            if: DOWNRIGHT.density < SELF.density
            do: swap(SELF, DOWNRIGHT)
            mirrored: true

    materials:
        sand:
            color: [1.0, 1.0, 0.0, 1.0]
            type: movable_solid
            density: 1.5
            selectable: true
    "));
    let msg = message(res);
    assert!(msg.contains("MissingField"));
    assert!(msg.contains("'types'"));
}

#[test]
fn missing_materials() {
    let res = parse_string(&String::from("
    rules:
        gravity:
            if: DOWN.density < SELF.density
            do: SWAP SELF DOWN
            mirrored: false
        slide_diagonally:
            if: DOWNRIGHT.density < SELF.density
            do: swap(SELF, DOWNRIGHT)
            mirrored: true
    

    types:
        movable_solid:
            base_rules: [
                gravity,
                slide_diagonally
            ]
    "));
    let msg = message(res);
    assert!(msg.contains("MissingField"));
    assert!(msg.contains("'materials'"));
}

#[test]
fn invalid_name() {
    // The three sections are read before any name is looked at, so this
    // document, which has no `types`, fails on the missing section.
    let res = parse_string(&String::from("
    rules:
        1.0:
            if: DOWN.density < SELF.density
            do: SWAP SELF DOWN
            mirrored: false
        slide_diagonally:
            if: DOWNRIGHT.density < SELF.density
            do: swap(SELF, DOWNRIGHT)
            mirrored: true
    "));
    assert!(message(res).contains("MissingField"));

    // With all sections present, the rule named by a number is refused.
    let res = parse_string(&String::from("
    rules:
        1.0:
            if: DOWN.density < SELF.density
            do: SWAP SELF DOWN
            mirrored: false
        slide_diagonally:
            if: DOWNRIGHT.density < SELF.density
            do: swap(SELF, DOWNRIGHT)
            mirrored: true
    types: {}
    materials: {}
    "));
    assert!(message(res).contains("InvalidType"));
}

#[test]
fn missing_field() {
    let res = parse_string(&String::from("
    rules:
        gravity:
            #if: DOWN.density < SELF.density
            do: SWAP SELF DOWN
            mirrored: false
        slide_diagonally:
            if: DOWNRIGHT.density < SELF.density
            do: swap(SELF, DOWNRIGHT)
            mirrored: true
    "));
    assert!(message(res).contains("MissingField"));

    // `swap(SELF, DOWNRIGHT)` is no instruction: the rules fail before the
    // materials are reached.
    let res = parse_string(&String::from("
    rules:
        gravity:
            if: DOWN.density < SELF.density
            do: SWAP SELF DOWN
            mirrored: false
        slide_diagonally:
            if: DOWNRIGHT.density < SELF.density
            do: swap(SELF, DOWNRIGHT)
            mirrored: true


    types:
        movable_solid:
            base_rules: [
                gravity,
                slide_diagonally
            ]

    
    materials:
        sand:
            #color: [1.0, 1.0, 0.0, 1.0]
            type: movable_solid
            density: 1.5
            selectable: true
    "));
    assert!(message(res).contains("NotRecognized"));

    let res = parse_string(&String::from("
    rules:
        gravity:
            if: DOWN.density < SELF.density
            do: SWAP SELF DOWN
            mirrored: false
        slide_diagonally:
            if: DOWNRIGHT.density < SELF.density
            do: SWAP SELF DOWNRIGHT
            mirrored: true


    types:
        movable_solid:
            base_rules: [
                gravity,
                slide_diagonally
            ]

    
    materials:
        sand:
            #color: [1.0, 1.0, 0.0, 1.0]
            type: movable_solid
            density: 1.5
            selectable: true
    "));
    assert!(message(res).contains("MissingField"));
}

#[test]
fn not_found() {
    let res = parse_string(&String::from("
    rules:
        gravity:
            if: DOWN.density < SELF.density
            do: SWAP SELF DOWN
            mirrored: false
        slide_diagonally:
            if: DOWNRIGHT.density < SELF.density
            do: swap(SELF, DOWNRIGHT)
            mirrored: true


    types:
        movable_solid:
            base_rules: [
                gravity,
                slide_diagonally
            ]

    
    materials:
        sand:
            color: [1.0, 1.0, 0.0, 1.0]
            type: liquid
            density: 1.5
            selectable: true
    "));
    assert!(message(res).contains("NotRecognized"));

    let res = parse_string(&String::from("
    rules:
        gravity:
            if: DOWN.density < SELF.density
            do: SWAP SELF DOWN
            mirrored: false
        slide_diagonally:
            if: DOWNRIGHT.density < SELF.density
            do: SWAP SELF DOWNRIGHT
            mirrored: true


    types:
        movable_solid:
            base_rules: [
                gravity,
                slide_diagonally
            ]

    
    materials:
        sand:
            color: [1.0, 1.0, 0.0, 1.0]
            type: liquid
            density: 1.5
            selectable: true
    "));
    let msg = message(res);
    assert!(msg.contains("NotFound"));
    assert!(msg.contains("'liquid'"));
}

#[test]
fn end_to_end_gravity() {
    let result = parse_string(SAND).unwrap();
    let gravity = rule(&result.rules, "gravity");
    assert!(gravity.used);
    assert_eq!(gravity.precondition, Some(String::from("isType_movable(self)")));
    assert_eq!(gravity.ruletype, SandRuleType::Right);
    assert_eq!(gravity.if_conds, vec![String::from("down.mat != self.mat")]);
    assert_eq!(gravity.do_actions, vec![String::from("swap(self, down);")]);
    let names: Vec<&str> = result.materials.iter().map(|m| m.name.as_str()).collect();
    assert_eq!(names, vec!["EMPTY", "NULL", "WALL", "sand"]);
    assert_eq!(result.materials[3].id, 3);
    assert_eq!(result.types[3].id, 3);
    assert_eq!(result.types[3].name, "movable");
}

#[test]
fn generated_rule_function() {
    let result = parse_string(SAND).unwrap();
    let code = rule(&result.rules, "gravity").get_glsl_code();
    assert_eq!(
        code,
        "void rule_gravity (inout Cell self, inout Cell right, inout Cell down, inout Cell downright, vec4 rand, ivec2 pos) {\n    if (!(isType_movable(self))) {\n        return;\n    }\n    if (down.mat != self.mat) {\n        swap(self, down);\n    } else {\n\n    }\n}"
    );
    let rules = rules_glsl(&result.rules);
    assert!(rules.contains("rule_gravity(self, right, down, downright, rand, pos);"));
    assert!(rules.contains("void applyRightRules("));
}

#[test]
fn generated_material_constants() {
    let result = parse_string(SAND).unwrap();
    let code = materials_glsl(&result.types, &result.materials);
    assert!(code.starts_with("#define TYPE_EMPTY 0\n\n#define TYPE_NULL 1\n\n"));
    assert!(code.contains("#define TYPE_movable 3\n\n"));
    assert!(code.contains(
        "#define MAT_sand Material(3, vec4(1.0/255.0, 1.0/255.0, 0, 1), 1.5, vec4(0, 0, 0, 0), TYPE_movable)\n"
    ));
    assert!(code.contains("#define MAT_WALL Material(2, vec4(0.1, 0.2, 0.3, 1), 9999, vec4(0, 0, 0, 0), TYPE_WALL)\n"));
    assert!(code.contains("Material[4] materials() {"));
    assert!(code.contains("MAT_EMPTY,\nMAT_NULL,\nMAT_WALL,\nMAT_sand,\n"));
}

#[test]
fn unused_rules_are_left_out() {
    let result = parse_string("
rules:
    gravity:
        if: DOWN.mat != SELF.mat
        do: SWAP SELF DOWN
    spare:
        if: SELF.mat == EMPTY
        do: SET SELF sand
    glow:
        if: SELF.mat == sand
        do: SET SELF sand
types:
    movable:
        base_rules: [gravity]
materials:
    sand:
        type: movable
        color: [1, 1, 0]
        density: 1
        extra_rules: [glow, nothing]
").unwrap();
    assert!(rule(&result.rules, "gravity").used);
    assert!(rule(&result.rules, "glow").used);
    assert!(!rule(&result.rules, "spare").used);
    assert_eq!(result.materials[3].extra_rules, vec![String::from("glow")]);
    let code = rules_glsl(&result.rules);
    assert!(code.contains("void rule_gravity "));
    assert!(code.contains("void rule_glow "));
    assert!(!code.contains("rule_spare"));
}

#[test]
fn compiling_twice_gives_the_same_text() {
    let a = parse_string(SAND).unwrap();
    let b = parse_string(SAND).unwrap();
    assert_eq!(rules_glsl(&a.rules), rules_glsl(&b.rules));
    assert_eq!(materials_glsl(&a.types, &a.materials), materials_glsl(&b.types, &b.materials));
}

#[test]
fn checker_counts_descendants() {
    let result = parse_string("
rules: {}
types:
    solid: {}
    movable:
        inherits: solid
    powder:
        inherits: movable
materials: {}
").unwrap();
    let solid = result.types.iter().find(|t| t.name == "solid").unwrap();
    assert_eq!(solid.children, vec![String::from("movable"), String::from("powder")]);
    assert_eq!(
        solid.get_checker_func(),
        "bool isType_solid(Cell cell) {\n    return cell.mat.type == TYPE_solid || cell.mat.type == TYPE_movable || cell.mat.type == TYPE_powder;\n}\n\n"
    );
    let movable = result.types.iter().find(|t| t.name == "movable").unwrap();
    assert!(movable.get_checker_func().contains("TYPE_powder"));
    assert_eq!(movable.inherits, "solid");
}

#[test]
fn inherited_rules_admit_descendants() {
    let result = parse_string("
rules:
    fall:
        if: DOWN.mat == EMPTY
        do: SWAP SELF DOWN
types:
    solid:
        base_rules: [fall]
    movable:
        inherits: solid
materials: {}
").unwrap();
    assert_eq!(
        rule(&result.rules, "fall").precondition,
        Some(String::from("isType_solid(self) || isType_movable(self)"))
    );
    assert_eq!(rule(&result.rules, "fall").if_conds, vec![String::from("down.mat == MAT_EMPTY")]);
}

#[test]
fn unguarded_rule_stays_unguarded() {
    let result = parse_string("
rules:
    fall:
        if: DOWN.mat == EMPTY
        do: SWAP SELF DOWN
        precondition: false
types:
    solid:
        base_rules: [fall]
    movable:
        inherits: solid
materials:
    sand:
        type: movable
        color: [1, 1, 0]
        density: 1
        extra_rules: [fall]
").unwrap();
    let fall = rule(&result.rules, "fall");
    assert!(fall.used);
    assert_eq!(fall.precondition, None);
    assert!(!fall.get_glsl_code().contains("return;"));
}

#[test]
fn two_materials_share_a_rule() {
    let result = parse_string("
rules:
    burn:
        if: SELF.mat == fire
        do: SET SELF fire
types:
    flammable: {}
materials:
    wood:
        type: flammable
        color: [0.5, 0.25, 0]
        density: 2
        extra_rules: [burn]
    fire:
        type: flammable
        color: [1, 0, 0]
        density: 0.1
        extra_rules: [burn]
").unwrap();
    let burn = rule(&result.rules, "burn");
    assert_eq!(burn.precondition, Some(String::from("self.mat == MAT_wood || self.mat == MAT_fire")));
    assert_eq!(burn.do_actions, vec![String::from("self = newCell(MAT_fire, pos);")]);
    assert_eq!(burn.if_conds, vec![String::from("self.mat == MAT_fire")]);
}

fn channel_value(c: &Channel) -> f32 {
    match c {
        Channel::Byte(n) => *n as f32 / 255.0,
        Channel::Unit(x) => x.text.parse::<f32>().unwrap(),
    }
}

#[test]
fn byte_colors_are_scaled() {
    let result = parse_string("
rules: {}
types:
    solid: {}
materials:
    orange:
        type: solid
        color: [255, 128, 0]
        density: 1
").unwrap();
    let m = &result.materials[3];
    let expected = [1.0f32, 0.502, 0.0, 1.0];
    for k in 0..4 {
        assert!((channel_value(&m.color[k]) - expected[k]).abs() < 0.001);
    }
    assert!(matches!(m.color[0], Channel::Byte(255)));
    assert!(matches!(m.color[1], Channel::Byte(128)));
    let emission: Vec<f32> = m.emission.iter().map(channel_value).collect();
    assert_eq!(emission, vec![0.0, 0.0, 0.0, 0.0]);
    assert!(m.selectable);
}

#[test]
fn color_of_four_floats_and_emission() {
    let result = parse_string("
rules: {}
types:
    solid: {}
materials:
    lamp:
        type: solid
        color: [0.5, 0.25, 1.0, 0.75]
        emission: [1, 1, 1]
        density: 3
        selectable: false
").unwrap();
    let m = &result.materials[3];
    let color: Vec<f32> = m.color.iter().map(channel_value).collect();
    assert_eq!(color, vec![0.5, 0.25, 1.0, 0.75]);
    assert!((channel_value(&m.emission[3]) - 1.0).abs() < 1e-6);
    assert!(!m.selectable);
    assert_eq!(m.density.value, Numeric::PosInt(3));
}

#[test]
fn swap_with_unknown_cell() {
    let msg = message(parse_string("
rules:
    lift:
        if: SELF.mat == EMPTY
        do: SWAP SELF UP
types: {}
materials: {}
"));
    assert!(msg.contains("NotFound"));
    assert!(msg.contains("'UP'"));
    assert!(msg.contains("rules/lift/do"));
}

#[test]
fn undeclared_type_in_condition() {
    let msg = message(parse_string("
rules:
    flow:
        if: isType_Liquid(DOWN)
        do: SWAP SELF DOWN
types: {}
materials: {}
"));
    assert!(msg.contains("NotFound"));
    assert!(msg.contains("'Liquid'"));
}

#[test]
fn undeclared_material_in_condition() {
    let msg = message(parse_string("
rules:
    flow:
        if: DOWN.mat == water
        do: SWAP SELF DOWN
types: {}
materials: {}
"));
    assert!(msg.contains("NotFound"));
    assert!(msg.contains("'water'"));
}

#[test]
fn unknown_instruction() {
    let msg = message(parse_string("
rules:
    flow:
        if: DOWN.mat == EMPTY
        do: JUMP SELF
types: {}
materials: {}
"));
    assert!(msg.contains("NotRecognized"));
}

#[test]
fn wrong_kinds_of_values() {
    let msg = message(parse_string("
rules:
    flow:
        if: DOWN.mat == EMPTY
        do: SWAP SELF DOWN
        mirrored: sometimes
types: {}
materials: {}
"));
    assert!(msg.contains("InvalidType"));
    assert!(msg.contains("mirrored"));
    let msg = message(parse_string("
rules: {}
types: {}
materials:
    sand:
        type: EMPTY
        color: [1, 2]
        density: 1
"));
    assert!(msg.contains("InvalidType"));
    assert!(msg.contains("materials/sand/color"));
    let msg = message(parse_string("
rules: {}
types: {}
materials:
    sand:
        type: EMPTY
        color: [1, 1, 1]
        density: heavy
"));
    assert!(msg.contains("InvalidType"));
    let msg = message(parse_string("rules: []\ntypes: {}\nmaterials: {}\n"));
    assert!(msg.contains("InvalidType"));
}

#[test]
fn not_yaml() {
    let res = parse_string("rules: [unclosed");
    assert!(matches!(res, Err(ParseError::Syntax { .. })));
}

#[test]
fn chains_mirroring_and_probability() {
    let result = parse_string("
rules:
    slide:
        if: DOWNLEFT.mat == EMPTY and not LEFT.mat == sand
        do:
            - SWAP SELF LEFT
            - SET DOWNLEFT sand
        else:
            if: DOWN.mat == EMPTY or DOWN.mat == sand
            do: SWAP SELF DOWN
            else:
                do: SET SELF sand
        probability: 0.5
    spread:
        if: RIGHT.mat == EMPTY
        do: SWAP SELF RIGHT
        mirrored: true
types:
    movable:
        base_rules: [slide, spread]
materials:
    sand:
        type: movable
        color: [1, 1, 0]
        density: 1
").unwrap();
    let slide = rule(&result.rules, "slide");
    assert_eq!(slide.ruletype, SandRuleType::Left);
    assert_eq!(slide.if_conds, vec![
        String::from("downleft.mat == MAT_EMPTY &&  !left.mat == MAT_sand"),
        String::from("down.mat == MAT_EMPTY || down.mat == MAT_sand"),
    ]);
    assert_eq!(slide.do_actions, vec![
        String::from("swap(self, left);\ndownleft = newCell(MAT_sand, pos);"),
        String::from("swap(self, down);"),
        String::from("self = newCell(MAT_sand, pos);"),
    ]);
    let code = slide.get_glsl_code();
    assert!(code.starts_with("void rule_slide (inout Cell self, inout Cell left,"));
    assert!(code.contains("    if (rand.y > 0.5) {\n        return;\n    }\n"));
    assert!(code.contains("        } else {\nself = newCell(MAT_sand, pos);\n        }"));
    let spread = rule(&result.rules, "spread");
    assert_eq!(spread.ruletype, SandRuleType::Mirrored);
    assert!(spread.mirror);
    let rules = rules_glsl(&result.rules);
    assert!(rules.contains("rule_slide(self, left, down, downright, rand, pos);"));
    assert!(rules.contains("rule_spread(self, right, down, downright, rand, pos);"));
}

#[test]
fn probability_out_of_range() {
    let msg = message(parse_string("
rules:
    flow:
        if: DOWN.mat == EMPTY
        do: SWAP SELF DOWN
        probability: 1.5
types: {}
materials: {}
"));
    assert!(msg.contains("InvalidType"));
    assert!(msg.contains("probability"));
}

#[test]
fn parent_declared_later_is_not_found() {
    let msg = message(parse_string("
rules: {}
types:
    movable:
        inherits: solid
    solid: {}
materials: {}
"));
    assert!(msg.contains("NotFound"));
    assert!(msg.contains("'solid'"));
    let msg = message(parse_string("
rules: {}
types:
    movable:
        base_rules: [gravity]
materials: {}
"));
    assert!(msg.contains("NotFound"));
    assert!(msg.contains("types/movable/base_rules"));
}

#[test]
fn selectable_must_be_a_bool() {
    let msg = message(parse_string("
rules: {}
types: {}
materials:
    sand:
        type: EMPTY
        color: [1, 1, 1]
        density: 1
        selectable: maybe
"));
    assert!(msg.contains("InvalidType"));
    assert!(msg.contains("'selectable'"));
    assert!(msg.contains("materials/sand'"));
}

#[test]
fn type_guard_then_two_materials() {
    let result = parse_string("
rules:
    burn:
        if: SELF.mat == empty
        do: SET SELF ash
types:
    flammable:
        base_rules: [burn]
materials:
    wood:
        type: flammable
        color: [1, 1, 1]
        density: 1
        extra_rules: [burn]
    ash:
        type: flammable
        color: [1, 1, 1]
        density: 1
        extra_rules: [burn]
").unwrap();
    let burn = rule(&result.rules, "burn");
    assert_eq!(
        burn.precondition,
        Some(String::from("isType_flammable(self) || self.mat == MAT_wood || self.mat == MAT_ash"))
    );
    assert_eq!(burn.if_conds, vec![String::from("self.mat == MAT_EMPTY")]);
}
