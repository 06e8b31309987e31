use vstd::prelude::*;
use crate::document::{ScalarView, is_one, is_one_exec};
use crate::materials::{Channel, ChannelView, MaterialView, SandMaterial, channel_views, material_views};
use crate::rules::{RuleView, SandRule, SandRuleType, rule_views};
use crate::text::{decimal, decimal_text, trim_end_text, trimmed_end};
use crate::types::{SandType, TypeView, type_views};

verus! {

/// A compiled item that contributes a piece of shader code.
pub trait GLSLConvertible {
    /// The shader code of the item.
    spec fn glsl(&self) -> Seq<char>;

    fn get_glsl_code(&self) -> (r: String)
        ensures
            r@ == self.glsl(),
    ;
}

/// The constant that names a type.
pub open spec fn type_define(t: TypeView) -> Seq<char> {
    "#define TYPE_"@ + t.name + " "@ + decimal(t.id) + "\n\n"@
}

/// The tests of a checker function for the given descendants.
pub open spec fn child_checks(children: Seq<Seq<char>>) -> Seq<char>
    decreases children.len(),
{
    if children.len() == 0 {
        Seq::empty()
    } else {
        child_checks(children.drop_last()) + " || cell.mat.type == TYPE_"@ + children.last()
    }
}

/// The function that tells whether a cell's material is of a type or of
/// one of its descendants.
pub open spec fn checker(t: TypeView) -> Seq<char> {
    "bool isType_"@ + t.name + "(Cell cell) {\n    return cell.mat.type == TYPE_"@ + t.name
        + child_checks(t.children) + ";\n}\n\n"@
}

impl GLSLConvertible for SandType {
    open spec fn glsl(&self) -> Seq<char> {
        type_define(self@)
    }

    fn get_glsl_code(&self) -> (r: String) {
        let mut s = String::from_str("#define TYPE_");
        s.append(self.name.as_str());
        s.append(" ");
        s.append(decimal_text(self.id as u64).as_str());
        s.append("\n\n");
        s
    }
}

impl SandType {
    /// The function that tells whether a cell is of this type, counting its
    /// descendants.
    pub fn get_checker_func(&self) -> (r: String)
        ensures
            r@ == checker(self@),
    {
        let mut s = String::from_str("bool isType_");
        s.append(self.name.as_str());
        s.append("(Cell cell) {\n    return cell.mat.type == TYPE_");
        s.append(self.name.as_str());
        let ghost head = s@;
        let mut i: usize = 0;
        while i < self.children.len()
            invariant
                i <= self.children@.len(),
                s@ == head + child_checks(self.children.deep_view().subrange(0, i as int)),
            decreases self.children.len() - i,
        {
            assert(self.children.deep_view().subrange(0, i + 1).drop_last() =~= self.children.deep_view().subrange(0, i as int));
            s.append(" || cell.mat.type == TYPE_");
            s.append(self.children[i].as_str());
            i = i + 1;
        }
        assert(self.children.deep_view().subrange(0, i as int) =~= self.children.deep_view());
        s.append(";\n}\n\n");
        s
    }
}

/// The shader text of a color channel; a byte `n` is written `n.0/255.0`.
pub open spec fn channel_text(c: ChannelView) -> Seq<char> {
    match c {
        ChannelView::Byte(n) => decimal(n as nat) + ".0/255.0"@,
        ChannelView::Unit(x) => x.text,
    }
}

pub open spec fn vec4_text(cs: Seq<ChannelView>) -> Seq<char> {
    "vec4("@ + channel_text(cs[0]) + ", "@ + channel_text(cs[1]) + ", "@ + channel_text(cs[2]) + ", "@
        + channel_text(cs[3]) + ")"@
}

/// The constant that names a material.
pub open spec fn material_define(m: MaterialView) -> Seq<char> {
    "#define MAT_"@ + m.name + " Material("@ + decimal(m.id) + ", "@ + vec4_text(m.color) + ", "@
        + m.density.text + ", "@ + vec4_text(m.emission) + ", TYPE_"@ + m.mattype + ")\n"@
}

fn channel_glsl(c: &Channel) -> (r: String)
    ensures
        r@ == channel_text(c@),
{
    match c {
        Channel::Byte(n) => {
            let mut s = decimal_text(*n as u64);
            s.append(".0/255.0");
            s
        },
        Channel::Unit(x) => String::from_str(x.text.as_str()),
    }
}

fn vec4_glsl(cs: &[Channel; 4]) -> (r: String)
    ensures
        r@ == vec4_text(channel_views(cs@)),
{
    let mut s = String::from_str("vec4(");
    s.append(channel_glsl(&cs[0]).as_str());
    s.append(", ");
    s.append(channel_glsl(&cs[1]).as_str());
    s.append(", ");
    s.append(channel_glsl(&cs[2]).as_str());
    s.append(", ");
    s.append(channel_glsl(&cs[3]).as_str());
    s.append(")");
    s
}

impl GLSLConvertible for SandMaterial {
    open spec fn glsl(&self) -> Seq<char> {
        material_define(self@)
    }

    fn get_glsl_code(&self) -> (r: String) {
        let mut s = String::from_str("#define MAT_");
        s.append(self.name.as_str());
        s.append(" Material(");
        s.append(decimal_text(self.id as u64).as_str());
        s.append(", ");
        s.append(vec4_glsl(&self.color).as_str());
        s.append(", ");
        s.append(self.density.text.as_str());
        s.append(", ");
        s.append(vec4_glsl(&self.emission).as_str());
        s.append(", TYPE_");
        s.append(self.mattype.as_str());
        s.append(")\n");
        s
    }
}

/// Four spaces for each level.
pub open spec fn indent(level: nat) -> Seq<char>
    decreases level,
{
    if level == 0 {
        Seq::empty()
    } else {
        indent((level - 1) as nat) + "    "@
    }
}

/// The nested if/else blocks of the conditions and actions from `i` on; an
/// action without a condition ends the chain.
pub open spec fn func_logic(conds: Seq<Seq<char>>, acts: Seq<Seq<char>>, i: int, ind: Seq<char>) -> Seq<char>
    decreases conds.len() - i,
{
    if i < 0 || i >= acts.len() {
        Seq::empty()
    } else if i >= conds.len() {
        acts[i]
    } else {
        ind + "if ("@ + conds[i] + ") {\n"@ + ind + "    "@ + acts[i] + "\n"@ + ind + "} else {\n"@
            + func_logic(conds, acts, i + 1, ind + "    "@) + "\n"@ + ind + "}"@
    }
}

/// The neighbour cell that a rule reads beside `self`.
pub open spec fn direction(t: SandRuleType) -> Seq<char> {
    match t {
        SandRuleType::Left => "left"@,
        _ => "right"@,
    }
}

/// The early return of a rule that runs with a probability below 1.
pub open spec fn probability_gate(p: ScalarView) -> Seq<char> {
    if is_one(p.value) {
        Seq::empty()
    } else {
        "    if (rand.y > "@ + p.text + ") {\n        return;\n    }\n"@
    }
}

/// The early return of a rule restricted to some types or materials.
pub open spec fn precondition_gate(pre: Option<Seq<char>>) -> Seq<char> {
    match pre {
        Some(c) => if c.len() > 0 {
            "    if (!("@ + c + ")) {\n        return;\n    }\n"@
        } else {
            Seq::empty()
        },
        None => Seq::empty(),
    }
}

/// The shader function of a rule.
pub open spec fn rule_function(r: RuleView) -> Seq<char> {
    "void rule_"@ + r.name + " (inout Cell self, inout Cell "@ + direction(r.ruletype)
        + ", inout Cell down, inout Cell downright, vec4 rand, ivec2 pos) {\n"@ + probability_gate(
        r.probability,
    ) + precondition_gate(r.precondition) + func_logic(r.if_conds, r.do_actions, 0, indent(1)) + "\n}"@
}

fn indent_text(level: usize) -> (r: String)
    ensures
        r@ == indent(level as nat),
{
    let mut s = String::new();
    let mut k: usize = 0;
    while k < level
        invariant
            k <= level,
            s@ == indent(k as nat),
        decreases level - k,
    {
        s.append("    ");
        k = k + 1;
    }
    s
}

impl SandRule {
    /// The nested if/else blocks of a rule's conditions and actions,
    /// indented from level `indent_lvl`.
    pub fn get_func_logic(if_conds: &Vec<String>, do_actions: &Vec<String>, indent_lvl: usize) -> (r: String)
        ensures
            r@ == func_logic(if_conds.deep_view(), do_actions.deep_view(), 0, indent(indent_lvl as nat)),
    {
        let ind = indent_text(indent_lvl);
        logic_from(if_conds, do_actions, 0, ind.as_str())
    }
}

fn logic_from(if_conds: &Vec<String>, do_actions: &Vec<String>, i: usize, ind: &str) -> (r: String)
    ensures
        r@ == func_logic(if_conds.deep_view(), do_actions.deep_view(), i as int, ind@),
    decreases if_conds@.len() - i,
{
    if i >= do_actions.len() {
        return String::new();
    }
    if i >= if_conds.len() {
        return String::from_str(do_actions[i].as_str());
    }
    let mut deeper = String::from_str(ind);
    deeper.append("    ");
    let inner = logic_from(if_conds, do_actions, i + 1, deeper.as_str());
    let mut s = String::from_str(ind);
    s.append("if (");
    s.append(if_conds[i].as_str());
    s.append(") {\n");
    s.append(deeper.as_str());
    s.append(do_actions[i].as_str());
    s.append("\n");
    s.append(ind);
    s.append("} else {\n");
    s.append(inner.as_str());
    s.append("\n");
    s.append(ind);
    s.append("}");
    s
}

impl GLSLConvertible for SandRule {
    open spec fn glsl(&self) -> Seq<char> {
        rule_function(self@)
    }

    fn get_glsl_code(&self) -> (r: String) {
        let mut s = String::from_str("void rule_");
        s.append(self.name.as_str());
        s.append(" (inout Cell self, inout Cell ");
        match self.ruletype {
            SandRuleType::Left => s.append("left"),
            _ => s.append("right"),
        }
        s.append(", inout Cell down, inout Cell downright, vec4 rand, ivec2 pos) {\n");
        if !is_one_exec(self.probability.value) {
            s.append("    if (rand.y > ");
            s.append(self.probability.text.as_str());
            s.append(") {\n        return;\n    }\n");
        }
        match &self.precondition {
            Some(c) => {
                if c.unicode_len() > 0 {
                    s.append("    if (!(");
                    s.append(c.as_str());
                    s.append(")) {\n        return;\n    }\n");
                }
            },
            None => {},
        }
        s.append(SandRule::get_func_logic(&self.if_conds, &self.do_actions, 1).as_str());
        s.append("\n}");
        s
    }
}

/// The constants of all types.
pub open spec fn type_defines(ts: Seq<TypeView>) -> Seq<char>
    decreases ts.len(),
{
    if ts.len() == 0 {
        Seq::empty()
    } else {
        type_defines(ts.drop_last()) + type_define(ts.last())
    }
}

/// The checker functions of all types.
pub open spec fn checkers(ts: Seq<TypeView>) -> Seq<char>
    decreases ts.len(),
{
    if ts.len() == 0 {
        Seq::empty()
    } else {
        checkers(ts.drop_last()) + checker(ts.last())
    }
}

/// The constants of all materials.
pub open spec fn material_defines(ms: Seq<MaterialView>) -> Seq<char>
    decreases ms.len(),
{
    if ms.len() == 0 {
        Seq::empty()
    } else {
        material_defines(ms.drop_last()) + material_define(ms.last())
    }
}

/// The entries of the table of all materials.
pub open spec fn material_list(ms: Seq<MaterialView>) -> Seq<char>
    decreases ms.len(),
{
    if ms.len() == 0 {
        Seq::empty()
    } else {
        material_list(ms.drop_last()) + "MAT_"@ + ms.last().name + ",\n"@
    }
}

/// The table of all materials and the lookup of a material by its id.
pub open spec fn material_helpers(ms: Seq<MaterialView>) -> Seq<char> {
    "\nMaterial["@ + decimal(ms.len()) + "] materials() {\n    Material allMaterials["@ + decimal(ms.len())
        + "] = {\n        "@ + material_list(ms)
        + "\n    };\n    return allMaterials;\n}\n\nMaterial getMaterialFromID(int id) {\n    for (int i = 0; i < materials().length(); i++) {\n        if (id == materials()[i].id) {\n            return materials()[i];\n        };\n    };\n    return MAT_NULL;\n}\n\n"@
}

/// The generated code of types and materials: the constants of the types,
/// then their checker functions, then the materials.
pub open spec fn materials_file(ts: Seq<TypeView>, ms: Seq<MaterialView>) -> Seq<char> {
    type_defines(ts) + checkers(ts) + "\n"@ + material_defines(ms) + material_helpers(ms)
}

/// The functions of the used rules, in order.
pub open spec fn rule_functions(rs: Seq<RuleView>) -> Seq<char>
    decreases rs.len(),
{
    if rs.len() == 0 {
        Seq::empty()
    } else if rs.last().used {
        rule_functions(rs.drop_last()) + rule_function(rs.last()) + "\n\n"@
    } else {
        rule_functions(rs.drop_last())
    }
}

/// The call of a rule from a dispatcher.
pub open spec fn rule_call(r: RuleView) -> Seq<char> {
    "rule_"@ + r.name + "(self, "@ + direction(r.ruletype) + ", down, downright, rand, pos);\n"@
}

/// The calls of the used rules of one kind, in order.
pub open spec fn rule_calls(rs: Seq<RuleView>, kind: SandRuleType) -> Seq<char>
    decreases rs.len(),
{
    if rs.len() == 0 {
        Seq::empty()
    } else if rs.last().used && rs.last().ruletype == kind {
        rule_calls(rs.drop_last(), kind) + rule_call(rs.last())
    } else {
        rule_calls(rs.drop_last(), kind)
    }
}

pub open spec fn dispatcher(name: Seq<char>, neighbour: Seq<char>, calls: Seq<char>) -> Seq<char> {
    "void "@ + name + "(\n    inout Cell self,\n    inout Cell "@ + neighbour
        + ",\n    inout Cell down,\n    inout Cell downright,\n    vec4 rand,\n    ivec2 pos) {\n    "@
        + trimmed_end(calls) + "\n}"@
}

/// The generated code of the rules: the functions of the used rules, then
/// one dispatcher for each kind of rule.
pub open spec fn rules_file(rs: Seq<RuleView>) -> Seq<char> {
    "\n// =============== RULES ===============\n"@ + rule_functions(rs)
        + "\n\n\n// =============== CALLERS ===============\n"@ + dispatcher(
        "applyMirroredRules"@,
        "right"@,
        rule_calls(rs, SandRuleType::Mirrored),
    ) + "\n\n\n"@ + dispatcher("applyLeftRules"@, "left"@, rule_calls(rs, SandRuleType::Left))
        + "\n\n"@ + dispatcher("applyRightRules"@, "right"@, rule_calls(rs, SandRuleType::Right))
}

/// The generated code of types and materials (see `materials_file`).
pub fn materials_glsl(types: &Vec<SandType>, materials: &Vec<SandMaterial>) -> (r: String)
    ensures
        r@ == materials_file(type_views(types@), material_views(materials@)),
{
    let ghost ts = type_views(types@);
    let ghost ms = material_views(materials@);
    let mut defines = String::new();
    let mut checks = String::new();
    let mut i: usize = 0;
    while i < types.len()
        invariant
            ts == type_views(types@),
            i <= types@.len(),
            defines@ == type_defines(ts.subrange(0, i as int)),
            checks@ == checkers(ts.subrange(0, i as int)),
        decreases types.len() - i,
    {
        assert(ts.subrange(0, i + 1).drop_last() =~= ts.subrange(0, i as int));
        defines.append(types[i].get_glsl_code().as_str());
        checks.append(types[i].get_checker_func().as_str());
        i = i + 1;
    }
    assert(ts.subrange(0, i as int) =~= ts);
    let mut mats = String::new();
    let mut list = String::new();
    let mut k: usize = 0;
    while k < materials.len()
        invariant
            ms == material_views(materials@),
            k <= materials@.len(),
            mats@ == material_defines(ms.subrange(0, k as int)),
            list@ == material_list(ms.subrange(0, k as int)),
        decreases materials.len() - k,
    {
        assert(ms.subrange(0, k + 1).drop_last() =~= ms.subrange(0, k as int));
        mats.append(materials[k].get_glsl_code().as_str());
        list.append("MAT_");
        list.append(materials[k].name.as_str());
        list.append(",\n");
        k = k + 1;
    }
    assert(ms.subrange(0, k as int) =~= ms);
    let count = decimal_text(materials.len() as u64);
    let mut out = defines;
    out.append(checks.as_str());
    out.append("\n");
    out.append(mats.as_str());
    out.append("\nMaterial[");
    out.append(count.as_str());
    out.append("] materials() {\n    Material allMaterials[");
    out.append(count.as_str());
    out.append("] = {\n        ");
    out.append(list.as_str());
    out.append(
        "\n    };\n    return allMaterials;\n}\n\nMaterial getMaterialFromID(int id) {\n    for (int i = 0; i < materials().length(); i++) {\n        if (id == materials()[i].id) {\n            return materials()[i];\n        };\n    };\n    return MAT_NULL;\n}\n\n",
    );
    out
}

fn dispatcher_glsl(name: &str, neighbour: &str, calls: &str) -> (r: String)
    ensures
        r@ == dispatcher(name@, neighbour@, calls@),
{
    let mut s = String::from_str("void ");
    s.append(name);
    s.append("(\n    inout Cell self,\n    inout Cell ");
    s.append(neighbour);
    s.append(",\n    inout Cell down,\n    inout Cell downright,\n    vec4 rand,\n    ivec2 pos) {\n    ");
    s.append(trim_end_text(calls).as_str());
    s.append("\n}");
    s
}

/// The generated code of the rules (see `rules_file`).
pub fn rules_glsl(rules: &Vec<SandRule>) -> (r: String)
    ensures
        r@ == rules_file(rule_views(rules@)),
{
    let ghost rs = rule_views(rules@);
    let mut funcs = String::new();
    let mut mirrored = String::new();
    let mut left = String::new();
    let mut right = String::new();
    let mut i: usize = 0;
    while i < rules.len()
        invariant
            rs == rule_views(rules@),
            i <= rules@.len(),
            funcs@ == rule_functions(rs.subrange(0, i as int)),
            mirrored@ == rule_calls(rs.subrange(0, i as int), SandRuleType::Mirrored),
            left@ == rule_calls(rs.subrange(0, i as int), SandRuleType::Left),
            right@ == rule_calls(rs.subrange(0, i as int), SandRuleType::Right),
        decreases rules.len() - i,
    {
        assert(rs.subrange(0, i + 1).drop_last() =~= rs.subrange(0, i as int));
        let r = &rules[i];
        if r.used {
            funcs.append(r.get_glsl_code().as_str());
            funcs.append("\n\n");
            let mut call = String::from_str("rule_");
            call.append(r.name.as_str());
            call.append("(self, ");
            match r.ruletype {
                SandRuleType::Left => call.append("left"),
                _ => call.append("right"),
            }
            call.append(", down, downright, rand, pos);\n");
            match r.ruletype {
                SandRuleType::Mirrored => mirrored.append(call.as_str()),
                SandRuleType::Left => left.append(call.as_str()),
                SandRuleType::Right => right.append(call.as_str()),
            }
        }
        i = i + 1;
    }
    assert(rs.subrange(0, i as int) =~= rs);
    let mut out = String::from_str("\n// =============== RULES ===============\n");
    out.append(funcs.as_str());
    out.append("\n\n\n// =============== CALLERS ===============\n");
    out.append(dispatcher_glsl("applyMirroredRules", "right", mirrored.as_str()).as_str());
    out.append("\n\n\n");
    out.append(dispatcher_glsl("applyLeftRules", "left", left.as_str()).as_str());
    out.append("\n\n");
    out.append(dispatcher_glsl("applyRightRules", "right", right.as_str()).as_str());
    out
}

} // verus!
