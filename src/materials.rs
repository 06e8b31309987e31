use vstd::prelude::*;
use crate::document::{
    Node, Numeric, Scalar, ScalarView, copy_scalar, get, is_unit, is_unit_exec, lookup, scalar,
};
use crate::error::{
    Fault, ParseError, hint_bool, hint_color, hint_float, hint_sequence, hint_string, invalid_type,
    missing_field, not_found,
};
use crate::rules::{RuleView, SandRule, has_rule, mark, push_text, rule_views, use_rule};
use crate::types::{SandType, TypeView, type_views};

verus! {

/// One channel of a color: an integer `n` from 1 to 255 stands for `n / 255`;
/// any other value is a number from 0 to 1, kept as written.
#[derive(Debug)]
pub enum Channel {
    Byte(u8),
    Unit(Scalar),
}

pub enum ChannelView {
    Byte(u8),
    Unit(ScalarView),
}

impl View for Channel {
    type V = ChannelView;

    open spec fn view(&self) -> ChannelView {
        match self {
            Channel::Byte(n) => ChannelView::Byte(*n),
            Channel::Unit(x) => ChannelView::Unit(x@),
        }
    }
}

/// The views of the channels of a color.
pub open spec fn channel_views(cs: Seq<Channel>) -> Seq<ChannelView> {
    cs.map_values(|c: Channel| c@)
}

/// A compiled material.
#[derive(Debug)]
pub struct SandMaterial {
    /// Index of the material, and its id in the shader.
    pub id: usize,
    /// Name of the material (its key in the document).
    pub name: String,
    /// Name of the material's type.
    pub mattype: String,
    /// Color, as red, green, blue and alpha.
    pub color: [Channel; 4],
    /// Emitted light, as red, green, blue and alpha.
    pub emission: [Channel; 4],
    /// Whether the material can be picked in the user interface.
    pub selectable: bool,
    /// Density of the material.
    pub density: Scalar,
    /// Rules that apply to this material alone.
    pub extra_rules: Vec<String>,
}

pub struct MaterialView {
    pub id: nat,
    pub name: Seq<char>,
    pub mattype: Seq<char>,
    pub color: Seq<ChannelView>,
    pub emission: Seq<ChannelView>,
    pub selectable: bool,
    pub density: ScalarView,
    pub extra_rules: Seq<Seq<char>>,
}

impl View for SandMaterial {
    type V = MaterialView;

    open spec fn view(&self) -> MaterialView {
        MaterialView {
            id: self.id as nat,
            name: self.name@,
            mattype: self.mattype@,
            color: channel_views(self.color@),
            emission: channel_views(self.emission@),
            selectable: self.selectable,
            density: self.density@,
            extra_rules: self.extra_rules.deep_view(),
        }
    }
}

pub open spec fn material_views(ms: Seq<SandMaterial>) -> Seq<MaterialView> {
    ms.map_values(|m: SandMaterial| m@)
}

/// The channel that one component of a color list gives, if it is valid.
pub open spec fn channel_of(n: Node) -> Option<ChannelView> {
    match n {
        Node::Num(x) => match x.value {
            Numeric::PosInt(k) => if 1 <= k <= 255 {
                Some(ChannelView::Byte(k as u8))
            } else if is_unit(x.value) {
                Some(ChannelView::Unit(x@))
            } else {
                None
            },
            _ => if is_unit(x.value) {
                Some(ChannelView::Unit(x@))
            } else {
                None
            },
        },
        _ => None,
    }
}

/// The channels of a list of components, if every one is valid.
pub open spec fn channels(items: Seq<Node>) -> Option<Seq<ChannelView>>
    decreases items.len(),
{
    if items.len() == 0 {
        Some(Seq::empty())
    } else {
        match channels(items.drop_last()) {
            None => None,
            Some(cs) => match channel_of(items.last()) {
                Some(c) => Some(cs.push(c)),
                None => None,
            },
        }
    }
}

pub open spec fn one() -> ChannelView {
    ChannelView::Unit(ScalarView { value: Numeric::PosInt(1), text: "1"@ })
}

pub open spec fn zero() -> ChannelView {
    ChannelView::Unit(ScalarView { value: Numeric::PosInt(0), text: "0"@ })
}

/// A color field: three or four components; with three, alpha is 1.
pub open spec fn vector_of(entry: Node, name: Seq<char>, field: Seq<char>, default: Seq<ChannelView>, mandatory: bool) -> Result<Seq<ChannelView>, Fault> {
    let path = "materials/"@ + name + "/"@ + field;
    match lookup(entry, field) {
        None => if mandatory {
            Err(Fault::MissingField { field, path })
        } else {
            Ok(default)
        },
        Some(Node::List(items)) => if 3 <= items@.len() <= 4 {
            match channels(items@) {
                Some(cs) => if cs.len() == 3 {
                    Ok(cs.push(one()))
                } else {
                    Ok(cs)
                },
                None => Err(Fault::InvalidType { what: field, path, expected: hint_color() }),
            }
        } else {
            Err(Fault::InvalidType { what: field, path, expected: hint_color() })
        },
        Some(_) => Err(Fault::InvalidType { what: field, path, expected: hint_color() }),
    }
}

fn read_channel(n: &Node) -> (r: Option<Channel>)
    ensures
        match channel_of(*n) {
            Some(c) => r is Some && r->Some_0@ == c,
            None => r is None,
        },
{
    match n {
        Node::Num(x) => {
            match x.value {
                Numeric::PosInt(k) => {
                    if 1 <= k && k <= 255 {
                        return Some(Channel::Byte(k as u8));
                    }
                },
                _ => {},
            }
            if is_unit_exec(x.value) {
                Some(Channel::Unit(copy_scalar(x)))
            } else {
                None
            }
        },
        _ => None,
    }
}

/// Reads a color field of a material (see `vector_of`).
pub fn extract_vec4(yaml_data: &Node, parent_name: &str, field_name: &str, default: [Channel; 4], mandatory: bool) -> (r: Result<[Channel; 4], ParseError>)
    ensures
        match vector_of(*yaml_data, parent_name@, field_name@, channel_views(default@), mandatory) {
            Ok(cs) => r is Ok && channel_views(r->Ok_0@) == cs,
            Err(f) => r is Err && r->Err_0@ == f,
        },
{
    let mut path = String::from_str("materials/");
    path.append(parent_name);
    path.append("/");
    path.append(field_name);
    let field = get(yaml_data, field_name);
    match field {
        None => {
            if mandatory {
                Err(missing_field(field_name, path.as_str()))
            } else {
                Ok(default)
            }
        },
        Some(Node::List(items)) => {
            if items.len() < 3 || items.len() > 4 {
                return Err(invalid_type(field_name, path.as_str(), color_hint()));
            }
            let mut cs: Vec<Channel> = Vec::new();
            let mut i: usize = 0;
            while i < items.len()
                invariant
                    field == Some(&Node::List(*items)),
                    lookup(*yaml_data, field_name@) == Some(Node::List(*items)),
                    path@ == "materials/"@ + parent_name@ + "/"@ + field_name@,
                    i <= items@.len(),
                    cs@.len() == i,
                    3 <= items@.len() <= 4,
                    channels(items@.subrange(0, i as int)) == Some(channel_views(cs@)),
                decreases items.len() - i,
            {
                assert(items@.subrange(0, i + 1).drop_last() =~= items@.subrange(0, i as int));
                match read_channel(&items[i]) {
                    Some(c) => {
                        let ghost before = cs@;
                        cs.push(c);
                        assert(channel_views(cs@) =~= channel_views(before).push(c@));
                    },
                    None => {
                        proof {
                            lemma_channels_stop(items@, i + 1);
                        }
                        return Err(invalid_type(field_name, path.as_str(), color_hint()));
                    },
                }
                i = i + 1;
            }
            assert(items@.subrange(0, i as int) =~= items@);
            let ghost all = channel_views(cs@);
            let alpha = if cs.len() == 4 {
                cs.pop().unwrap()
            } else {
                unit(1)
            };
            let c2 = cs.pop().unwrap();
            let c1 = cs.pop().unwrap();
            let c0 = cs.pop().unwrap();
            let v = [c0, c1, c2, alpha];
            assert(channel_views(v@) =~= (if all.len() == 3 { all.push(one()) } else { all }));
            Ok(v)
        },
        Some(_) => Err(invalid_type(field_name, path.as_str(), color_hint())),
    }
}

proof fn lemma_channels_stop(items: Seq<Node>, k: int)
    requires
        0 <= k <= items.len(),
        channels(items.subrange(0, k)) is None,
    ensures
        channels(items) is None,
    decreases items.len() - k,
{
    if k < items.len() {
        assert(items.subrange(0, k + 1).drop_last() =~= items.subrange(0, k));
        lemma_channels_stop(items, k + 1);
    } else {
        assert(items.subrange(0, k) =~= items);
    }
}

fn color_hint() -> (r: &'static str)
    ensures
        r@ == hint_color(),
{
    "sequence (array, '[...]') of 3-4 floats (range 0.0-1.0) OR integers (range 0-255). (With 3 elements, the alpha channel defaults to 1.0)"
}

/// The precondition clause that admits the cells of one material.
pub open spec fn material_clause(name: Seq<char>) -> Seq<char> {
    "self.mat == MAT_"@ + name
}

/// The names and rules after the `extra_rules` items of a material: each
/// name of a declared rule is kept and refers to that rule; other names are
/// passed over.
pub open spec fn extras(items: Seq<Node>, path: Seq<char>, rs: Seq<RuleView>, clause: Seq<char>) -> Result<(Seq<Seq<char>>, Seq<RuleView>), Fault>
    decreases items.len(),
{
    if items.len() == 0 {
        Ok((Seq::empty(), rs))
    } else {
        match extras(items.drop_last(), path, rs, clause) {
            Err(f) => Err(f),
            Ok((ns, rs1)) => match items.last() {
                Node::Str(r) => if has_rule(rs1, r@) {
                    Ok((ns.push(r@), mark(rs1, r@, clause, true)))
                } else {
                    Ok((ns, rs1))
                },
                _ => Err(Fault::InvalidType { what: "extra_rules"@, path, expected: hint_string() }),
            },
        }
    }
}

/// The `extra_rules` field of a material: absent, or a list of names.
pub open spec fn extra_rules_of(entry: Node, path: Seq<char>, rs: Seq<RuleView>, clause: Seq<char>) -> Result<(Seq<Seq<char>>, Seq<RuleView>), Fault> {
    match lookup(entry, "extra_rules"@) {
        None => Ok((Seq::empty(), rs)),
        Some(Node::List(items)) => extras(items@, path, rs, clause),
        Some(_) => Err(Fault::InvalidType { what: "extra_rules"@, path, expected: hint_sequence() }),
    }
}

/// The `type` field of a material: the name of a compiled type.
pub open spec fn material_type_of(entry: Node, path: Seq<char>, ts: Seq<Seq<char>>) -> Result<Seq<char>, Fault> {
    match lookup(entry, "type"@) {
        None => Err(Fault::MissingField { field: "type"@, path }),
        Some(Node::Str(t)) => if ts.contains(t@) {
            Ok(t@)
        } else {
            Err(Fault::NotFound { missing: t@, path: path + "/type"@ })
        },
        Some(_) => Err(Fault::InvalidType { what: "type"@, path, expected: hint_string() }),
    }
}

/// The `selectable` field: a boolean, by default true.
pub open spec fn selectable_of(entry: Node, path: Seq<char>) -> Result<bool, Fault> {
    match lookup(entry, "selectable"@) {
        None => Ok(true),
        Some(Node::Bool(b)) => Ok(b),
        Some(_) => Err(Fault::InvalidType { what: "selectable"@, path, expected: hint_bool() }),
    }
}

/// The `density` field: a mandatory number.
pub open spec fn density_of(entry: Node, path: Seq<char>) -> Result<ScalarView, Fault> {
    match lookup(entry, "density"@) {
        None => Err(Fault::MissingField { field: "density"@, path }),
        Some(Node::Num(n)) => Ok(n@),
        Some(_) => Err(Fault::InvalidType { what: "density"@, path: path + "/density"@, expected: hint_float() }),
    }
}

pub open spec fn magenta() -> Seq<ChannelView> {
    seq![one(), zero(), one(), one()]
}

pub open spec fn transparent() -> Seq<ChannelView> {
    seq![zero(), zero(), zero(), zero()]
}

/// The material with id `id` and the rules after one entry of the
/// `materials` section; `type_names` are the names of the compiled types.
pub open spec fn material_step(key: Node, entry: Node, id: nat, type_names: Seq<Seq<char>>, rs: Seq<RuleView>) -> Result<(MaterialView, Seq<RuleView>), Fault> {
    match key {
        Node::Str(name) => {
            let path = "materials/"@ + name@;
            match material_type_of(entry, path, type_names) {
                Err(f) => Err(f),
                Ok(t) => match vector_of(entry, name@, "color"@, magenta(), true) {
                    Err(f) => Err(f),
                    Ok(color) => match vector_of(entry, name@, "emission"@, transparent(), false) {
                        Err(f) => Err(f),
                        Ok(emission) => match selectable_of(entry, path) {
                            Err(f) => Err(f),
                            Ok(selectable) => match density_of(entry, path) {
                                Err(f) => Err(f),
                                Ok(density) => match extra_rules_of(entry, path, rs, material_clause(name@)) {
                                    Err(f) => Err(f),
                                    Ok((extra, rs1)) => Ok(
                                        (
                                            MaterialView {
                                                id,
                                                name: name@,
                                                mattype: t,
                                                color,
                                                emission,
                                                selectable,
                                                density,
                                                extra_rules: extra,
                                            },
                                            rs1,
                                        ),
                                    ),
                                },
                            },
                        },
                    },
                },
            }
        },
        _ => Err(Fault::InvalidType { what: "name"@, path: "materials"@, expected: hint_string() }),
    }
}

pub open spec fn builtin_material(id: nat, name: Seq<char>, color: Seq<ChannelView>, selectable: bool, density: ScalarView) -> MaterialView {
    MaterialView {
        id,
        name,
        mattype: name,
        color,
        emission: transparent(),
        selectable,
        density,
        extra_rules: Seq::empty(),
    }
}

/// Bit patterns of the binary64 values 0.1, 0.2 and 0.3.
pub const TENTH_BITS: u64 = 0x3FB9_9999_9999_999A;

pub const TWO_TENTHS_BITS: u64 = 0x3FC9_9999_9999_999A;

pub const THREE_TENTHS_BITS: u64 = 0x3FD3_3333_3333_3333;

pub open spec fn wall_color() -> Seq<ChannelView> {
    seq![
        ChannelView::Unit(ScalarView { value: Numeric::Float(TENTH_BITS), text: "0.1"@ }),
        ChannelView::Unit(ScalarView { value: Numeric::Float(TWO_TENTHS_BITS), text: "0.2"@ }),
        ChannelView::Unit(ScalarView { value: Numeric::Float(THREE_TENTHS_BITS), text: "0.3"@ }),
        one(),
    ]
}

pub open spec fn whole(k: u64, text: Seq<char>) -> ScalarView {
    ScalarView { value: Numeric::PosInt(k), text }
}

/// The three materials that every document has.
pub open spec fn builtin_materials() -> Seq<MaterialView> {
    seq![
        builtin_material(0, "EMPTY"@, transparent(), true, whole(1, "1"@)),
        builtin_material(1, "NULL"@, magenta(), false, whole(0, "0"@)),
        builtin_material(2, "WALL"@, wall_color(), false, whole(9999, "9999"@)),
    ]
}

/// The materials and rules after the entries of the `materials` section.
pub open spec fn materials_from(entries: Seq<(Node, Node)>, type_names: Seq<Seq<char>>, rs: Seq<RuleView>) -> Result<(Seq<MaterialView>, Seq<RuleView>), Fault>
    decreases entries.len(),
{
    if entries.len() == 0 {
        Ok((builtin_materials(), rs))
    } else {
        match materials_from(entries.drop_last(), type_names, rs) {
            Err(f) => Err(f),
            Ok((ms, rs1)) => match material_step(entries.last().0, entries.last().1, ms.len(), type_names, rs1) {
                Err(f) => Err(f),
                Ok((m, rs2)) => Ok((ms.push(m), rs2)),
            },
        }
    }
}

/// The names of a list of types.
pub open spec fn type_names_of(ts: Seq<TypeView>) -> Seq<Seq<char>> {
    ts.map_values(|t: TypeView| t.name)
}

proof fn lemma_extras_stop(items: Seq<Node>, path: Seq<char>, rs: Seq<RuleView>, clause: Seq<char>, k: int)
    requires
        0 <= k <= items.len(),
        extras(items.subrange(0, k), path, rs, clause) is Err,
    ensures
        extras(items, path, rs, clause) == extras(items.subrange(0, k), path, rs, clause),
    decreases items.len() - k,
{
    if k < items.len() {
        assert(items.subrange(0, k + 1).drop_last() =~= items.subrange(0, k));
        lemma_extras_stop(items, path, rs, clause, k + 1);
    } else {
        assert(items.subrange(0, k) =~= items);
    }
}

proof fn lemma_materials_from_stop(entries: Seq<(Node, Node)>, type_names: Seq<Seq<char>>, rs: Seq<RuleView>, k: int)
    requires
        0 <= k <= entries.len(),
        materials_from(entries.subrange(0, k), type_names, rs) is Err,
    ensures
        materials_from(entries, type_names, rs) == materials_from(entries.subrange(0, k), type_names, rs),
    decreases entries.len() - k,
{
    if k < entries.len() {
        assert(entries.subrange(0, k + 1).drop_last() =~= entries.subrange(0, k));
        lemma_materials_from_stop(entries, type_names, rs, k + 1);
    } else {
        assert(entries.subrange(0, k) =~= entries);
    }
}

fn read_extra_rules(entry: &Node, path: &str, rules: &mut Vec<SandRule>, clause: &str) -> (r: Result<Vec<String>, ParseError>)
    ensures
        match extra_rules_of(*entry, path@, rule_views(old(rules)@), clause@) {
            Ok((ns, rs)) => r is Ok && r->Ok_0.deep_view() == ns && rule_views(final(rules)@) == rs,
            Err(f) => r is Err && r->Err_0@ == f,
        },
{
    let mut out: Vec<String> = Vec::new();
    assert(out.deep_view() =~= Seq::<Seq<char>>::empty());
    let field = get(entry, "extra_rules");
    match field {
        None => Ok(out),
        Some(Node::List(items)) => {
            let ghost rs0 = rule_views(rules@);
            let mut i: usize = 0;
            while i < items.len()
                invariant
                    field == Some(&Node::List(*items)),
                    lookup(*entry, "extra_rules"@) == Some(Node::List(*items)),
                    rs0 == rule_views(old(rules)@),
                    i <= items@.len(),
                    extras(items@.subrange(0, i as int), path@, rs0, clause@)
                        == Ok::<(Seq<Seq<char>>, Seq<RuleView>), Fault>((out.deep_view(), rule_views(rules@))),
                decreases items.len() - i,
            {
                assert(items@.subrange(0, i + 1).drop_last() =~= items@.subrange(0, i as int));
                match &items[i] {
                    Node::Str(name) => {
                        let ghost prev = rule_views(rules@);
                        if use_rule(rules, name.as_str(), clause, true) {
                            push_text(&mut out, String::from_str(name.as_str()));
                        } else {
                            assert(mark(prev, name@, clause@, true) =~= prev) by {
                                assert forall|k: int| 0 <= k < prev.len() implies mark(prev, name@, clause@, true)[k] == prev[k] by {
                                    assert(prev[k].name != name@);
                                }
                            }
                        }
                    },
                    _ => {
                        proof {
                            lemma_extras_stop(items@, path@, rs0, clause@, i + 1);
                        }
                        return Err(invalid_type("extra_rules", path, "string"));
                    },
                }
                i = i + 1;
            }
            assert(items@.subrange(0, i as int) =~= items@);
            Ok(out)
        },
        Some(_) => Err(invalid_type("extra_rules", path, "sequence (array, '[...]')")),
    }
}

fn type_listed(types: &Vec<SandType>, name: &str) -> (r: bool)
    ensures
        r == type_names_of(type_views(types@)).contains(name@),
{
    let mut i: usize = 0;
    while i < types.len()
        invariant
            i <= types@.len(),
            forall|j: int| 0 <= j < i ==> types@[j].name@ != name@,
        decreases types.len() - i,
    {
        if crate::document::same_text(types[i].name.as_str(), name) {
            assert(type_names_of(type_views(types@))[i as int] == name@);
            return true;
        }
        i = i + 1;
    }
    assert(!type_names_of(type_views(types@)).contains(name@)) by {
        if type_names_of(type_views(types@)).contains(name@) {
            let j = choose|j: int| 0 <= j < type_names_of(type_views(types@)).len() && type_names_of(type_views(types@))[j] == name@;
            assert(types@[j].name@ == name@);
        }
    }
    false
}

/// Compiles one entry of the `materials` section.
fn parse_material(key: &Node, entry: &Node, id: usize, types: &Vec<SandType>, rules: &mut Vec<SandRule>) -> (r: Result<SandMaterial, ParseError>)
    ensures
        match material_step(*key, *entry, id as nat, type_names_of(type_views(types@)), rule_views(old(rules)@)) {
            Ok((m, rs)) => r is Ok && r->Ok_0@ == m && rule_views(final(rules)@) == rs,
            Err(f) => r is Err && r->Err_0@ == f,
        },
{
    let name = match key {
        Node::Str(s) => s,
        _ => {
            return Err(invalid_type("name", "materials", "string"));
        },
    };
    let mut path = String::from_str("materials/");
    path.append(name.as_str());
    let mattype = match get(entry, "type") {
        None => {
            return Err(missing_field("type", path.as_str()));
        },
        Some(Node::Str(t)) => {
            if !type_listed(types, t.as_str()) {
                let mut q = String::from_str(path.as_str());
                q.append("/type");
                return Err(not_found(t.as_str(), q.as_str()));
            }
            String::from_str(t.as_str())
        },
        Some(_) => {
            return Err(invalid_type("type", path.as_str(), "string"));
        },
    };
    let fallback = [unit(1), unit(0), unit(1), unit(1)];
    let clear = [unit(0), unit(0), unit(0), unit(0)];
    assert(channel_views(fallback@) =~= magenta());
    assert(channel_views(clear@) =~= transparent());
    let color = extract_vec4(entry, name.as_str(), "color", fallback, true)?;
    let emission = extract_vec4(entry, name.as_str(), "emission", clear, false)?;
    let selectable = match get(entry, "selectable") {
        None => true,
        Some(Node::Bool(b)) => *b,
        Some(_) => {
            return Err(invalid_type("selectable", path.as_str(), "bool (true/false)"));
        },
    };
    let density = match get(entry, "density") {
        None => {
            return Err(missing_field("density", path.as_str()));
        },
        Some(Node::Num(n)) => copy_scalar(n),
        Some(_) => {
            let mut q = String::from_str(path.as_str());
            q.append("/density");
            return Err(invalid_type("density", q.as_str(), "float (0.0 to 1.0)"));
        },
    };
    let mut clause = String::from_str("self.mat == MAT_");
    clause.append(name.as_str());
    let extra_rules = read_extra_rules(entry, path.as_str(), rules, clause.as_str())?;
    Ok(SandMaterial {
        id,
        name: String::from_str(name.as_str()),
        mattype,
        color,
        emission,
        selectable,
        density,
        extra_rules,
    })
}

/// The channel 0 or 1.
fn unit(k: u64) -> (c: Channel)
    requires
        k <= 1,
    ensures
        c@ == (if k == 0 { zero() } else { one() }),
{
    if k == 0 {
        Channel::Unit(scalar(Numeric::PosInt(0), "0"))
    } else {
        Channel::Unit(scalar(Numeric::PosInt(1), "1"))
    }
}

fn builtin(id: usize, name: &str, color: [Channel; 4], selectable: bool, density: Scalar) -> (m: SandMaterial)
    ensures
        m@ == builtin_material(id as nat, name@, channel_views(color@), selectable, density@),
{
    let emission = [unit(0), unit(0), unit(0), unit(0)];
    assert(channel_views(emission@) =~= transparent());
    let m = SandMaterial {
        id,
        name: String::from_str(name),
        mattype: String::from_str(name),
        color,
        emission,
        selectable,
        density,
        extra_rules: Vec::new(),
    };
    assert(m.extra_rules.deep_view() =~= Seq::<Seq<char>>::empty());
    m
}

/// Compiles the `materials` section: the three built-in materials, then each
/// entry in order, with ids counting on from them.
pub fn parse_materials(materials: &Vec<(Node, Node)>, rules: &mut Vec<SandRule>, types: &Vec<SandType>) -> (r: Result<Vec<SandMaterial>, ParseError>)
    ensures
        match materials_from(materials@, type_names_of(type_views(types@)), rule_views(old(rules)@)) {
            Ok((ms, rs)) => r is Ok && material_views(r->Ok_0@) == ms && rule_views(final(rules)@) == rs,
            Err(f) => r is Err && r->Err_0@ == f,
        },
{
    let ghost rs0 = rule_views(rules@);
    let ghost tn = type_names_of(type_views(types@));
    let mut out: Vec<SandMaterial> = Vec::new();
    let clear = [unit(0), unit(0), unit(0), unit(0)];
    let fallback = [unit(1), unit(0), unit(1), unit(1)];
    assert(channel_views(clear@) =~= transparent());
    assert(channel_views(fallback@) =~= magenta());
    out.push(builtin(0, "EMPTY", clear, true, scalar(Numeric::PosInt(1), "1")));
    out.push(builtin(1, "NULL", fallback, false, scalar(Numeric::PosInt(0), "0")));
    let wall = [
        Channel::Unit(scalar(Numeric::Float(TENTH_BITS), "0.1")),
        Channel::Unit(scalar(Numeric::Float(TWO_TENTHS_BITS), "0.2")),
        Channel::Unit(scalar(Numeric::Float(THREE_TENTHS_BITS), "0.3")),
        unit(1),
    ];
    assert(channel_views(wall@) =~= wall_color());
    out.push(builtin(2, "WALL", wall, false, scalar(Numeric::PosInt(9999), "9999")));
    assert(material_views(out@) =~= builtin_materials());
    let mut i: usize = 0;
    assert(materials@.subrange(0, 0) =~= Seq::<(Node, Node)>::empty());
    while i < materials.len()
        invariant
            rs0 == rule_views(old(rules)@),
            tn == type_names_of(type_views(types@)),
            i <= materials@.len(),
            materials_from(materials@.subrange(0, i as int), tn, rs0)
                == Ok::<(Seq<MaterialView>, Seq<RuleView>), Fault>((material_views(out@), rule_views(rules@))),
        decreases materials.len() - i,
    {
        assert(materials@.subrange(0, i + 1).drop_last() =~= materials@.subrange(0, i as int));
        assert(materials@.subrange(0, i + 1).last() == materials@[i as int]);
        let id = out.len();
        match parse_material(&materials[i].0, &materials[i].1, id, types, rules) {
            Ok(m) => {
                let ghost before = material_views(out@);
                out.push(m);
                assert(material_views(out@) =~= before.push(m@));
            },
            Err(e) => {
                proof {
                    lemma_materials_from_stop(materials@, tn, rs0, i + 1);
                }
                return Err(e);
            },
        }
        i = i + 1;
    }
    assert(materials@.subrange(0, i as int) =~= materials@);
    Ok(out)
}

/// Collects the names that the `materials` section declares, in order.
pub fn parse_material_names(materials: &Vec<(Node, Node)>) -> (r: Result<Vec<String>, ParseError>)
    ensures
        match crate::parser::key_names(materials@, "materials"@) {
            Ok(ns) => r is Ok && r->Ok_0.deep_view() == ns,
            Err(f) => r is Err && r->Err_0@ == f,
        },
{
    crate::parser::preparse_keys(materials, "materials")
}

} // verus!
