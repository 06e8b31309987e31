use vstd::prelude::*;
use crate::document::{Node, get, lookup};
use crate::error::{Fault, ParseError, hint_sequence, hint_string, invalid_type, not_found};
use crate::rules::{RuleView, SandRule, mark, push_text, rule_views, use_rule};
use crate::text::listed;
use crate::document::same_text;

verus! {

/// A compiled material type.
#[derive(Debug)]
pub struct SandType {
    /// Index of the type, and its constant in the shader.
    pub id: usize,
    /// Name of the type (its key in the document).
    pub name: String,
    /// Name of the parent type; empty for a root.
    pub inherits: String,
    /// Names of all the types that descend from this one, in the order of
    /// their declaration.
    pub children: Vec<String>,
    /// Names of the rules that apply to all materials of this type.
    pub base_rules: Vec<String>,
}

pub struct TypeView {
    pub id: nat,
    pub name: Seq<char>,
    pub inherits: Seq<char>,
    pub children: Seq<Seq<char>>,
    pub base_rules: Seq<Seq<char>>,
}

impl View for SandType {
    type V = TypeView;

    open spec fn view(&self) -> TypeView {
        TypeView {
            id: self.id as nat,
            name: self.name@,
            inherits: self.inherits@,
            children: self.children.deep_view(),
            base_rules: self.base_rules.deep_view(),
        }
    }
}

pub open spec fn type_views(ts: Seq<SandType>) -> Seq<TypeView> {
    ts.map_values(|t: SandType| t@)
}

/// The index of the first type at or after `i` that is named `name`.
pub open spec fn type_index_from(ts: Seq<TypeView>, name: Seq<char>, i: int) -> Option<int>
    decreases ts.len() - i,
{
    if i < 0 || i >= ts.len() {
        None
    } else if ts[i].name == name {
        Some(i)
    } else {
        type_index_from(ts, name, i + 1)
    }
}

pub proof fn lemma_type_index_from(ts: Seq<TypeView>, name: Seq<char>, i: int)
    ensures
        type_index_from(ts, name, i) matches Some(j) ==> i <= j < ts.len() && ts[j].name == name,
        type_index_from(ts, name, i) is None && 0 <= i ==> forall|k: int| i <= k < ts.len() ==> #[trigger] ts[k].name != name,
    decreases ts.len() - i,
{
    if 0 <= i < ts.len() && ts[i].name != name {
        lemma_type_index_from(ts, name, i + 1);
    }
}

/// The index of the first type named `name`.
pub open spec fn type_index(ts: Seq<TypeView>, name: Seq<char>) -> Option<int> {
    type_index_from(ts, name, 0)
}

/// The types with `child` added to the descendants of the type named
/// `parent` and of each of its ancestors, found by name. The walk takes at
/// most `steps` steps, which is every ancestor where `steps` is the number
/// of types and no type is its own ancestor.
pub open spec fn with_child(ts: Seq<TypeView>, parent: Seq<char>, child: Seq<char>, steps: int) -> Seq<TypeView>
    decreases steps,
{
    if parent.len() == 0 || steps <= 0 {
        ts
    } else {
        match type_index(ts, parent) {
            Some(j) => with_child(
                ts.update(j, TypeView { children: ts[j].children.push(child), ..ts[j] }),
                ts[j].inherits,
                child,
                steps - 1,
            ),
            None => ts,
        }
    }
}

/// The base rules of the type named `parent` and of each of its ancestors,
/// found by name, nearest first, in at most `steps` steps (see `with_child`).
pub open spec fn rules_above(ts: Seq<TypeView>, parent: Seq<char>, steps: int) -> Seq<Seq<char>>
    decreases steps,
{
    if parent.len() == 0 || steps <= 0 {
        Seq::empty()
    } else {
        match type_index(ts, parent) {
            Some(j) => ts[j].base_rules + rules_above(ts, ts[j].inherits, steps - 1),
            None => Seq::empty(),
        }
    }
}

fn type_position(types: &Vec<SandType>, name: &str) -> (r: Option<usize>)
    ensures
        type_index(type_views(types@), name@) == match r {
            Some(j) => Some(j as int),
            None => None::<int>,
        },
{
    let ghost tv = type_views(types@);
    let mut i: usize = 0;
    while i < types.len()
        invariant
            tv == type_views(types@),
            i <= types@.len(),
            type_index_from(tv, name@, 0) == type_index_from(tv, name@, i as int),
        decreases types.len() - i,
    {
        if same_text(types[i].name.as_str(), name) {
            return Some(i);
        }
        i = i + 1;
    }
    None
}

/// Adds `childname` to the descendants of the type named `parent_name` and of
/// each of its ancestors.
pub fn add_child_to_type(parent_name: &str, childname: &str, types: &mut Vec<SandType>)
    ensures
        type_views(final(types)@) == with_child(type_views(old(types)@), parent_name@, childname@, old(types)@.len() as int),
{
    let ghost goal = with_child(type_views(types@), parent_name@, childname@, types@.len() as int);
    let mut current = String::from_str(parent_name);
    let mut steps = types.len();
    loop
        invariant
            goal == with_child(type_views(old(types)@), parent_name@, childname@, old(types)@.len() as int),
            with_child(type_views(types@), current@, childname@, steps as int) == goal,
        decreases steps,
    {
        if current.unicode_len() == 0 || steps == 0 {
            return;
        }
        match type_position(types, current.as_str()) {
            None => {
                return;
            },
            Some(j) => {
                let ghost before = type_views(types@);
                proof {
                    lemma_type_index_from(before, current@, 0);
                }
                let next = String::from_str(types[j].inherits.as_str());
                let ghost cur_old = current@;
                let ghost steps_old = steps as int;
                proof {
                    lemma_type_index_from(before, cur_old, 0);
                }
                push_text(&mut types[j].children, String::from_str(childname));
                proof {
                    assert(type_views(types@)[j as int] == TypeView { children: before[j as int].children.push(childname@), ..before[j as int] });
                    assert(type_views(types@) =~= before.update(
                        j as int,
                        TypeView { children: before[j as int].children.push(childname@), ..before[j as int] },
                    ));
                }
                current = next;
                steps = steps - 1;
                assert(with_child(before, cur_old, childname@, steps_old) == with_child(
                    before.update(j as int, TypeView { children: before[j as int].children.push(childname@), ..before[j as int] }),
                    before[j as int].inherits,
                    childname@,
                    steps as int,
                ));
            },
        }
    }
}

/// The base rules of the parent of `current_type` and of each of its
/// ancestors, nearest first.
pub fn get_parents_rules(all_types: &Vec<SandType>, current_type: &SandType) -> (r: Vec<String>)
    ensures
        r.deep_view() == rules_above(type_views(all_types@), current_type.inherits@, all_types@.len() as int),
{
    let ghost tv = type_views(all_types@);
    let ghost goal = rules_above(tv, current_type.inherits@, all_types@.len() as int);
    let mut out: Vec<String> = Vec::new();
    let mut current = String::from_str(current_type.inherits.as_str());
    let mut steps = all_types.len();
    assert(out.deep_view() + goal =~= goal);
    loop
        invariant
            tv == type_views(all_types@),
            goal == rules_above(tv, current_type.inherits@, all_types@.len() as int),
            out.deep_view() + rules_above(tv, current@, steps as int) == goal,
        decreases steps,
    {
        if current.unicode_len() == 0 || steps == 0 {
            assert(out.deep_view() =~= goal);
            return out;
        }
        match type_position(all_types, current.as_str()) {
            None => {
                assert(out.deep_view() =~= goal);
                return out;
            },
            Some(j) => {
                proof {
                    lemma_type_index_from(tv, current@, 0);
                }
                let ghost before = out.deep_view();
                let rs = &all_types[j].base_rules;
                let mut k: usize = 0;
                while k < rs.len()
                    invariant
                        k <= rs@.len(),
                        out.deep_view() == before + rs.deep_view().subrange(0, k as int),
                    decreases rs.len() - k,
                {
                    push_text(&mut out, String::from_str(rs[k].as_str()));
                    assert(out.deep_view() =~= before + rs.deep_view().subrange(0, k + 1));
                    k = k + 1;
                }
                assert(rs.deep_view().subrange(0, k as int) =~= rs.deep_view());
                assert(tv[j as int].base_rules == rs.deep_view());
                let ghost cur_old = current@;
                proof {
                    lemma_type_index_from(tv, cur_old, 0);
                }
                assert(rules_above(tv, cur_old, steps as int) == tv[j as int].base_rules + rules_above(tv, tv[j as int].inherits, steps - 1));
                current = String::from_str(all_types[j].inherits.as_str());
                steps = steps - 1;
                assert(out.deep_view() + rules_above(tv, current@, steps as int) =~= before + (tv[j as int].base_rules + rules_above(tv, current@, steps as int)));
            },
        }
    }
}

pub open spec fn root_type(id: nat, name: Seq<char>) -> TypeView {
    TypeView { id, name, inherits: Seq::empty(), children: Seq::empty(), base_rules: Seq::empty() }
}

/// The three types that every document has.
pub open spec fn builtin_types() -> Seq<TypeView> {
    seq![root_type(0, "EMPTY"@), root_type(1, "NULL"@), root_type(2, "WALL"@)]
}

/// The precondition clause that admits the cells of a type.
pub open spec fn type_clause(name: Seq<char>) -> Seq<char> {
    "isType_"@ + name + "(self)"@
}

/// `rs` after each of `names`, in order, was referred to with `clause`.
pub open spec fn mark_all(rs: Seq<RuleView>, names: Seq<Seq<char>>, clause: Seq<char>, set_used: bool) -> Seq<RuleView>
    decreases names.len(),
{
    if names.len() == 0 {
        rs
    } else {
        mark(mark_all(rs, names.drop_last(), clause, set_used), names.last(), clause, set_used)
    }
}

/// The names of a `base_rules` list, each of which must be a declared rule.
pub open spec fn base_rule_list(items: Seq<Node>, path: Seq<char>, rule_names: Seq<Seq<char>>) -> Result<Seq<Seq<char>>, Fault>
    decreases items.len(),
{
    if items.len() == 0 {
        Ok(Seq::empty())
    } else {
        match base_rule_list(items.drop_last(), path, rule_names) {
            Err(f) => Err(f),
            Ok(ns) => match items.last() {
                Node::Str(r) => if rule_names.contains(r@) {
                    Ok(ns.push(r@))
                } else {
                    Err(Fault::NotFound { missing: r@, path: path + "/base_rules"@ })
                },
                _ => Err(Fault::InvalidType { what: "base_rules"@, path, expected: hint_string() }),
            },
        }
    }
}

/// The `base_rules` field of a type: absent, or a list of rule names.
pub open spec fn base_rules_of(entry: Node, path: Seq<char>, rule_names: Seq<Seq<char>>) -> Result<Seq<Seq<char>>, Fault> {
    match lookup(entry, "base_rules"@) {
        None => Ok(Seq::empty()),
        Some(Node::List(items)) => base_rule_list(items@, path, rule_names),
        Some(_) => Err(Fault::InvalidType { what: "base_rules"@, path, expected: hint_sequence() }),
    }
}

/// The `inherits` field of a type: absent (empty), or the name of a type
/// compiled before it.
pub open spec fn parent_of(entry: Node, path: Seq<char>, ts: Seq<TypeView>) -> Result<Seq<char>, Fault> {
    match lookup(entry, "inherits"@) {
        None => Ok(Seq::empty()),
        Some(Node::Str(p)) => if type_index(ts, p@) is Some {
            Ok(p@)
        } else {
            Err(Fault::NotFound { missing: p@, path: path + "/inherits"@ })
        },
        Some(_) => Err(Fault::InvalidType { what: "inherits"@, path, expected: hint_string() }),
    }
}

/// The types and rules after one more entry of the `types` section.
pub open spec fn type_step(key: Node, entry: Node, ts: Seq<TypeView>, rs: Seq<RuleView>, rule_names: Seq<Seq<char>>) -> Result<(Seq<TypeView>, Seq<RuleView>), Fault> {
    match key {
        Node::Str(name) => {
            let path = "types/"@ + name@;
            match parent_of(entry, path, ts) {
                Err(f) => Err(f),
                Ok(p) => match base_rules_of(entry, path, rule_names) {
                    Err(f) => Err(f),
                    Ok(brs) => Ok(
                        (
                            with_child(ts, p, name@, ts.len() as int).push(
                                TypeView {
                                    id: ts.len(),
                                    name: name@,
                                    inherits: p,
                                    children: Seq::empty(),
                                    base_rules: brs,
                                },
                            ),
                            mark_all(rs, brs, type_clause(name@), true),
                        ),
                    ),
                },
            }
        },
        _ => Err(Fault::InvalidType { what: "name"@, path: "types"@, expected: hint_string() }),
    }
}

/// The types and rules after the entries of the `types` section, in order.
pub open spec fn types_from(entries: Seq<(Node, Node)>, rs: Seq<RuleView>, rule_names: Seq<Seq<char>>) -> Result<(Seq<TypeView>, Seq<RuleView>), Fault>
    decreases entries.len(),
{
    if entries.len() == 0 {
        Ok((builtin_types(), rs))
    } else {
        match types_from(entries.drop_last(), rs, rule_names) {
            Err(f) => Err(f),
            Ok((ts, rs1)) => type_step(entries.last().0, entries.last().1, ts, rs1, rule_names),
        }
    }
}

/// The rules after the types `0..k` that have a parent were admitted by
/// every rule that they inherit.
pub open spec fn inherit_pass(ts: Seq<TypeView>, rs: Seq<RuleView>, k: int) -> Seq<RuleView>
    decreases k,
{
    if k <= 0 {
        rs
    } else {
        let rs1 = inherit_pass(ts, rs, k - 1);
        let t = ts[k - 1];
        if t.inherits.len() == 0 {
            rs1
        } else {
            mark_all(rs1, rules_above(ts, t.inherits, ts.len() as int), type_clause(t.name), false)
        }
    }
}

/// The compiled types and the rules they changed.
pub open spec fn types_phase(entries: Seq<(Node, Node)>, rs: Seq<RuleView>, rule_names: Seq<Seq<char>>) -> Result<(Seq<TypeView>, Seq<RuleView>), Fault> {
    match types_from(entries, rs, rule_names) {
        Err(f) => Err(f),
        Ok((ts, rs1)) => Ok((ts, inherit_pass(ts, rs1, ts.len() as int))),
    }
}

proof fn lemma_base_rule_list_stops(items: Seq<Node>, path: Seq<char>, rule_names: Seq<Seq<char>>, k: int)
    requires
        0 <= k <= items.len(),
        base_rule_list(items.subrange(0, k), path, rule_names) is Err,
    ensures
        base_rule_list(items, path, rule_names) == base_rule_list(items.subrange(0, k), path, rule_names),
    decreases items.len() - k,
{
    if k < items.len() {
        assert(items.subrange(0, k + 1).drop_last() =~= items.subrange(0, k));
        lemma_base_rule_list_stops(items, path, rule_names, k + 1);
    } else {
        assert(items.subrange(0, k) =~= items);
    }
}

proof fn lemma_types_from_stops(entries: Seq<(Node, Node)>, rs: Seq<RuleView>, rule_names: Seq<Seq<char>>, k: int)
    requires
        0 <= k <= entries.len(),
        types_from(entries.subrange(0, k), rs, rule_names) is Err,
    ensures
        types_from(entries, rs, rule_names) == types_from(entries.subrange(0, k), rs, rule_names),
    decreases entries.len() - k,
{
    if k < entries.len() {
        assert(entries.subrange(0, k + 1).drop_last() =~= entries.subrange(0, k));
        lemma_types_from_stops(entries, rs, rule_names, k + 1);
    } else {
        assert(entries.subrange(0, k) =~= entries);
    }
}

/// Refers to each of `names`, in order, with `clause`.
fn use_rules(rules: &mut Vec<SandRule>, names: &Vec<String>, clause: &str, set_used: bool)
    ensures
        rule_views(final(rules)@) == mark_all(rule_views(old(rules)@), names.deep_view(), clause@, set_used),
{
    let ghost start = rule_views(rules@);
    let mut i: usize = 0;
    while i < names.len()
        invariant
            i <= names@.len(),
            rule_views(rules@) == mark_all(start, names.deep_view().subrange(0, i as int), clause@, set_used),
        decreases names.len() - i,
    {
        use_rule(rules, names[i].as_str(), clause, set_used);
        assert(names.deep_view().subrange(0, i + 1).drop_last() =~= names.deep_view().subrange(0, i as int));
        i = i + 1;
    }
    assert(names.deep_view().subrange(0, i as int) =~= names.deep_view());
}

fn read_base_rules(entry: &Node, path: &str, rule_names: &Vec<String>) -> (r: Result<Vec<String>, ParseError>)
    ensures
        match base_rules_of(*entry, path@, rule_names.deep_view()) {
            Ok(ns) => r is Ok && r->Ok_0.deep_view() == ns,
            Err(f) => r is Err && r->Err_0@ == f,
        },
{
    let mut out: Vec<String> = Vec::new();
    let field = get(entry, "base_rules");
    match field {
        None => {
            assert(out.deep_view() =~= Seq::<Seq<char>>::empty());
            Ok(out)
        },
        Some(Node::List(items)) => {
            let mut i: usize = 0;
            assert(out.deep_view() =~= Seq::<Seq<char>>::empty());
            while i < items.len()
                invariant
                    field == Some(&Node::List(*items)),
                    lookup(*entry, "base_rules"@) == Some(Node::List(*items)),
                    i <= items@.len(),
                    base_rule_list(items@.subrange(0, i as int), path@, rule_names.deep_view())
                        == Ok::<Seq<Seq<char>>, Fault>(out.deep_view()),
                decreases items.len() - i,
            {
                assert(items@.subrange(0, i + 1).drop_last() =~= items@.subrange(0, i as int));
                match &items[i] {
                    Node::Str(name) => {
                        if !listed(rule_names, name.as_str()) {
                            let mut p = String::from_str(path);
                            p.append("/base_rules");
                            proof {
                                lemma_base_rule_list_stops(items@, path@, rule_names.deep_view(), i + 1);
                            }
                            return Err(not_found(name.as_str(), p.as_str()));
                        }
                        push_text(&mut out, String::from_str(name.as_str()));
                    },
                    _ => {
                        proof {
                            lemma_base_rule_list_stops(items@, path@, rule_names.deep_view(), i + 1);
                        }
                        return Err(invalid_type("base_rules", path, "string"));
                    },
                }
                i = i + 1;
            }
            assert(items@.subrange(0, i as int) =~= items@);
            Ok(out)
        },
        Some(_) => Err(invalid_type("base_rules", path, "sequence (array, '[...]')")),
    }
}

/// Compiles one entry of the `types` section onto the types compiled so far.
fn parse_type(key: &Node, entry: &Node, types: &mut Vec<SandType>, rules: &mut Vec<SandRule>, rule_names: &Vec<String>) -> (r: Result<(), ParseError>)
    ensures
        match type_step(*key, *entry, type_views(old(types)@), rule_views(old(rules)@), rule_names.deep_view()) {
            Ok((ts, rs)) => r is Ok && type_views(final(types)@) == ts && rule_views(final(rules)@) == rs,
            Err(f) => r is Err && r->Err_0@ == f,
        },
{
    let name = match key {
        Node::Str(s) => s,
        _ => {
            return Err(invalid_type("name", "types", "string"));
        },
    };
    let mut path = String::from_str("types/");
    path.append(name.as_str());
    let parent = match get(entry, "inherits") {
        None => String::new(),
        Some(Node::Str(p)) => {
            if type_position(types, p.as_str()).is_none() {
                let mut q = String::from_str(path.as_str());
                q.append("/inherits");
                return Err(not_found(p.as_str(), q.as_str()));
            }
            String::from_str(p.as_str())
        },
        Some(_) => {
            return Err(invalid_type("inherits", path.as_str(), "string"));
        },
    };
    let base_rules = read_base_rules(entry, path.as_str(), rule_names)?;
    let id = types.len();
    add_child_to_type(parent.as_str(), name.as_str(), types);
    let mut clause = String::from_str("isType_");
    clause.append(name.as_str());
    clause.append("(self)");
    use_rules(rules, &base_rules, clause.as_str(), true);
    let children: Vec<String> = Vec::new();
    let t = SandType { id, name: String::from_str(name.as_str()), inherits: parent, children, base_rules };
    assert(t.children.deep_view() =~= Seq::<Seq<char>>::empty());
    let ghost before = type_views(types@);
    types.push(t);
    assert(type_views(types@) =~= before.push(t@));
    Ok(())
}

/// Compiles the `types` section: the three built-in types, then each entry
/// in order; then every type with a parent is admitted by the rules that it
/// inherits.
pub fn parse_types(types: &Vec<(Node, Node)>, rules: &mut Vec<SandRule>, rule_names: &Vec<String>) -> (r: Result<Vec<SandType>, ParseError>)
    ensures
        match types_phase(types@, rule_views(old(rules)@), rule_names.deep_view()) {
            Ok((ts, rs)) => r is Ok && type_views(r->Ok_0@) == ts && rule_views(final(rules)@) == rs,
            Err(f) => r is Err && r->Err_0@ == f,
        },
{
    let ghost rs0 = rule_views(rules@);
    let mut out: Vec<SandType> = Vec::new();
    out.push(root(0, "EMPTY"));
    out.push(root(1, "NULL"));
    out.push(root(2, "WALL"));
    assert(type_views(out@) =~= builtin_types());
    let mut i: usize = 0;
    assert(types@.subrange(0, 0) =~= Seq::<(Node, Node)>::empty());
    while i < types.len()
        invariant
            rs0 == rule_views(old(rules)@),
            i <= types@.len(),
            types_from(types@.subrange(0, i as int), rs0, rule_names.deep_view())
                == Ok::<(Seq<TypeView>, Seq<RuleView>), Fault>((type_views(out@), rule_views(rules@))),
        decreases types.len() - i,
    {
        assert(types@.subrange(0, i + 1).drop_last() =~= types@.subrange(0, i as int));
        assert(types@.subrange(0, i + 1).last() == types@[i as int]);
        match parse_type(&types[i].0, &types[i].1, &mut out, rules, rule_names) {
            Ok(()) => {},
            Err(e) => {
                proof {
                    lemma_types_from_stops(types@, rs0, rule_names.deep_view(), i + 1);
                }
                return Err(e);
            },
        }
        i = i + 1;
    }
    assert(types@.subrange(0, i as int) =~= types@);
    let ghost ts = type_views(out@);
    let ghost rs1 = rule_views(rules@);
    let mut k: usize = 0;
    while k < out.len()
        invariant
            types_from(types@, rule_views(old(rules)@), rule_names.deep_view())
                == Ok::<(Seq<TypeView>, Seq<RuleView>), Fault>((ts, rs1)),
            k <= out@.len(),
            ts == type_views(out@),
            rule_views(rules@) == inherit_pass(ts, rs1, k as int),
        decreases out.len() - k,
    {
        if out[k].inherits.unicode_len() != 0 {
            let inherited = get_parents_rules(&out, &out[k]);
            let mut clause = String::from_str("isType_");
            clause.append(out[k].name.as_str());
            clause.append("(self)");
            use_rules(rules, &inherited, clause.as_str(), false);
        }
        k = k + 1;
    }
    Ok(out)
}

fn root(id: usize, name: &str) -> (t: SandType)
    ensures
        t@ == root_type(id as nat, name@),
{
    let t = SandType {
        id,
        name: String::from_str(name),
        inherits: String::new(),
        children: Vec::new(),
        base_rules: Vec::new(),
    };
    assert(t.children.deep_view() =~= Seq::<Seq<char>>::empty());
    assert(t.base_rules.deep_view() =~= Seq::<Seq<char>>::empty());
    t
}

} // verus!
