use vstd::prelude::*;
use crate::document::Node;
use crate::glsl::{checker, child_checks, materials_file, rule_calls, rule_functions, rules_file};
use crate::text::{contains, occurs_at, word_end};
use crate::materials::{
    MaterialView, builtin_materials, extra_rules_of, extras, material_clause, material_step,
    material_views, materials_from,
};
use crate::parser::{ParsingResult, compile, declared, result_view};
use crate::document::yaml_tree;
use crate::error::Fault;
use crate::rules::{
    RuleView, SandRuleType, condition, extend, is_type_call, lowered, mark, material_scan, rule_views,
    rules_from, type_scan,
};
use crate::types::{
    TypeView, builtin_types, inherit_pass, mark_all, type_index, type_index_from, type_step,
    type_views, types_from, types_phase, with_child,
};

verus! {

/// `rs1` is `rs0` after types or materials referred to rules: the same rules
/// in the same order, each unguarded rule still unguarded and each used rule
/// still used.
pub open spec fn keeps(rs0: Seq<RuleView>, rs1: Seq<RuleView>) -> bool {
    &&& rs1.len() == rs0.len()
    &&& forall|k: int|
        0 <= k < rs0.len() ==> {
            &&& (#[trigger] rs1[k]).name == rs0[k].name
            &&& (rs0[k].precondition is None ==> rs1[k].precondition is None)
            &&& (rs0[k].used ==> rs1[k].used)
        }
}

proof fn lemma_keeps_trans(a: Seq<RuleView>, b: Seq<RuleView>, c: Seq<RuleView>)
    requires
        keeps(a, b),
        keeps(b, c),
    ensures
        keeps(a, c),
{
    assert forall|k: int| 0 <= k < a.len() implies {
        &&& (#[trigger] c[k]).name == a[k].name
        &&& (a[k].precondition is None ==> c[k].precondition is None)
        &&& (a[k].used ==> c[k].used)
    } by {
        assert(b[k].name == a[k].name);
    }
}

proof fn lemma_mark_all_keeps(rs: Seq<RuleView>, names: Seq<Seq<char>>, clause: Seq<char>, set_used: bool)
    ensures
        keeps(rs, mark_all(rs, names, clause, set_used)),
    decreases names.len(),
{
    if names.len() > 0 {
        let before = mark_all(rs, names.drop_last(), clause, set_used);
        lemma_mark_all_keeps(rs, names.drop_last(), clause, set_used);
        assert(keeps(before, mark(before, names.last(), clause, set_used)));
        lemma_keeps_trans(rs, before, mark(before, names.last(), clause, set_used));
    } else {
        assert(keeps(rs, rs));
    }
}

proof fn lemma_inherit_pass_keeps(ts: Seq<TypeView>, rs: Seq<RuleView>, k: int)
    ensures
        keeps(rs, inherit_pass(ts, rs, k)),
    decreases k,
{
    if k > 0 {
        let before = inherit_pass(ts, rs, k - 1);
        lemma_inherit_pass_keeps(ts, rs, k - 1);
        let t = ts[k - 1];
        if t.inherits.len() != 0 {
            lemma_mark_all_keeps(before, crate::types::rules_above(ts, t.inherits, ts.len() as int), crate::types::type_clause(t.name), false);
            lemma_keeps_trans(rs, before, inherit_pass(ts, rs, k));
        }
    } else {
        assert(keeps(rs, rs));
    }
}

proof fn lemma_types_from_keeps(entries: Seq<(Node, Node)>, rs: Seq<RuleView>, rule_names: Seq<Seq<char>>)
    ensures
        types_from(entries, rs, rule_names) matches Ok((ts, rs1)) ==> keeps(rs, rs1),
    decreases entries.len(),
{
    if entries.len() == 0 {
        assert(keeps(rs, rs));
    } else {
        lemma_types_from_keeps(entries.drop_last(), rs, rule_names);
        match types_from(entries.drop_last(), rs, rule_names) {
            Ok((ts, rs1)) => {
                match type_step(entries.last().0, entries.last().1, ts, rs1, rule_names) {
                    Ok((ts2, rs2)) => {
                        let name = entries.last().0->Str_0@;
                        let brs = crate::types::base_rules_of(entries.last().1, "types/"@ + name, rule_names)->Ok_0;
                        lemma_mark_all_keeps(rs1, brs, crate::types::type_clause(name), true);
                        lemma_keeps_trans(rs, rs1, rs2);
                    },
                    Err(_) => {},
                }
            },
            Err(_) => {},
        }
    }
}

proof fn lemma_types_phase_keeps(entries: Seq<(Node, Node)>, rs: Seq<RuleView>, rule_names: Seq<Seq<char>>)
    ensures
        types_phase(entries, rs, rule_names) matches Ok((ts, rs1)) ==> keeps(rs, rs1),
{
    lemma_types_from_keeps(entries, rs, rule_names);
    if let Ok((ts, rs1)) = types_from(entries, rs, rule_names) {
        lemma_inherit_pass_keeps(ts, rs1, ts.len() as int);
        lemma_keeps_trans(rs, rs1, inherit_pass(ts, rs1, ts.len() as int));
    }
}

proof fn lemma_extras_keeps(items: Seq<Node>, path: Seq<char>, rs: Seq<RuleView>, clause: Seq<char>)
    ensures
        extras(items, path, rs, clause) matches Ok((ns, rs1)) ==> keeps(rs, rs1),
    decreases items.len(),
{
    if items.len() == 0 {
        assert(keeps(rs, rs));
    } else {
        lemma_extras_keeps(items.drop_last(), path, rs, clause);
        if let Ok((ns, rs1)) = extras(items.drop_last(), path, rs, clause) {
            if let Node::Str(r) = items.last() {
                assert(keeps(rs1, mark(rs1, r@, clause, true)));
                lemma_keeps_trans(rs, rs1, mark(rs1, r@, clause, true));
            }
        }
    }
}

proof fn lemma_materials_from_keeps(entries: Seq<(Node, Node)>, type_names: Seq<Seq<char>>, rs: Seq<RuleView>)
    ensures
        materials_from(entries, type_names, rs) matches Ok((ms, rs1)) ==> keeps(rs, rs1),
    decreases entries.len(),
{
    if entries.len() == 0 {
        assert(keeps(rs, rs));
    } else {
        lemma_materials_from_keeps(entries.drop_last(), type_names, rs);
        if let Ok((ms, rs1)) = materials_from(entries.drop_last(), type_names, rs) {
            let key = entries.last().0;
            let entry = entries.last().1;
            if let Ok((m, rs2)) = material_step(key, entry, ms.len(), type_names, rs1) {
                let name = key->Str_0@;
                lemma_extras_keeps_field(entry, "materials/"@ + name, rs1, crate::materials::material_clause(name));
                lemma_keeps_trans(rs, rs1, rs2);
            }
        }
    }
}

proof fn lemma_extras_keeps_field(entry: Node, path: Seq<char>, rs: Seq<RuleView>, clause: Seq<char>)
    ensures
        extra_rules_of(entry, path, rs, clause) matches Ok((ns, rs1)) ==> keeps(rs, rs1),
{
    match crate::document::lookup(entry, "extra_rules"@) {
        Some(Node::List(items)) => lemma_extras_keeps(items@, path, rs, clause),
        _ => assert(keeps(rs, rs)),
    }
}

proof fn lemma_compile_keeps(doc: Node)
    requires
        compile(doc) is Ok,
    ensures
        declared(doc) is Ok,
        keeps(declared(doc)->Ok_0.3, compile(doc)->Ok_0.0),
{
    let (raw_types, raw_materials, rule_names, rs) = declared(doc)->Ok_0;
    lemma_types_phase_keeps(raw_types, rs, rule_names);
    let (ts, rs1) = types_phase(raw_types, rs, rule_names)->Ok_0;
    lemma_materials_from_keeps(raw_materials, crate::materials::type_names_of(ts), rs1);
    lemma_keeps_trans(rs, rs1, compile(doc)->Ok_0.0);
}

/// A rule declared with `precondition: false` is never guarded: whatever
/// types and materials refer to it, the compiled rule at its place has no
/// precondition.
pub proof fn law_unguarded_rule_stays_unguarded(doc: Node, k: int)
    requires
        compile(doc) is Ok,
        declared(doc) is Ok,
        0 <= k < declared(doc)->Ok_0.3.len(),
        declared(doc)->Ok_0.3[k].precondition is None,
    ensures
        compile(doc)->Ok_0.0[k].name == declared(doc)->Ok_0.3[k].name,
        compile(doc)->Ok_0.0[k].precondition is None,
{
    lemma_compile_keeps(doc);
}

/// Whether a type lists `name` among its base rules.
pub open spec fn base_ref(name: Seq<char>, ts: Seq<TypeView>) -> bool {
    exists|t: int, i: int| 0 <= t < ts.len() && 0 <= i < ts[t].base_rules.len() && (#[trigger] ts[t].base_rules[i]) == name
}

/// Whether a material lists `name` among its extra rules.
pub open spec fn extra_ref(name: Seq<char>, ms: Seq<MaterialView>) -> bool {
    exists|m: int, i: int| 0 <= m < ms.len() && 0 <= i < ms[m].extra_rules.len() && (#[trigger] ms[m].extra_rules[i]) == name
}

/// Whether a type or a material refers to the rule named `name`.
pub open spec fn referenced(name: Seq<char>, ts: Seq<TypeView>, ms: Seq<MaterialView>) -> bool {
    base_ref(name, ts) || extra_ref(name, ms)
}

proof fn lemma_rules_from_unused(entries: Seq<(Node, Node)>, types: Seq<Seq<char>>, mats: Seq<Seq<char>>)
    ensures
        rules_from(entries, types, mats) matches Ok(rs) ==> forall|k: int| 0 <= k < rs.len() ==> !(#[trigger] rs[k]).used,
    decreases entries.len(),
{
    if entries.len() > 0 {
        lemma_rules_from_unused(entries.drop_last(), types, mats);
    }
}

proof fn lemma_mark_all_used(rs: Seq<RuleView>, names: Seq<Seq<char>>, clause: Seq<char>, set_used: bool)
    ensures
        forall|k: int| 0 <= k < rs.len() ==> (#[trigger] mark_all(rs, names, clause, set_used)[k]).used
            == (rs[k].used || (set_used && names.contains(rs[k].name))),
    decreases names.len(),
{
    lemma_mark_all_keeps(rs, names, clause, set_used);
    if names.len() > 0 {
        let before = mark_all(rs, names.drop_last(), clause, set_used);
        lemma_mark_all_used(rs, names.drop_last(), clause, set_used);
        lemma_mark_all_keeps(rs, names.drop_last(), clause, set_used);
        assert forall|k: int| 0 <= k < rs.len() implies (#[trigger] mark_all(rs, names, clause, set_used)[k]).used
            == (rs[k].used || (set_used && names.contains(rs[k].name))) by {
            assert(before[k].name == rs[k].name);
            if names.contains(rs[k].name) {
                let j = choose|j: int| 0 <= j < names.len() && names[j] == rs[k].name;
                if j < names.len() - 1 {
                    assert(names.drop_last()[j] == rs[k].name);
                }
            }
            if names.drop_last().contains(rs[k].name) {
                let j = choose|j: int| 0 <= j < names.drop_last().len() && names.drop_last()[j] == rs[k].name;
                assert(names[j] == rs[k].name);
            }
            if names.last() == rs[k].name {
                assert(names[names.len() - 1] == rs[k].name);
            }
        }
    }
}

proof fn lemma_inherit_pass_used(ts: Seq<TypeView>, rs: Seq<RuleView>, k: int)
    ensures
        inherit_pass(ts, rs, k).len() == rs.len(),
        forall|j: int| 0 <= j < rs.len() ==> (#[trigger] inherit_pass(ts, rs, k)[j]).used == rs[j].used,
    decreases k,
{
    lemma_inherit_pass_keeps(ts, rs, k);
    if k > 0 {
        lemma_inherit_pass_used(ts, rs, k - 1);
        let t = ts[k - 1];
        if t.inherits.len() != 0 {
            lemma_mark_all_used(inherit_pass(ts, rs, k - 1), crate::types::rules_above(ts, t.inherits, ts.len() as int), crate::types::type_clause(t.name), false);
        }
    }
}

/// Walking up the ancestors to add a descendant changes only descendants.
proof fn lemma_with_child_frame(ts: Seq<TypeView>, parent: Seq<char>, child: Seq<char>, steps: int)
    ensures
        with_child(ts, parent, child, steps).len() == ts.len(),
        forall|t: int| 0 <= t < ts.len() ==> {
            &&& (#[trigger] with_child(ts, parent, child, steps)[t]).name == ts[t].name
            &&& with_child(ts, parent, child, steps)[t].inherits == ts[t].inherits
            &&& with_child(ts, parent, child, steps)[t].base_rules == ts[t].base_rules
            &&& with_child(ts, parent, child, steps)[t].id == ts[t].id
        },
    decreases steps,
{
    if parent.len() != 0 && steps > 0 {
        if let Some(j) = crate::types::type_index(ts, parent) {
            crate::types::lemma_type_index_from(ts, parent, 0);
            let ts2 = ts.update(j, TypeView { children: ts[j].children.push(child), ..ts[j] });
            lemma_with_child_frame(ts2, ts[j].inherits, child, steps - 1);
        }
    }
}

proof fn lemma_types_from_used(entries: Seq<(Node, Node)>, rs: Seq<RuleView>, rule_names: Seq<Seq<char>>)
    ensures
        types_from(entries, rs, rule_names) matches Ok((ts, rs1)) ==> forall|k: int| 0 <= k < rs.len()
            ==> (#[trigger] rs1[k]).used == (rs[k].used || base_ref(rs[k].name, ts)),
    decreases entries.len(),
{
    lemma_types_from_keeps(entries, rs, rule_names);
    if entries.len() == 0 {
        assert forall|k: int| 0 <= k < rs.len() implies !base_ref(#[trigger] rs[k].name, builtin_types()) by {
            if base_ref(rs[k].name, builtin_types()) {
                let (t, i) = choose|t: int, i: int| 0 <= t < builtin_types().len() && 0 <= i < builtin_types()[t].base_rules.len() && (#[trigger] builtin_types()[t].base_rules[i]) == rs[k].name;
            }
        }
    } else {
        lemma_types_from_used(entries.drop_last(), rs, rule_names);
        lemma_types_from_keeps(entries.drop_last(), rs, rule_names);
        if let Ok((ts, rs1)) = types_from(entries.drop_last(), rs, rule_names) {
            if let Ok((ts2, rs2)) = type_step(entries.last().0, entries.last().1, ts, rs1, rule_names) {
                let name = entries.last().0->Str_0@;
                let path = "types/"@ + name;
                let p = crate::types::parent_of(entries.last().1, path, ts)->Ok_0;
                let brs = crate::types::base_rules_of(entries.last().1, path, rule_names)->Ok_0;
                let wc = with_child(ts, p, name, ts.len() as int);
                lemma_with_child_frame(ts, p, name, ts.len() as int);
                lemma_mark_all_used(rs1, brs, crate::types::type_clause(name), true);
                assert(ts2.len() == ts.len() + 1);
                assert(ts2[ts.len() as int].base_rules == brs);
                assert forall|k: int| 0 <= k < rs.len() implies (#[trigger] rs2[k]).used == (rs[k].used || base_ref(rs[k].name, ts2)) by {
                    let n = rs[k].name;
                    assert(rs1[k].name == n);
                    if base_ref(n, ts) {
                        let (t, i) = choose|t: int, i: int| 0 <= t < ts.len() && 0 <= i < ts[t].base_rules.len() && (#[trigger] ts[t].base_rules[i]) == n;
                        assert(ts2[t].base_rules[i] == n);
                    }
                    if brs.contains(n) {
                        let i = choose|i: int| 0 <= i < brs.len() && brs[i] == n;
                        assert(ts2[ts.len() as int].base_rules[i] == n);
                    }
                    if base_ref(n, ts2) {
                        let (t, i) = choose|t: int, i: int| 0 <= t < ts2.len() && 0 <= i < ts2[t].base_rules.len() && (#[trigger] ts2[t].base_rules[i]) == n;
                        if t < ts.len() {
                            assert(ts[t].base_rules[i] == n);
                        } else {
                            assert(brs[i] == n);
                        }
                    }
                }
            }
        }
    }
}

proof fn lemma_extras_used(items: Seq<Node>, path: Seq<char>, rs: Seq<RuleView>, clause: Seq<char>)
    ensures
        extras(items, path, rs, clause) matches Ok((ns, rs1)) ==> forall|k: int| 0 <= k < rs.len()
            ==> (#[trigger] rs1[k]).used == (rs[k].used || ns.contains(rs[k].name)),
    decreases items.len(),
{
    lemma_extras_keeps(items, path, rs, clause);
    if items.len() > 0 {
        lemma_extras_used(items.drop_last(), path, rs, clause);
        lemma_extras_keeps(items.drop_last(), path, rs, clause);
        if let Ok((ns, rs1)) = extras(items.drop_last(), path, rs, clause) {
            if let Node::Str(r) = items.last() {
                if crate::rules::has_rule(rs1, r@) {
                    let ns2 = ns.push(r@);
                    assert forall|k: int| 0 <= k < rs.len() implies (#[trigger] mark(rs1, r@, clause, true)[k]).used
                        == (rs[k].used || ns2.contains(rs[k].name)) by {
                        let n = rs[k].name;
                        assert(rs1[k].name == n);
                        if ns.contains(n) {
                            let i = choose|i: int| 0 <= i < ns.len() && ns[i] == n;
                            assert(ns2[i] == n);
                        }
                        if n == r@ {
                            assert(ns2[ns.len() as int] == n);
                        }
                        if ns2.contains(n) {
                            let i = choose|i: int| 0 <= i < ns2.len() && ns2[i] == n;
                            if i < ns.len() {
                                assert(ns[i] == n);
                            }
                        }
                    }
                }
            }
        }
    }
}

proof fn lemma_materials_from_used(entries: Seq<(Node, Node)>, type_names: Seq<Seq<char>>, rs: Seq<RuleView>)
    ensures
        materials_from(entries, type_names, rs) matches Ok((ms, rs1)) ==> forall|k: int| 0 <= k < rs.len()
            ==> (#[trigger] rs1[k]).used == (rs[k].used || extra_ref(rs[k].name, ms)),
    decreases entries.len(),
{
    lemma_materials_from_keeps(entries, type_names, rs);
    if entries.len() == 0 {
        assert forall|k: int| 0 <= k < rs.len() implies !extra_ref(#[trigger] rs[k].name, builtin_materials()) by {
            if extra_ref(rs[k].name, builtin_materials()) {
                let (m, i) = choose|m: int, i: int| 0 <= m < builtin_materials().len() && 0 <= i < builtin_materials()[m].extra_rules.len() && (#[trigger] builtin_materials()[m].extra_rules[i]) == rs[k].name;
            }
        }
    } else {
        lemma_materials_from_used(entries.drop_last(), type_names, rs);
        lemma_materials_from_keeps(entries.drop_last(), type_names, rs);
        if let Ok((ms, rs1)) = materials_from(entries.drop_last(), type_names, rs) {
            let key = entries.last().0;
            let entry = entries.last().1;
            if let Ok((m, rs2)) = material_step(key, entry, ms.len(), type_names, rs1) {
                let name = key->Str_0@;
                let path = "materials/"@ + name;
                let clause = crate::materials::material_clause(name);
                lemma_extras_keeps_field(entry, path, rs1, clause);
                match crate::document::lookup(entry, "extra_rules"@) {
                    Some(Node::List(items)) => lemma_extras_used(items@, path, rs1, clause),
                    _ => {},
                }
                let ms2 = ms.push(m);
                assert forall|k: int| 0 <= k < rs.len() implies (#[trigger] rs2[k]).used == (rs[k].used || extra_ref(rs[k].name, ms2)) by {
                    let n = rs[k].name;
                    assert(rs1[k].name == n);
                    if extra_ref(n, ms) {
                        let (j, i) = choose|j: int, i: int| 0 <= j < ms.len() && 0 <= i < ms[j].extra_rules.len() && (#[trigger] ms[j].extra_rules[i]) == n;
                        assert(ms2[j].extra_rules[i] == n);
                    }
                    if m.extra_rules.contains(n) {
                        let i = choose|i: int| 0 <= i < m.extra_rules.len() && m.extra_rules[i] == n;
                        assert(ms2[ms.len() as int].extra_rules[i] == n);
                    }
                    if extra_ref(n, ms2) {
                        let (j, i) = choose|j: int, i: int| 0 <= j < ms2.len() && 0 <= i < ms2[j].extra_rules.len() && (#[trigger] ms2[j].extra_rules[i]) == n;
                        if j < ms.len() {
                            assert(ms[j].extra_rules[i] == n);
                        } else {
                            assert(m.extra_rules[i] == n);
                        }
                    }
                }
            }
        }
    }
}

/// The used rules among `rs`, in order.
pub open spec fn used_only(rs: Seq<RuleView>) -> Seq<RuleView>
    decreases rs.len(),
{
    if rs.len() == 0 {
        rs
    } else if rs.last().used {
        used_only(rs.drop_last()).push(rs.last())
    } else {
        used_only(rs.drop_last())
    }
}

proof fn lemma_rule_functions_used(rs: Seq<RuleView>)
    ensures
        rule_functions(rs) == rule_functions(used_only(rs)),
    decreases rs.len(),
{
    if rs.len() > 0 {
        lemma_rule_functions_used(rs.drop_last());
        let f = used_only(rs.drop_last());
        if rs.last().used {
            assert(f.push(rs.last()).drop_last() =~= f);
        }
    } else {
        assert(used_only(rs) =~= rs);
    }
}

proof fn lemma_rule_calls_used(rs: Seq<RuleView>, kind: SandRuleType)
    ensures
        rule_calls(rs, kind) == rule_calls(used_only(rs), kind),
    decreases rs.len(),
{
    if rs.len() > 0 {
        lemma_rule_calls_used(rs.drop_last(), kind);
        let f = used_only(rs.drop_last());
        if rs.last().used {
            assert(f.push(rs.last()).drop_last() =~= f);
        }
    } else {
        assert(used_only(rs) =~= rs);
    }
}

/// A compiled rule is used exactly when a type lists it among its base
/// rules or a material among its extra rules; the generated rule code is
/// that of the used rules alone, so a rule that nothing refers to is absent.
pub proof fn law_used_exactly_when_referenced(doc: Node)
    requires
        compile(doc) is Ok,
    ensures
        forall|k: int| 0 <= k < compile(doc)->Ok_0.0.len() ==> (#[trigger] compile(doc)->Ok_0.0[k]).used
            == referenced(compile(doc)->Ok_0.0[k].name, compile(doc)->Ok_0.1, compile(doc)->Ok_0.2),
        rules_file(compile(doc)->Ok_0.0) == rules_file(used_only(compile(doc)->Ok_0.0)),
{
    let (raw_types, raw_materials, rule_names, rs) = declared(doc)->Ok_0;
    let (rs2, ts, ms) = compile(doc)->Ok_0;
    let (ts0, rs0) = types_from(raw_types, rs, rule_names)->Ok_0;
    let rs1 = inherit_pass(ts0, rs0, ts0.len() as int);
    lemma_compile_keeps(doc);
    lemma_types_phase_keeps(raw_types, rs, rule_names);
    lemma_types_from_keeps(raw_types, rs, rule_names);
    assert(declared(doc) == Ok::<(Seq<(Node, Node)>, Seq<(Node, Node)>, Seq<Seq<char>>, Seq<RuleView>), crate::error::Fault>((raw_types, raw_materials, rule_names, rs)));
    let ghost sections = (
        crate::parser::section(doc, "rules"@)->Ok_0,
        crate::parser::key_names(crate::parser::section(doc, "types"@)->Ok_0, "types"@)->Ok_0,
        crate::parser::key_names(crate::parser::section(doc, "materials"@)->Ok_0, "materials"@)->Ok_0,
    );
    lemma_rules_from_unused(sections.0, sections.1.push("EMPTY"@), sections.2.push("EMPTY"@));
    lemma_types_from_used(raw_types, rs, rule_names);
    lemma_inherit_pass_used(ts0, rs0, ts0.len() as int);
    lemma_materials_from_used(raw_materials, crate::materials::type_names_of(ts), rs1);
    assert forall|k: int| 0 <= k < rs2.len() implies (#[trigger] rs2[k]).used == referenced(rs2[k].name, ts, ms) by {
        assert(rs0[k].name == rs[k].name);
        assert(rs1[k].name == rs0[k].name);
        assert(rs2[k].name == rs1[k].name);
    }
    lemma_rule_functions_used(rs2);
    lemma_rule_calls_used(rs2, SandRuleType::Mirrored);
    lemma_rule_calls_used(rs2, SandRuleType::Left);
    lemma_rule_calls_used(rs2, SandRuleType::Right);
}

/// Compiling the same text twice gives byte-identical code: two results
/// that `parse_string` may give for equal texts generate the same rule code
/// and the same material and type code.
pub proof fn law_same_text_same_code(t1: Seq<char>, t2: Seq<char>, r1: ParsingResult, r2: ParsingResult)
    requires
        t1 == t2,
        yaml_tree(t1) is Some,
        compile(yaml_tree(t1)->Some_0) == Ok::<(Seq<RuleView>, Seq<TypeView>, Seq<MaterialView>), Fault>(result_view(r1)),
        yaml_tree(t2) is Some,
        compile(yaml_tree(t2)->Some_0) == Ok::<(Seq<RuleView>, Seq<TypeView>, Seq<MaterialView>), Fault>(result_view(r2)),
    ensures
        rules_file(rule_views(r1.rules@)) == rules_file(rule_views(r2.rules@)),
        materials_file(type_views(r1.types@), material_views(r1.materials@)) == materials_file(
            type_views(r2.types@),
            material_views(r2.materials@),
        ),
{
}

/// The index of the parent of type `b`, found by name.
pub open spec fn parent_index(ts: Seq<TypeView>, b: int) -> Option<int> {
    if ts[b].inherits.len() > 0 {
        type_index(ts, ts[b].inherits)
    } else {
        None
    }
}

/// Whether type `a` is the parent of type `b`, or an ancestor of that parent.
pub open spec fn is_ancestor(ts: Seq<TypeView>, a: int, b: int) -> bool
    decreases b,
{
    match parent_index(ts, b) {
        Some(p) => 0 <= p < b && (p == a || is_ancestor(ts, a, p)),
        None => false,
    }
}

/// Every type with a parent was declared after its parent.
pub open spec fn parents_first(ts: Seq<TypeView>) -> bool {
    forall|b: int|
        0 <= b < ts.len() && (#[trigger] ts[b]).inherits.len() > 0 ==> (parent_index(ts, b) matches Some(
            p,
        ) && 0 <= p < b)
}

/// Whether `ts1` and `ts2` agree on the names and parents of their first `n` types.
pub open spec fn same_tree(ts1: Seq<TypeView>, ts2: Seq<TypeView>, n: int) -> bool {
    n <= ts1.len() && n <= ts2.len() && forall|t: int|
        0 <= t < n ==> (#[trigger] ts1[t]).name == ts2[t].name && ts1[t].inherits == ts2[t].inherits
}

proof fn lemma_type_index_agrees(ts1: Seq<TypeView>, ts2: Seq<TypeView>, x: Seq<char>, i: int, n: int)
    requires
        0 <= i,
        same_tree(ts1, ts2, n),
        type_index_from(ts1, x, i) matches Some(j) && j < n,
    ensures
        type_index_from(ts2, x, i) == type_index_from(ts1, x, i),
    decreases ts1.len() - i,
{
    crate::types::lemma_type_index_from(ts1, x, i);
    if ts1[i].name != x {
        lemma_type_index_agrees(ts1, ts2, x, i + 1, n);
    }
}

proof fn lemma_ancestor_below(ts: Seq<TypeView>, a: int, b: int)
    ensures
        is_ancestor(ts, a, b) ==> 0 <= a < b,
    decreases b,
{
    if let Some(p) = parent_index(ts, b) {
        if 0 <= p < b && p != a {
            lemma_ancestor_below(ts, a, p);
        }
    }
}

/// Ancestry among the first `n` types depends only on their names and parents.
proof fn lemma_ancestor_agrees(ts1: Seq<TypeView>, ts2: Seq<TypeView>, a: int, b: int, n: int)
    requires
        parents_first(ts1),
        n <= ts1.len(),
        same_tree(ts1, ts2, n),
        0 <= b < n,
    ensures
        is_ancestor(ts2, a, b) == is_ancestor(ts1, a, b),
    decreases b,
{
    if ts1[b].inherits.len() > 0 {
        let p = parent_index(ts1, b)->Some_0;
        lemma_type_index_agrees(ts1, ts2, ts1[b].inherits, 0, n);
        assert(parent_index(ts2, b) == parent_index(ts1, b));
        lemma_ancestor_agrees(ts1, ts2, a, p, n);
    }
}

/// The types that adding a descendant below the type named `parent` reaches:
/// that type and its ancestors.
pub open spec fn in_line(ts: Seq<TypeView>, parent: Seq<char>, t: int) -> bool {
    parent.len() > 0 && (type_index(ts, parent) matches Some(j) && (t == j || is_ancestor(ts, t, j)))
}

proof fn lemma_with_child_children(ts: Seq<TypeView>, parent: Seq<char>, child: Seq<char>, steps: int)
    requires
        parents_first(ts),
        parent.len() > 0 ==> (type_index(ts, parent) matches Some(j) && 0 <= j < steps),
    ensures
        forall|t: int| 0 <= t < ts.len() ==> (#[trigger] with_child(ts, parent, child, steps)[t]).children == if in_line(ts, parent, t) {
            ts[t].children.push(child)
        } else {
            ts[t].children
        },
    decreases steps,
{
    lemma_with_child_frame(ts, parent, child, steps);
    if parent.len() > 0 {
        let j = type_index(ts, parent)->Some_0;
        crate::types::lemma_type_index_from(ts, parent, 0);
        let ts2 = ts.update(j, TypeView { children: ts[j].children.push(child), ..ts[j] });
        assert(same_tree(ts, ts2, ts.len() as int));
        assert(same_tree(ts2, ts, ts.len() as int));
        assert(parents_first(ts2)) by {
            assert forall|b: int| 0 <= b < ts2.len() && (#[trigger] ts2[b]).inherits.len() > 0 implies (parent_index(ts2, b) matches Some(p) && 0 <= p < b) by {
                assert(ts[b].inherits.len() > 0);
                lemma_type_index_agrees(ts, ts2, ts[b].inherits, 0, ts.len() as int);
            }
        }
        let inh = ts[j].inherits;
        if inh.len() > 0 {
            lemma_type_index_agrees(ts, ts2, inh, 0, ts.len() as int);
            assert(parent_index(ts, j) == type_index(ts2, inh));
        }
        lemma_with_child_children(ts2, inh, child, steps - 1);
        assert(with_child(ts, parent, child, steps) == with_child(ts2, inh, child, steps - 1));
        assert forall|t: int| 0 <= t < ts.len() implies (#[trigger] with_child(ts, parent, child, steps)[t]).children == if in_line(ts, parent, t) {
            ts[t].children.push(child)
        } else {
            ts[t].children
        } by {
            assert(in_line(ts, parent, t) == (t == j || is_ancestor(ts, t, j)));
            lemma_ancestor_below(ts, t, j);
            if inh.len() > 0 {
                let q = type_index(ts2, inh)->Some_0;
                assert(parent_index(ts, j) == Some(q));
                assert(0 <= q < j);
                lemma_ancestor_agrees(ts, ts2, t, q, ts.len() as int);
                lemma_ancestor_below(ts, t, q);
                assert(is_ancestor(ts, t, j) == (q == t || is_ancestor(ts, t, q)));
                assert(in_line(ts2, inh, t) == (t == q || is_ancestor(ts2, t, q)));
            } else {
                assert(parent_index(ts, j) is None);
                assert(!is_ancestor(ts, t, j));
                assert(!in_line(ts2, inh, t));
            }
        }
    }
}

proof fn lemma_builtin_types_tree()
    ensures
        parents_first(builtin_types()),
        forall|a: int, b: int| 0 <= b < 3 ==> !#[trigger] is_ancestor(builtin_types(), a, b),
{
    assert forall|a: int, b: int| 0 <= b < 3 implies !#[trigger] is_ancestor(builtin_types(), a, b) by {
        assert(builtin_types()[b].inherits.len() == 0);
    }
}

proof fn lemma_types_from_tree(entries: Seq<(Node, Node)>, rs: Seq<RuleView>, rule_names: Seq<Seq<char>>)
    ensures
        types_from(entries, rs, rule_names) matches Ok((ts, rs1)) ==> {
            &&& parents_first(ts)
            &&& forall|a: int, b: int|
                0 <= b < ts.len() && #[trigger] is_ancestor(ts, a, b) ==> ts[a].children.contains(ts[b].name)
        },
    decreases entries.len(),
{
    if entries.len() == 0 {
        lemma_builtin_types_tree();
    } else {
        lemma_types_from_tree(entries.drop_last(), rs, rule_names);
        if let Ok((ts, rs1)) = types_from(entries.drop_last(), rs, rule_names) {
            if let Ok((ts2, rs2)) = type_step(entries.last().0, entries.last().1, ts, rs1, rule_names) {
                let n = ts.len() as int;
                let name = entries.last().0->Str_0@;
                let path = "types/"@ + name;
                let p = crate::types::parent_of(entries.last().1, path, ts)->Ok_0;
                let wc = with_child(ts, p, name, n);
                if p.len() > 0 {
                    crate::types::lemma_type_index_from(ts, p, 0);
                }
                lemma_with_child_frame(ts, p, name, n);
                lemma_with_child_children(ts, p, name, n);
                assert(ts2 == wc.push(TypeView {
                    id: ts.len(),
                    name,
                    inherits: p,
                    children: Seq::empty(),
                    base_rules: crate::types::base_rules_of(entries.last().1, path, rule_names)->Ok_0,
                }));
                assert(same_tree(ts, ts2, n));
                assert(parents_first(ts2)) by {
                    assert forall|b: int| 0 <= b < ts2.len() && (#[trigger] ts2[b]).inherits.len() > 0 implies (parent_index(ts2, b) matches Some(q) && 0 <= q < b) by {
                        if b < n {
                            assert(ts[b].inherits.len() > 0);
                            lemma_type_index_agrees(ts, ts2, ts[b].inherits, 0, n);
                        } else {
                            lemma_type_index_agrees(ts, ts2, p, 0, n);
                        }
                    }
                }
                assert forall|a: int, b: int| 0 <= b < ts2.len() && #[trigger] is_ancestor(ts2, a, b) implies ts2[a].children.contains(ts2[b].name) by {
                    lemma_ancestor_below(ts2, a, b);
                    if b < n {
                        lemma_ancestor_agrees(ts, ts2, a, b, n);
                        let k = choose|k: int| 0 <= k < ts[a].children.len() && ts[a].children[k] == ts[b].name;
                        assert(ts2[a].children[k] == ts2[b].name);
                    } else {
                        lemma_type_index_agrees(ts, ts2, p, 0, n);
                        let j = type_index(ts, p)->Some_0;
                        assert(parent_index(ts2, b) == Some(j));
                        if a != j {
                            lemma_ancestor_agrees(ts, ts2, a, j, n);
                        }
                        assert(in_line(ts, p, a));
                        assert(ts2[a].children == ts[a].children.push(name));
                        assert(ts2[a].children[ts[a].children.len() as int] == name);
                    }
                }
            }
        }
    }
}

/// The test for one descendant in a checker function.
pub open spec fn descendant_test(name: Seq<char>) -> Seq<char> {
    " || cell.mat.type == TYPE_"@ + name
}

proof fn lemma_child_checks_contains(cs: Seq<Seq<char>>, i: int)
    requires
        0 <= i < cs.len(),
    ensures
        contains(child_checks(cs), descendant_test(cs[i])),
    decreases cs.len(),
{
    let prev = child_checks(cs.drop_last());
    let whole = child_checks(cs);
    assert(whole == prev + descendant_test(cs.last()));
    if i == cs.len() - 1 {
        assert(whole.subrange(prev.len() as int, (prev.len() + descendant_test(cs[i]).len()) as int) =~= descendant_test(cs[i]));
        assert(occurs_at(whole, descendant_test(cs[i]), prev.len() as int));
    } else {
        lemma_child_checks_contains(cs.drop_last(), i);
        assert(cs.drop_last()[i] == cs[i]);
        let q = choose|q: int| occurs_at(prev, descendant_test(cs[i]), q);
        assert(whole.subrange(q, q + descendant_test(cs[i]).len()) =~= prev.subrange(q, q + descendant_test(cs[i]).len()));
        assert(occurs_at(whole, descendant_test(cs[i]), q));
    }
}

/// What `parse_types` gives: a type's checker function counts every
/// descendant. Where type `b` inherits from type `a`, directly or through
/// other types, `a` was declared first, lists `b` among its descendants,
/// and `isType_<a>` tests for the constant of `b`.
pub proof fn law_types_checker_counts_descendants(
    entries: Seq<(Node, Node)>,
    rs: Seq<RuleView>,
    rule_names: Seq<Seq<char>>,
    a: int,
    b: int,
)
    requires
        types_phase(entries, rs, rule_names) is Ok,
        0 <= b < types_phase(entries, rs, rule_names)->Ok_0.0.len(),
        is_ancestor(types_phase(entries, rs, rule_names)->Ok_0.0, a, b),
    ensures
        0 <= a < b,
        types_phase(entries, rs, rule_names)->Ok_0.0[a].children.contains(
            types_phase(entries, rs, rule_names)->Ok_0.0[b].name,
        ),
        contains(
            checker(types_phase(entries, rs, rule_names)->Ok_0.0[a]),
            descendant_test(types_phase(entries, rs, rule_names)->Ok_0.0[b].name),
        ),
{
    let ts = types_phase(entries, rs, rule_names)->Ok_0.0;
    lemma_types_from_tree(entries, rs, rule_names);
    lemma_ancestor_below(ts, a, b);
    let t = ts[a];
    let i = choose|i: int| 0 <= i < t.children.len() && t.children[i] == ts[b].name;
    lemma_child_checks_contains(t.children, i);
    let head = "bool isType_"@ + t.name + "(Cell cell) {\n    return cell.mat.type == TYPE_"@ + t.name;
    let body = child_checks(t.children);
    let piece = descendant_test(ts[b].name);
    let q = choose|q: int| occurs_at(body, piece, q);
    assert(checker(t) == head + body + ";\n}\n\n"@);
    assert(checker(t).subrange(head.len() + q, head.len() + q + piece.len()) =~= body.subrange(q, q + piece.len()));
    assert(occurs_at(checker(t), piece, head.len() + q));
}

/// A type's checker function counts every descendant: in a compiled
/// document, where type `b` inherits from type `a`, directly or through
/// other types, `a` lists `b` among its descendants and `isType_<a>` tests
/// for the constant of `b`.
pub proof fn law_checker_counts_descendants(doc: Node, a: int, b: int)
    requires
        compile(doc) is Ok,
        0 <= b < compile(doc)->Ok_0.1.len(),
        is_ancestor(compile(doc)->Ok_0.1, a, b),
    ensures
        0 <= a < b,
        compile(doc)->Ok_0.1[a].children.contains(compile(doc)->Ok_0.1[b].name),
        contains(checker(compile(doc)->Ok_0.1[a]), descendant_test(compile(doc)->Ok_0.1[b].name)),
{
    let (raw_types, raw_materials, rule_names, rs) = declared(doc)->Ok_0;
    law_types_checker_counts_descendants(raw_types, rs, rule_names, a, b);
}

/// What `parse_types` does to the rules: the same rules in the same order;
/// a rule becomes used exactly when a type lists it among its base rules,
/// and a rule without a precondition (declared `precondition: false`)
/// stays without one.
pub proof fn law_types_use_base_rules(entries: Seq<(Node, Node)>, rs: Seq<RuleView>, rule_names: Seq<Seq<char>>)
    requires
        types_phase(entries, rs, rule_names) is Ok,
    ensures
        types_phase(entries, rs, rule_names)->Ok_0.1.len() == rs.len(),
        forall|k: int| 0 <= k < rs.len() ==> {
            &&& (#[trigger] types_phase(entries, rs, rule_names)->Ok_0.1[k]).name == rs[k].name
            &&& types_phase(entries, rs, rule_names)->Ok_0.1[k].used == (rs[k].used || base_ref(
                rs[k].name,
                types_phase(entries, rs, rule_names)->Ok_0.0,
            ))
            &&& (rs[k].precondition is None ==> types_phase(entries, rs, rule_names)->Ok_0.1[k].precondition is None)
        },
{
    let (ts, rs0) = types_from(entries, rs, rule_names)->Ok_0;
    lemma_types_from_used(entries, rs, rule_names);
    lemma_types_from_keeps(entries, rs, rule_names);
    lemma_types_phase_keeps(entries, rs, rule_names);
    lemma_inherit_pass_used(ts, rs0, ts.len() as int);
}

/// What `parse_materials` does to the rules: the same rules in the same
/// order; a rule becomes used exactly when a material lists it among its
/// extra rules, and a rule without a precondition stays without one.
pub proof fn law_materials_use_extra_rules(entries: Seq<(Node, Node)>, type_names: Seq<Seq<char>>, rs: Seq<RuleView>)
    requires
        materials_from(entries, type_names, rs) is Ok,
    ensures
        materials_from(entries, type_names, rs)->Ok_0.1.len() == rs.len(),
        forall|k: int| 0 <= k < rs.len() ==> {
            &&& (#[trigger] materials_from(entries, type_names, rs)->Ok_0.1[k]).name == rs[k].name
            &&& materials_from(entries, type_names, rs)->Ok_0.1[k].used == (rs[k].used || extra_ref(
                rs[k].name,
                materials_from(entries, type_names, rs)->Ok_0.0,
            ))
            &&& (rs[k].precondition is None ==> materials_from(entries, type_names, rs)->Ok_0.1[k].precondition is None)
        },
{
    lemma_materials_from_used(entries, type_names, rs);
    lemma_materials_from_keeps(entries, type_names, rs);
}

/// Whether a precondition is present and holds the text `x`.
pub open spec fn guard_has(pre: Option<Seq<char>>, x: Seq<char>) -> bool {
    pre matches Some(p) && contains(p, x)
}

/// Whether a precondition is present and not empty.
pub open spec fn guard_started(pre: Option<Seq<char>>) -> bool {
    pre matches Some(p) && p.len() > 0
}

proof fn lemma_extend_keeps(pre: Option<Seq<char>>, c: Seq<char>, x: Seq<char>)
    ensures
        guard_has(pre, x) ==> guard_has(extend(pre, c), x),
        pre is Some ==> extend(pre, c) is Some,
        guard_started(pre) ==> guard_started(extend(pre, c)),
{
    if guard_has(pre, x) {
        let p = pre->Some_0;
        let q = choose|q: int| occurs_at(p, x, q);
        if p.len() == 0 {
            assert(x.len() == 0);
            assert(c.subrange(0, 0) =~= x);
            assert(occurs_at(c, x, 0));
        } else {
            let e = p + " || "@ + c;
            assert(e.subrange(q, q + x.len()) =~= p.subrange(q, q + x.len()));
            assert(occurs_at(e, x, q));
        }
    }
}

proof fn lemma_extend_adds(pre: Option<Seq<char>>, c: Seq<char>)
    requires
        pre is Some,
    ensures
        guard_has(extend(pre, c), c),
        guard_started(pre) ==> guard_has(extend(pre, c), " || "@ + c),
{
    let p = pre->Some_0;
    if p.len() == 0 {
        assert(c.subrange(0, c.len() as int) =~= c);
        assert(occurs_at(c, c, 0));
    } else {
        let e = p + " || "@ + c;
        let tail = " || "@ + c;
        assert(e =~= p + tail);
        assert(e.subrange(p.len() as int, e.len() as int) =~= tail);
        assert(e.subrange((p.len() + tail.len() - c.len()) as int, e.len() as int) =~= c);
        assert(occurs_at(e, c, (p.len() + tail.len() - c.len()) as int));
        assert(occurs_at(e, tail, p.len() as int));
    }
}

proof fn lemma_extras_guards(items: Seq<Node>, path: Seq<char>, rs: Seq<RuleView>, clause: Seq<char>, k: int, x: Seq<char>)
    requires
        0 <= k < rs.len(),
    ensures
        extras(items, path, rs, clause) matches Ok((ns, rs1)) ==> {
            &&& (guard_has(rs[k].precondition, x) ==> guard_has(rs1[k].precondition, x))
            &&& (rs[k].precondition is Some ==> rs1[k].precondition is Some)
            &&& (guard_started(rs[k].precondition) ==> guard_started(rs1[k].precondition))
            &&& (ns.contains(rs[k].name) && rs[k].precondition is Some ==> guard_has(rs1[k].precondition, clause))
            &&& (ns.contains(rs[k].name) && guard_started(rs[k].precondition) ==> guard_has(
                rs1[k].precondition,
                " || "@ + clause,
            ))
        },
    decreases items.len(),
{
    lemma_extras_keeps(items, path, rs, clause);
    if items.len() > 0 {
        lemma_extras_guards(items.drop_last(), path, rs, clause, k, x);
        lemma_extras_guards(items.drop_last(), path, rs, clause, k, clause);
        lemma_extras_guards(items.drop_last(), path, rs, clause, k, " || "@ + clause);
        lemma_extras_keeps(items.drop_last(), path, rs, clause);
        if let Ok((ns, rs1)) = extras(items.drop_last(), path, rs, clause) {
            if let Node::Str(r) = items.last() {
                if crate::rules::has_rule(rs1, r@) {
                    let pre = rs1[k].precondition;
                    let ns2 = ns.push(r@);
                    if rs1[k].name == r@ {
                        assert(mark(rs1, r@, clause, true)[k].precondition == extend(pre, clause));
                        lemma_extend_keeps(pre, clause, x);
                        lemma_extend_keeps(pre, clause, clause);
                        lemma_extend_keeps(pre, clause, " || "@ + clause);
                        if pre is Some {
                            lemma_extend_adds(pre, clause);
                        }
                    } else {
                        assert(mark(rs1, r@, clause, true)[k] == rs1[k]);
                    }
                    if ns2.contains(rs[k].name) && !ns.contains(rs[k].name) {
                        let i = choose|i: int| 0 <= i < ns2.len() && ns2[i] == rs[k].name;
                        if i < ns.len() {
                            assert(ns[i] == rs[k].name);
                        }
                        assert(rs1[k].name == r@);
                    }
                    if ns.contains(rs[k].name) {
                        let i = choose|i: int| 0 <= i < ns.len() && ns[i] == rs[k].name;
                        assert(ns2[i] == rs[k].name);
                    }
                }
            }
        }
    }
}

proof fn lemma_extra_rules_guards(entry: Node, path: Seq<char>, rs: Seq<RuleView>, clause: Seq<char>, k: int, x: Seq<char>)
    requires
        0 <= k < rs.len(),
    ensures
        extra_rules_of(entry, path, rs, clause) matches Ok((ns, rs1)) ==> {
            &&& (guard_has(rs[k].precondition, x) ==> guard_has(rs1[k].precondition, x))
            &&& (rs[k].precondition is Some ==> rs1[k].precondition is Some)
            &&& (ns.contains(rs[k].name) && rs[k].precondition is Some ==> guard_has(rs1[k].precondition, clause))
            &&& (ns.contains(rs[k].name) && guard_started(rs[k].precondition) ==> guard_has(
                rs1[k].precondition,
                " || "@ + clause,
            ))
        },
{
    match crate::document::lookup(entry, "extra_rules"@) {
        Some(Node::List(items)) => lemma_extras_guards(items@, path, rs, clause, k, x),
        None => {},
        Some(_) => {},
    }
}

proof fn lemma_materials_from_guards(entries: Seq<(Node, Node)>, type_names: Seq<Seq<char>>, rs: Seq<RuleView>, k: int)
    requires
        0 <= k < rs.len(),
        rs[k].precondition is Some,
    ensures
        materials_from(entries, type_names, rs) matches Ok((ms, rs1)) ==> {
            &&& rs1[k].precondition is Some
            &&& forall|i: int|
                0 <= i < ms.len() && (#[trigger] ms[i].extra_rules).contains(rs[k].name) ==> guard_has(
                    rs1[k].precondition,
                    material_clause(ms[i].name),
                )
            &&& forall|i: int, j: int|
                0 <= i < j < ms.len() && (#[trigger] ms[i].extra_rules).contains(rs[k].name)
                    && (#[trigger] ms[j].extra_rules).contains(rs[k].name) ==> guard_has(
                    rs1[k].precondition,
                    " || "@ + material_clause(ms[j].name),
                )
        },
    decreases entries.len(),
{
    lemma_materials_from_keeps(entries, type_names, rs);
    if entries.len() == 0 {
        assert forall|i: int| 0 <= i < builtin_materials().len() implies !(#[trigger] builtin_materials()[i].extra_rules).contains(rs[k].name) by {
        }
    } else {
        lemma_materials_from_guards(entries.drop_last(), type_names, rs, k);
        lemma_materials_from_keeps(entries.drop_last(), type_names, rs);
        if let Ok((ms, rs1)) = materials_from(entries.drop_last(), type_names, rs) {
            let key = entries.last().0;
            let entry = entries.last().1;
            if let Ok((m, rs2)) = material_step(key, entry, ms.len(), type_names, rs1) {
                let name = key->Str_0@;
                let path = "materials/"@ + name;
                let clause = material_clause(name);
                let ms2 = ms.push(m);
                assert(rs1[k].name == rs[k].name);
                lemma_extra_rules_guards(entry, path, rs1, clause, k, clause);
                assert forall|i: int|
                    0 <= i < ms2.len() && (#[trigger] ms2[i].extra_rules).contains(rs[k].name) implies guard_has(
                    rs2[k].precondition,
                    material_clause(ms2[i].name),
                ) by {
                    if i < ms.len() {
                        assert(ms2[i] == ms[i]);
                        lemma_extra_rules_guards(entry, path, rs1, clause, k, material_clause(ms[i].name));
                    }
                }
                assert forall|i: int, j: int|
                    0 <= i < j < ms2.len() && (#[trigger] ms2[i].extra_rules).contains(rs[k].name)
                        && (#[trigger] ms2[j].extra_rules).contains(rs[k].name) implies guard_has(
                    rs2[k].precondition,
                    " || "@ + material_clause(ms2[j].name),
                ) by {
                    assert(ms2[i] == ms[i]);
                    if j < ms.len() {
                        assert(ms2[j] == ms[j]);
                        lemma_extra_rules_guards(entry, path, rs1, clause, k, " || "@ + material_clause(ms[j].name));
                    } else {
                        let ci = material_clause(ms[i].name);
                        assert(guard_has(rs1[k].precondition, ci));
                        let p = rs1[k].precondition->Some_0;
                        let q = choose|q: int| occurs_at(p, ci, q);
                        reveal_strlit("self.mat == MAT_");
                        assert(ci.len() > 0);
                        assert(guard_started(rs1[k].precondition));
                        lemma_extra_rules_guards(entry, path, rs1, clause, k, clause);
                    }
                }
            }
        }
    }
}

/// A guarded rule that two materials list among their extra rules carries
/// both materials' equality tests in its precondition, the later one joined
/// to what precedes it with `||`.
pub proof fn law_materials_accumulate(doc: Node, k: int, i: int, j: int)
    requires
        compile(doc) is Ok,
        0 <= k < compile(doc)->Ok_0.0.len(),
        compile(doc)->Ok_0.0[k].precondition is Some,
        0 <= i < j < compile(doc)->Ok_0.2.len(),
        compile(doc)->Ok_0.2[i].extra_rules.contains(compile(doc)->Ok_0.0[k].name),
        compile(doc)->Ok_0.2[j].extra_rules.contains(compile(doc)->Ok_0.0[k].name),
    ensures
        guard_has(compile(doc)->Ok_0.0[k].precondition, material_clause(compile(doc)->Ok_0.2[i].name)),
        guard_has(
            compile(doc)->Ok_0.0[k].precondition,
            " || "@ + material_clause(compile(doc)->Ok_0.2[j].name),
        ),
{
    let (raw_types, raw_materials, rule_names, rs) = declared(doc)->Ok_0;
    let (ts, rs1) = types_phase(raw_types, rs, rule_names)->Ok_0;
    let rs2 = compile(doc)->Ok_0.0;
    lemma_materials_from_keeps(raw_materials, crate::materials::type_names_of(ts), rs1);
    assert(rs2[k].name == rs1[k].name);
    assert(rs1[k].precondition is Some);
    lemma_materials_from_guards(raw_materials, crate::materials::type_names_of(ts), rs1, k);
}

/// A precondition after the clauses `cs` were added to it in order.
pub open spec fn extend_all(pre: Option<Seq<char>>, cs: Seq<Seq<char>>) -> Option<Seq<char>>
    decreases cs.len(),
{
    if cs.len() == 0 {
        pre
    } else {
        extend(extend_all(pre, cs.drop_last()), cs.last())
    }
}

/// One `clause` for each time `name` occurs in `ns`.
pub open spec fn clause_per_mention(ns: Seq<Seq<char>>, name: Seq<char>, clause: Seq<char>) -> Seq<Seq<char>>
    decreases ns.len(),
{
    if ns.len() == 0 {
        Seq::empty()
    } else if ns.last() == name {
        clause_per_mention(ns.drop_last(), name, clause).push(clause)
    } else {
        clause_per_mention(ns.drop_last(), name, clause)
    }
}

/// The equality test of a material for each time it lists `name` among
/// its extra rules, materials in order.
pub open spec fn material_clauses(ms: Seq<MaterialView>, name: Seq<char>) -> Seq<Seq<char>>
    decreases ms.len(),
{
    if ms.len() == 0 {
        Seq::empty()
    } else {
        material_clauses(ms.drop_last(), name) + clause_per_mention(
            ms.last().extra_rules,
            name,
            material_clause(ms.last().name),
        )
    }
}

proof fn lemma_extend_all_append(pre: Option<Seq<char>>, a: Seq<Seq<char>>, b: Seq<Seq<char>>)
    ensures
        extend_all(pre, a + b) == extend_all(extend_all(pre, a), b),
    decreases b.len(),
{
    if b.len() == 0 {
        assert(a + b =~= a);
    } else {
        assert((a + b).drop_last() =~= a + b.drop_last());
        assert((a + b).last() == b.last());
        lemma_extend_all_append(pre, a, b.drop_last());
    }
}

proof fn lemma_extras_exact(items: Seq<Node>, path: Seq<char>, rs: Seq<RuleView>, clause: Seq<char>)
    ensures
        extras(items, path, rs, clause) matches Ok((ns, rs1)) ==> forall|k: int| 0 <= k < rs.len()
            ==> (#[trigger] rs1[k]).precondition == extend_all(
            rs[k].precondition,
            clause_per_mention(ns, rs[k].name, clause),
        ),
    decreases items.len(),
{
    lemma_extras_keeps(items, path, rs, clause);
    if items.len() == 0 {
        assert forall|k: int| 0 <= k < rs.len() implies (#[trigger] rs[k]).precondition == extend_all(
            rs[k].precondition,
            clause_per_mention(Seq::empty(), rs[k].name, clause),
        ) by {}
    } else {
        lemma_extras_exact(items.drop_last(), path, rs, clause);
        lemma_extras_keeps(items.drop_last(), path, rs, clause);
        if let Ok((ns, rs1)) = extras(items.drop_last(), path, rs, clause) {
            if let Node::Str(r) = items.last() {
                if crate::rules::has_rule(rs1, r@) {
                    let ns2 = ns.push(r@);
                    assert(ns2.drop_last() =~= ns);
                    assert forall|k: int| 0 <= k < rs.len() implies (#[trigger] mark(rs1, r@, clause, true)[k]).precondition
                        == extend_all(rs[k].precondition, clause_per_mention(ns2, rs[k].name, clause)) by {
                        assert(rs1[k].name == rs[k].name);
                        let cs = clause_per_mention(ns, rs[k].name, clause);
                        if rs[k].name == r@ {
                            assert(clause_per_mention(ns2, rs[k].name, clause) == cs.push(clause));
                            assert(cs.push(clause).drop_last() =~= cs);
                        }
                    }
                }
            }
        }
    }
}

proof fn lemma_builtin_material_clauses(name: Seq<char>)
    ensures
        material_clauses(builtin_materials(), name) == Seq::<Seq<char>>::empty(),
{
    let b = builtin_materials();
    let s1 = b.drop_last().drop_last();
    assert(s1.drop_last() =~= Seq::<MaterialView>::empty());
    assert(s1.last() == b[0]);
    assert(b[0].extra_rules =~= Seq::<Seq<char>>::empty());
    assert(b[1].extra_rules =~= Seq::<Seq<char>>::empty());
    assert(b[2].extra_rules =~= Seq::<Seq<char>>::empty());
    assert(b.drop_last().last() == b[1]);
    assert(clause_per_mention(Seq::empty(), name, material_clause(b[0].name)) =~= Seq::<Seq<char>>::empty());
    assert(material_clauses(Seq::<MaterialView>::empty(), name) =~= Seq::<Seq<char>>::empty());
    assert(material_clauses(s1, name) =~= Seq::<Seq<char>>::empty());
    assert(material_clauses(b.drop_last(), name) =~= Seq::<Seq<char>>::empty());
    assert(material_clauses(b, name) =~= Seq::<Seq<char>>::empty());
}

/// What `parse_materials` makes of a precondition: each material, in order,
/// adds its equality test `self.mat == MAT_<name>` once for each time it
/// lists the rule among its extra rules, the first test taking the place of
/// an empty precondition and every later one joined with `||`. So a rule
/// with precondition `p` that exactly two materials `m1` and `m2` list, once
/// each, ends with `self.mat == MAT_m1 || self.mat == MAT_m2` where `p` is
/// empty, and `p || self.mat == MAT_m1 || self.mat == MAT_m2` otherwise.
pub proof fn law_materials_accumulate_exactly(entries: Seq<(Node, Node)>, type_names: Seq<Seq<char>>, rs: Seq<RuleView>)
    requires
        materials_from(entries, type_names, rs) is Ok,
    ensures
        forall|k: int| 0 <= k < rs.len() ==> (#[trigger] materials_from(entries, type_names, rs)->Ok_0.1[k]).precondition
            == extend_all(rs[k].precondition, material_clauses(materials_from(entries, type_names, rs)->Ok_0.0, rs[k].name)),
    decreases entries.len(),
{
    lemma_materials_from_keeps(entries, type_names, rs);
    if entries.len() == 0 {
        assert forall|k: int| 0 <= k < rs.len() implies (#[trigger] materials_from(entries, type_names, rs)->Ok_0.1[k]).precondition
            == extend_all(rs[k].precondition, material_clauses(materials_from(entries, type_names, rs)->Ok_0.0, rs[k].name)) by {
            lemma_builtin_material_clauses(rs[k].name);
        }
    } else {
        law_materials_accumulate_exactly(entries.drop_last(), type_names, rs);
        lemma_materials_from_keeps(entries.drop_last(), type_names, rs);
        let (ms, rs1) = materials_from(entries.drop_last(), type_names, rs)->Ok_0;
        let key = entries.last().0;
        let entry = entries.last().1;
        let (m, rs2) = material_step(key, entry, ms.len(), type_names, rs1)->Ok_0;
        let name = key->Str_0@;
        let path = "materials/"@ + name;
        let clause = material_clause(name);
        match crate::document::lookup(entry, "extra_rules"@) {
            Some(Node::List(items)) => lemma_extras_exact(items@, path, rs1, clause),
            _ => {},
        }
        let ms2 = ms.push(m);
        assert(ms2.drop_last() =~= ms);
        assert forall|k: int| 0 <= k < rs.len() implies (#[trigger] rs2[k]).precondition
            == extend_all(rs[k].precondition, material_clauses(ms2, rs[k].name)) by {
            assert(rs1[k].name == rs[k].name);
            if crate::document::lookup(entry, "extra_rules"@) is None {
                assert(clause_per_mention(m.extra_rules, rs[k].name, clause) =~= Seq::<Seq<char>>::empty());
                assert(material_clauses(ms2, rs[k].name) =~= material_clauses(ms, rs[k].name));
            }
            lemma_extend_all_append(rs[k].precondition, material_clauses(ms, rs[k].name), clause_per_mention(m.extra_rules, rs[k].name, clause));
        }
    }
}

proof fn lemma_type_scan_skips(c: Seq<char>, types: Seq<Seq<char>>, i: int, p: int)
    requires
        0 <= i <= p < c.len(),
        forall|q: int| 0 <= q < p ==> !occurs_at(c, is_type_call(), q),
    ensures
        type_scan(c, i, types) == type_scan(c, p, types),
    decreases p - i,
{
    if i < p {
        lemma_type_scan_skips(c, types, i + 1, p);
    }
}

/// A condition whose first type test `isType_<name>(<cell>)` names an
/// undeclared type fails with NotFound citing that name, at the condition's
/// path. Here `p` is where the test starts in the condition as lowered and
/// with its material names rewritten.
pub proof fn law_undeclared_type_test(raw: Seq<char>, path: Seq<char>, types: Seq<Seq<char>>, mats: Seq<Seq<char>>, p: int)
    requires
        material_scan(lowered(raw), 0, mats) is Ok,
        0 <= p,
        occurs_at(material_scan(lowered(raw), 0, mats)->Ok_0, is_type_call(), p),
        forall|q: int| 0 <= q < p ==> !occurs_at(material_scan(lowered(raw), 0, mats)->Ok_0, is_type_call(), q),
        occurs_at(
            material_scan(lowered(raw), 0, mats)->Ok_0,
            seq!['('],
            word_end(material_scan(lowered(raw), 0, mats)->Ok_0, p + 7),
        ),
        occurs_at(
            material_scan(lowered(raw), 0, mats)->Ok_0,
            seq![')'],
            word_end(
                material_scan(lowered(raw), 0, mats)->Ok_0,
                word_end(material_scan(lowered(raw), 0, mats)->Ok_0, p + 7) + 1,
            ),
        ),
        !types.contains(
            material_scan(lowered(raw), 0, mats)->Ok_0.subrange(
                p + 7,
                word_end(material_scan(lowered(raw), 0, mats)->Ok_0, p + 7),
            ),
        ),
    ensures
        condition(raw, path, types, mats) == Err::<Seq<char>, Fault>(
            Fault::NotFound {
                missing: material_scan(lowered(raw), 0, mats)->Ok_0.subrange(
                    p + 7,
                    word_end(material_scan(lowered(raw), 0, mats)->Ok_0, p + 7),
                ),
                path: path + " -> isType_"@,
            },
        ),
{
    let c = material_scan(lowered(raw), 0, mats)->Ok_0;
    lemma_type_scan_skips(c, types, 0, p);
}

} // verus!
