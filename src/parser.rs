use vstd::prelude::*;
use crate::document::{Node, lookup, get, read_yaml, yaml_tree};
use crate::error::{Fault, ParseError, hint_mapping, hint_string, invalid_type, missing_field};
use crate::materials::{MaterialView, SandMaterial, material_views, materials_from, type_names_of, parse_materials};
use crate::rules::{RuleView, SandRule, parse_rules, rule_views, rules_from, push_text};
use crate::types::{SandType, TypeView, parse_types, type_views, types_phase};

verus! {

/// Everything a document compiles to.
#[derive(Debug)]
pub struct ParsingResult {
    pub rules: Vec<SandRule>,
    pub types: Vec<SandType>,
    pub materials: Vec<SandMaterial>,
}

/// The place named in faults of the document's top level.
pub open spec fn root_path() -> Seq<char> {
    "Root/ Base level of YAML file"@
}

/// The entries of a mandatory top-level section, which must be a mapping.
pub open spec fn section(doc: Node, key: Seq<char>) -> Result<Seq<(Node, Node)>, Fault> {
    match lookup(doc, key) {
        None => Err(Fault::MissingField { field: key, path: root_path() }),
        Some(Node::Mapping(entries)) => Ok(entries@),
        Some(_) => Err(Fault::InvalidType { what: key, path: root_path(), expected: hint_mapping() }),
    }
}

/// The names that a section declares, in order; each key must be a string.
pub open spec fn key_names(entries: Seq<(Node, Node)>, section_name: Seq<char>) -> Result<Seq<Seq<char>>, Fault>
    decreases entries.len(),
{
    if entries.len() == 0 {
        Ok(Seq::empty())
    } else {
        match key_names(entries.drop_last(), section_name) {
            Err(f) => Err(f),
            Ok(ns) => match entries.last().0 {
                Node::Str(k) => Ok(ns.push(k@)),
                _ => Err(Fault::InvalidType { what: "name"@, path: section_name, expected: hint_string() }),
            },
        }
    }
}

/// The first stages of compiling a document tree: the three sections are
/// read and their names collected, then the rules compiled. Gives the
/// entries of `types` and `materials`, the rule names and the rules as
/// declared.
pub open spec fn declared(doc: Node) -> Result<(Seq<(Node, Node)>, Seq<(Node, Node)>, Seq<Seq<char>>, Seq<RuleView>), Fault> {
    match section(doc, "rules"@) {
        Err(f) => Err(f),
        Ok(raw_rules) => match section(doc, "types"@) {
            Err(f) => Err(f),
            Ok(raw_types) => match section(doc, "materials"@) {
                Err(f) => Err(f),
                Ok(raw_materials) => match key_names(raw_rules, "rules"@) {
                    Err(f) => Err(f),
                    Ok(rule_names) => match key_names(raw_types, "types"@) {
                        Err(f) => Err(f),
                        Ok(type_names) => match key_names(raw_materials, "materials"@) {
                            Err(f) => Err(f),
                            Ok(material_names) => match rules_from(
                                raw_rules,
                                type_names.push("EMPTY"@),
                                material_names.push("EMPTY"@),
                            ) {
                                Err(f) => Err(f),
                                Ok(rs) => Ok((raw_types, raw_materials, rule_names, rs)),
                            },
                        },
                    },
                },
            },
        },
    }
}

/// The compiled rules, types and materials of a document tree: after the
/// declared rules (see `declared`), the types and then the materials are
/// compiled, each of which may refer to rules.
pub open spec fn compile(doc: Node) -> Result<(Seq<RuleView>, Seq<TypeView>, Seq<MaterialView>), Fault> {
    match declared(doc) {
        Err(f) => Err(f),
        Ok((raw_types, raw_materials, rule_names, rs)) => match types_phase(raw_types, rs, rule_names) {
            Err(f) => Err(f),
            Ok((ts, rs1)) => match materials_from(raw_materials, type_names_of(ts), rs1) {
                Err(f) => Err(f),
                Ok((ms, rs2)) => Ok((rs2, ts, ms)),
            },
        },
    }
}

/// The views of a compilation result.
pub open spec fn result_view(r: ParsingResult) -> (Seq<RuleView>, Seq<TypeView>, Seq<MaterialView>) {
    (rule_views(r.rules@), type_views(r.types@), material_views(r.materials@))
}

proof fn lemma_key_names_stop(entries: Seq<(Node, Node)>, section_name: Seq<char>, k: int)
    requires
        0 <= k <= entries.len(),
        key_names(entries.subrange(0, k), section_name) is Err,
    ensures
        key_names(entries, section_name) == key_names(entries.subrange(0, k), section_name),
    decreases entries.len() - k,
{
    if k < entries.len() {
        assert(entries.subrange(0, k + 1).drop_last() =~= entries.subrange(0, k));
        lemma_key_names_stop(entries, section_name, k + 1);
    } else {
        assert(entries.subrange(0, k) =~= entries);
    }
}

/// Collects the names that a section declares, in order.
pub fn preparse_keys(map: &Vec<(Node, Node)>, err_name: &str) -> (r: Result<Vec<String>, ParseError>)
    ensures
        match key_names(map@, err_name@) {
            Ok(ns) => r is Ok && r->Ok_0.deep_view() == ns,
            Err(f) => r is Err && r->Err_0@ == f,
        },
{
    let mut names: Vec<String> = Vec::new();
    assert(names.deep_view() =~= Seq::<Seq<char>>::empty());
    let mut i: usize = 0;
    while i < map.len()
        invariant
            i <= map@.len(),
            key_names(map@.subrange(0, i as int), err_name@) == Ok::<Seq<Seq<char>>, Fault>(names.deep_view()),
        decreases map.len() - i,
    {
        assert(map@.subrange(0, i + 1).drop_last() =~= map@.subrange(0, i as int));
        match &map[i].0 {
            Node::Str(k) => push_text(&mut names, String::from_str(k.as_str())),
            _ => {
                proof {
                    lemma_key_names_stop(map@, err_name@, i + 1);
                }
                return Err(invalid_type("name", err_name, "string"));
            },
        }
        i = i + 1;
    }
    assert(map@.subrange(0, i as int) =~= map@);
    Ok(names)
}

/// The entries of the mandatory top-level section `keyname`.
pub fn check_and_convert_key_to_mapping<'a>(dict: &'a Node, keyname: &str) -> (r: Result<&'a Vec<(Node, Node)>, ParseError>)
    ensures
        match section(*dict, keyname@) {
            Ok(es) => r is Ok && r->Ok_0@ == es,
            Err(f) => r is Err && r->Err_0@ == f,
        },
{
    match get(dict, keyname) {
        None => Err(missing_field(keyname, "Root/ Base level of YAML file")),
        Some(Node::Mapping(entries)) => Ok(entries),
        Some(_) => Err(invalid_type(keyname, "Root/ Base level of YAML file", "mapping (dictionary-like)")),
    }
}

/// Compiles a document tree (see `compile`).
pub fn parse_document(data: &Node) -> (r: Result<ParsingResult, ParseError>)
    ensures
        match compile(*data) {
            Ok(v) => r is Ok && result_view(r->Ok_0) == v,
            Err(f) => r is Err && r->Err_0@ == f,
        },
{
    let raw_rules = check_and_convert_key_to_mapping(data, "rules")?;
    let raw_types = check_and_convert_key_to_mapping(data, "types")?;
    let raw_materials = check_and_convert_key_to_mapping(data, "materials")?;
    let rule_names = preparse_keys(raw_rules, "rules")?;
    let mut type_names = preparse_keys(raw_types, "types")?;
    push_text(&mut type_names, String::from_str("EMPTY"));
    let mut material_names = preparse_keys(raw_materials, "materials")?;
    push_text(&mut material_names, String::from_str("EMPTY"));
    let mut rules = parse_rules(raw_rules, &type_names, &material_names)?;
    let types = parse_types(raw_types, &mut rules, &rule_names)?;
    let materials = parse_materials(raw_materials, &mut rules, &types)?;
    Ok(ParsingResult { rules, types, materials })
}

/// Reads a YAML text and compiles the document it holds; a text that is no
/// YAML gives `Syntax`.
pub fn parse_string(f: &str) -> (r: Result<ParsingResult, ParseError>)
    ensures
        match yaml_tree(f@) {
            None => r is Err && r->Err_0@ == Fault::Syntax,
            Some(doc) => match compile(doc) {
                Ok(v) => r is Ok && result_view(r->Ok_0) == v,
                Err(fault) => r is Err && r->Err_0@ == fault,
            },
        },
{
    match read_yaml(f) {
        Err(error) => Err(ParseError::Syntax { error }),
        Ok(doc) => parse_document(&doc),
    }
}

} // verus!
