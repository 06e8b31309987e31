use vstd::prelude::*;
use crate::document::{
    Node, Numeric, Scalar, ScalarView, copy_scalar, get, is_unit, is_unit_exec,
    lemma_lookup_decreases, lookup, scalar,
};
use crate::error::{
    Fault, ParseError, hint_bool, hint_float, hint_instructions, hint_string, invalid_type,
    missing_field, not_found, not_recognized,
};
use crate::text::{
    chars_of, contains, contains_text, index_of_from, index_of_from_exec, is_word, is_word_exec,
    lemma_index_of_from, lemma_space_end, lemma_word_end, listed, matches_at, occurs_at, replace_all,
    replaced, slice_text, space_end, space_end_exec, trim_end_text, trimmed_end, word_end,
    word_end_exec,
};
use crate::document::same_text;

verus! {

/// The cell names that a condition or an instruction may use.
pub open spec fn is_cell(w: Seq<char>) -> bool {
    w == "SELF"@ || w == "LEFT"@ || w == "RIGHT"@ || w == "DOWN"@ || w == "DOWNRIGHT"@ || w
        == "DOWNLEFT"@
}

/// The lexical rewriting of rule text into shader text: the word operators
/// become symbols, `empty` the empty material, and the cell names lower case.
pub open spec fn lowered(s: Seq<char>) -> Seq<char> {
    let s = replaced(s, " or "@, " || "@);
    let s = replaced(s, " and "@, " && "@);
    let s = replaced(s, "not "@, " !"@);
    let s = replaced(s, "empty"@, "MAT_EMPTY"@);
    let s = replaced(s, "SELF"@, "self"@);
    let s = replaced(s, "RIGHT"@, "right"@);
    let s = replaced(s, "LEFT"@, "left"@);
    replaced(s, "DOWN"@, "down"@)
}

/// Rewrites rule text into shader text (see `lowered`).
pub fn parse_global_scope(parse_str: &mut String)
    ensures
        final(parse_str)@ == lowered(old(parse_str)@),
{
    *parse_str = replace_all(parse_str.as_str(), " or ", " || ");
    *parse_str = replace_all(parse_str.as_str(), " and ", " && ");
    *parse_str = replace_all(parse_str.as_str(), "not ", " !");
    *parse_str = replace_all(parse_str.as_str(), "empty", "MAT_EMPTY");
    *parse_str = replace_all(parse_str.as_str(), "SELF", "self");
    *parse_str = replace_all(parse_str.as_str(), "RIGHT", "right");
    *parse_str = replace_all(parse_str.as_str(), "LEFT", "left");
    *parse_str = replace_all(parse_str.as_str(), "DOWN", "down");
}

fn is_cell_exec(w: &str) -> (r: bool)
    ensures
        r == is_cell(w@),
{
    same_text(w, "SELF") || same_text(w, "LEFT") || same_text(w, "RIGHT") || same_text(w, "DOWN")
        || same_text(w, "DOWNRIGHT") || same_text(w, "DOWNLEFT")
}

/// The statement an instruction stands for, before lowering; `Err(Some(w))`
/// where `w` should be a cell name and is none, `Err(None)` where the text is
/// neither `SWAP <cell> <cell>` nor `SET <cell> <material>`.
pub open spec fn instruction(s: Seq<char>) -> Result<Seq<char>, Option<Seq<char>>> {
    let p = index_of_from(s, ' ', 0);
    let q = index_of_from(s, ' ', p + 1);
    if q >= s.len() {
        Err(None)
    } else {
        let op = s.subrange(0, p);
        let a = s.subrange(p + 1, q);
        let b = s.subrange(q + 1, s.len() as int);
        if !is_word(a) || !is_word(b) {
            Err(None)
        } else if op == "SWAP"@ {
            if !is_cell(a) {
                Err(Some(a))
            } else if !is_cell(b) {
                Err(Some(b))
            } else {
                Ok("swap("@ + a + ", "@ + b + ");\n"@)
            }
        } else if op == "SET"@ {
            if !is_cell(a) {
                Err(Some(a))
            } else {
                Ok(a + " = newCell(MAT_"@ + b + ", pos);\n"@)
            }
        } else {
            Err(None)
        }
    }
}

/// The lowered statement of one instruction, or the fault it holds.
pub open spec fn instruction_at(s: Seq<char>, path: Seq<char>) -> Result<Seq<char>, Fault> {
    match instruction(s) {
        Ok(t) => Ok(lowered(t)),
        Err(Some(w)) => Err(Fault::NotFound { missing: w, path }),
        Err(None) => Err(Fault::NotRecognized { text: s, path }),
    }
}

/// Converts one instruction (`SWAP <cell> <cell>` or `SET <cell> <material>`)
/// into a shader statement.
pub fn parse_do(parent: &str, do_str: &str) -> (r: Result<String, ParseError>)
    ensures
        match instruction(do_str@) {
            Ok(t) => r is Ok && r->Ok_0@ == t,
            Err(Some(w)) => r is Err && r->Err_0@ == (Fault::NotFound { missing: w, path: parent@ }),
            Err(None) => r is Err && r->Err_0@ == (Fault::NotRecognized {
                text: do_str@,
                path: parent@,
            }),
        },
{
    let cs = chars_of(do_str);
    let n = cs.len();
    let p = index_of_from_exec(&cs, ' ', 0);
    proof {
        lemma_index_of_from(do_str@, ' ', 0);
    }
    if p >= n {
        return Err(not_recognized(do_str, parent));
    }
    let q = index_of_from_exec(&cs, ' ', p + 1);
    proof {
        lemma_index_of_from(do_str@, ' ', p + 1);
    }
    if q >= n {
        return Err(not_recognized(do_str, parent));
    }
    let op = slice_text(do_str, 0, p);
    let a = slice_text(do_str, p + 1, q);
    let b = slice_text(do_str, q + 1, n);
    if !is_word_exec(a.as_str()) || !is_word_exec(b.as_str()) {
        return Err(not_recognized(do_str, parent));
    }
    if same_text(op.as_str(), "SWAP") {
        if !is_cell_exec(a.as_str()) {
            return Err(not_found(a.as_str(), parent));
        }
        if !is_cell_exec(b.as_str()) {
            return Err(not_found(b.as_str(), parent));
        }
        let mut out = String::from_str("swap(");
        out.append(a.as_str());
        out.append(", ");
        out.append(b.as_str());
        out.append(");\n");
        Ok(out)
    } else if same_text(op.as_str(), "SET") {
        if !is_cell_exec(a.as_str()) {
            return Err(not_found(a.as_str(), parent));
        }
        let mut out = a;
        out.append(" = newCell(MAT_");
        out.append(b.as_str());
        out.append(", pos);\n");
        Ok(out)
    } else {
        Err(not_recognized(do_str, parent))
    }
}

pub open spec fn dot_mat() -> Seq<char> {
    seq!['.', 'm', 'a', 't']
}

pub open spec fn is_type_call() -> Seq<char> {
    seq!['i', 's', 'T', 'y', 'p', 'e', '_']
}

/// The comparison operator of a material test, when one starts at `j`.
pub open spec fn comparison_at(c: Seq<char>, j: int) -> bool {
    occurs_at(c, seq!['=', '='], j) || occurs_at(c, seq!['!', '='], j)
}

/// Where a material test `<cell>.mat == <name>` or `<cell>.mat != <name>`
/// has its `.mat` at `i`, the bounds of the name. An operand that is itself a
/// field access (`SELF.mat`) is no name.
pub open spec fn material_test_at(c: Seq<char>, i: int) -> Option<(int, int)> {
    if occurs_at(c, dot_mat(), i) && comparison_at(c, space_end(c, i + 4)) {
        let k = space_end(c, space_end(c, i + 4) + 2);
        let l = word_end(c, k);
        if occurs_at(c, seq!['.'], l) {
            None
        } else {
            Some((k, l))
        }
    } else {
        None
    }
}

/// Scans `c` from `i` for material tests (see `material_test_at`): the
/// reserved empty material `MAT_EMPTY` (what `empty` lowers to) stands as
/// written; any other name must be one of `mats` and is rewritten to
/// `MAT_<name>`. Gives the rewritten text from `i` on, or the first unknown
/// name.
pub open spec fn material_scan(c: Seq<char>, i: int, mats: Seq<Seq<char>>) -> Result<
    Seq<char>,
    Seq<char>,
>
    decreases c.len() - i via material_scan_decreases
{
    if i < 0 || i >= c.len() {
        Ok(Seq::empty())
    } else {
        match material_test_at(c, i) {
            Some((k, l)) => {
                let w = c.subrange(k, l);
                if w == "MAT_EMPTY"@ {
                    match material_scan(c, l, mats) {
                        Ok(rest) => Ok(c.subrange(i, l) + rest),
                        Err(e) => Err(e),
                    }
                } else if !mats.contains(w) {
                    Err(w)
                } else {
                    match material_scan(c, l, mats) {
                        Ok(rest) => Ok(c.subrange(i, k) + "MAT_"@ + w + rest),
                        Err(e) => Err(e),
                    }
                }
            },
            None => match material_scan(c, i + 1, mats) {
                Ok(rest) => Ok(seq![c[i]] + rest),
                Err(e) => Err(e),
            },
        }
    }
}

#[via_fn]
proof fn material_scan_decreases(c: Seq<char>, i: int, mats: Seq<Seq<char>>) {
    if 0 <= i < c.len() && occurs_at(c, dot_mat(), i) {
        lemma_space_end(c, i + 4);
        if comparison_at(c, space_end(c, i + 4)) {
            lemma_space_end(c, space_end(c, i + 4) + 2);
            lemma_word_end(c, space_end(c, space_end(c, i + 4) + 2));
        }
    }
}

#[via_fn]
proof fn type_scan_decreases(c: Seq<char>, i: int, types: Seq<Seq<char>>) {
    if 0 <= i < c.len() && occurs_at(c, is_type_call(), i) {
        lemma_word_end(c, i + 7);
        if occurs_at(c, seq!['('], word_end(c, i + 7)) {
            lemma_word_end(c, word_end(c, i + 7) + 1);
        }
    }
}

/// Scans `c` from `i` for type tests `isType_<name>(<cell>)` and gives the
/// first name that is not among `types`.
pub open spec fn type_scan(c: Seq<char>, i: int, types: Seq<Seq<char>>) -> Option<Seq<char>>
    decreases c.len() - i via type_scan_decreases
{
    if i < 0 || i >= c.len() {
        None
    } else if occurs_at(c, is_type_call(), i) && occurs_at(c, seq!['('], word_end(c, i + 7))
        && occurs_at(c, seq![')'], word_end(c, word_end(c, i + 7) + 1)) {
        let l = word_end(c, i + 7);
        let m = word_end(c, l + 1);
        let w = c.subrange(i + 7, l);
        if !types.contains(w) {
            Some(w)
        } else {
            type_scan(c, m + 1, types)
        }
    } else {
        type_scan(c, i + 1, types)
    }
}

/// The shader text of a condition, or the fault it holds.
pub open spec fn condition(raw: Seq<char>, path: Seq<char>, types: Seq<Seq<char>>, mats: Seq<Seq<char>>) -> Result<Seq<char>, Fault> {
    match material_scan(lowered(raw), 0, mats) {
        Err(w) => Err(Fault::NotFound { missing: w, path }),
        Ok(c) => match type_scan(c, 0, types) {
            Some(w) => Err(Fault::NotFound { missing: w, path: path + " -> isType_"@ }),
            None => Ok(c),
        },
    }
}

pub open spec fn scan_view(r: Result<String, String>) -> Result<Seq<char>, Seq<char>> {
    match r {
        Ok(t) => Ok(t@),
        Err(w) => Err(w@),
    }
}

fn rewrite_materials(src: &str, c: &Vec<char>, i: usize, mats: &Vec<String>) -> (r: Result<String, String>)
    requires
        c@ == src@,
        i <= c@.len(),
    ensures
        scan_view(r) == material_scan(c@, i as int, mats.deep_view()),
    decreases c@.len() - i,
{
    let n = c.len();
    if i >= n {
        return Ok(String::new());
    }
    let dm = vec!['.', 'm', 'a', 't'];
    let eq = vec!['=', '='];
    let ne = vec!['!', '='];
    assert(dm@ == dot_mat());
    assert(eq@ == seq!['=', '=']);
    assert(ne@ == seq!['!', '=']);
    let dot = vec!['.'];
    assert(dot@ == seq!['.']);
    let at_mat = matches_at(c, &dm, i);
    if at_mat {
        let j = space_end_exec(c, i + 4);
        proof {
            lemma_space_end(c@, i + 4);
        }
        if matches_at(c, &eq, j) || matches_at(c, &ne, j) {
            let k = space_end_exec(c, j + 2);
            proof {
                lemma_space_end(c@, j + 2);
            }
            let l = word_end_exec(c, k);
            proof {
                lemma_word_end(c@, k as int);
            }
            if matches_at(c, &dot, l) {
                return rewrite_materials_step(src, c, i, mats);
            }
            let w = slice_text(src, k, l);
            if same_text(w.as_str(), "MAT_EMPTY") {
                return match rewrite_materials(src, c, l, mats) {
                    Ok(rest) => {
                        let mut out = slice_text(src, i, l);
                        out.append(rest.as_str());
                        Ok(out)
                    },
                    Err(e) => Err(e),
                };
            }
            if !listed(mats, w.as_str()) {
                return Err(w);
            }
            match rewrite_materials(src, c, l, mats) {
                Ok(rest) => {
                    let mut out = slice_text(src, i, k);
                    out.append("MAT_");
                    out.append(w.as_str());
                    out.append(rest.as_str());
                    Ok(out)
                },
                Err(e) => Err(e),
            }
        } else {
            rewrite_materials_step(src, c, i, mats)
        }
    } else {
        rewrite_materials_step(src, c, i, mats)
    }
}

fn rewrite_materials_step(src: &str, c: &Vec<char>, i: usize, mats: &Vec<String>) -> (r: Result<String, String>)
    requires
        c@ == src@,
        i < c@.len(),
        material_test_at(c@, i as int) is None,
    ensures
        scan_view(r) == material_scan(c@, i as int, mats.deep_view()),
    decreases c@.len() - i, 0int,
{
    let n = c.len();
    match rewrite_materials(src, c, i + 1, mats) {
        Ok(rest) => {
            let mut out = slice_text(src, i, i + 1);
            assert(out@ =~= seq![c@[i as int]]);
            out.append(rest.as_str());
            Ok(out)
        },
        Err(e) => Err(e),
    }
}

fn find_unknown_type(src: &str, c: &Vec<char>, i: usize, types: &Vec<String>) -> (r: Option<String>)
    requires
        c@ == src@,
        i <= c@.len(),
    ensures
        match type_scan(c@, i as int, types.deep_view()) {
            Some(w) => r is Some && r->Some_0@ == w,
            None => r is None,
        },
    decreases c@.len() - i,
{
    let n = c.len();
    if i >= n {
        return None;
    }
    let it = vec!['i', 's', 'T', 'y', 'p', 'e', '_'];
    let open = vec!['('];
    let close = vec![')'];
    assert(it@ == is_type_call());
    assert(open@ == seq!['(']);
    assert(close@ == seq![')']);
    if matches_at(c, &it, i) {
        let l = word_end_exec(c, i + 7);
        proof {
            lemma_word_end(c@, i + 7);
        }
        if matches_at(c, &open, l) {
            let m = word_end_exec(c, l + 1);
            proof {
                lemma_word_end(c@, l + 1);
            }
            if matches_at(c, &close, m) {
                let w = slice_text(src, i + 7, l);
                if !listed(types, w.as_str()) {
                    return Some(w);
                }
                return find_unknown_type(src, c, m + 1, types);
            }
        }
    }
    find_unknown_type(src, c, i + 1, types)
}

/// Lowers a condition, rewrites its material names and checks its type names.
pub fn parse_condition(raw: &str, path: &str, type_names: &Vec<String>, material_names: &Vec<String>) -> (r: Result<String, ParseError>)
    ensures
        match condition(raw@, path@, type_names.deep_view(), material_names.deep_view()) {
            Ok(c) => r is Ok && r->Ok_0@ == c,
            Err(f) => r is Err && r->Err_0@ == f,
        },
{
    let mut low = String::from_str(raw);
    parse_global_scope(&mut low);
    let cs = chars_of(low.as_str());
    match rewrite_materials(low.as_str(), &cs, 0, material_names) {
        Err(w) => Err(not_found(w.as_str(), path)),
        Ok(c) => {
            let cs2 = chars_of(c.as_str());
            match find_unknown_type(c.as_str(), &cs2, 0, type_names) {
                Some(w) => {
                    let mut p = String::from_str(path);
                    p.append(" -> isType_");
                    Err(not_found(w.as_str(), p.as_str()))
                },
                None => Ok(c),
            }
        },
    }
}

/// How a rule is applied: from both sides, or with its left or right neighbour.
#[derive(Clone, Copy, Debug, PartialEq, Eq, Structural)]
pub enum SandRuleType {
    Mirrored,
    Left,
    Right,
}

/// A compiled rule.
#[derive(Debug)]
pub struct SandRule {
    /// Name of the rule (its key in the document).
    pub name: String,
    /// How the rule is applied.
    pub ruletype: SandRuleType,
    /// The conditions of the if/else chain, in order.
    pub if_conds: Vec<String>,
    /// The actions of the if/else chain, in order; the last one may stand
    /// without a condition.
    pub do_actions: Vec<String>,
    /// Whether the rule is mirrored horizontally.
    pub mirror: bool,
    /// The guard that restricts the rule to materials or types: `None` for a
    /// rule that is never guarded, an empty text while nothing refers to it.
    pub precondition: Option<String>,
    /// The probability that the rule runs.
    pub probability: Scalar,
    /// Whether a type or a material refers to the rule.
    pub used: bool,
}

pub struct RuleView {
    pub name: Seq<char>,
    pub ruletype: SandRuleType,
    pub if_conds: Seq<Seq<char>>,
    pub do_actions: Seq<Seq<char>>,
    pub mirror: bool,
    pub precondition: Option<Seq<char>>,
    pub probability: ScalarView,
    pub used: bool,
}

impl View for SandRule {
    type V = RuleView;

    open spec fn view(&self) -> RuleView {
        RuleView {
            name: self.name@,
            ruletype: self.ruletype,
            if_conds: self.if_conds.deep_view(),
            do_actions: self.do_actions.deep_view(),
            mirror: self.mirror,
            precondition: self.precondition.deep_view(),
            probability: self.probability@,
            used: self.used,
        }
    }
}

/// The statements of a list of instructions, joined, or the first fault.
pub open spec fn action_list(items: Seq<Node>, path: Seq<char>) -> Result<Seq<char>, Fault>
    decreases items.len(),
{
    if items.len() == 0 {
        Ok(Seq::empty())
    } else {
        match action_list(items.drop_last(), path) {
            Err(f) => Err(f),
            Ok(t) => match items.last() {
                Node::Str(s) => match instruction_at(s@, path) {
                    Ok(u) => Ok(t + u),
                    Err(f) => Err(f),
                },
                _ => Err(Fault::InvalidType { what: "do"@, path, expected: hint_instructions() }),
            },
        }
    }
}

proof fn lemma_action_list_stops(items: Seq<Node>, path: Seq<char>, k: int)
    requires
        0 <= k <= items.len(),
        action_list(items.subrange(0, k), path) is Err,
    ensures
        action_list(items, path) == action_list(items.subrange(0, k), path),
    decreases items.len() - k,
{
    if k < items.len() {
        assert(items.subrange(0, k + 1).drop_last() =~= items.subrange(0, k));
        lemma_action_list_stops(items, path, k + 1);
    } else {
        assert(items.subrange(0, k) =~= items);
    }
}

/// The shader text of a `do` field: one instruction or a list of them.
pub open spec fn action(d: Node, path: Seq<char>) -> Result<Seq<char>, Fault> {
    match d {
        Node::Str(s) => match instruction_at(s@, path) {
            Ok(u) => Ok(trimmed_end(u)),
            Err(f) => Err(f),
        },
        Node::List(items) => match action_list(items@, path) {
            Ok(t) => Ok(trimmed_end(t)),
            Err(f) => Err(f),
        },
        _ => Err(Fault::InvalidType { what: "do"@, path, expected: hint_instructions() }),
    }
}

/// The conditions and actions of an if/do/else chain. At the top of the
/// chain (`is_else` false) the `if` is mandatory; the `do` is everywhere.
pub open spec fn chain(
    node: Node,
    is_else: bool,
    path: Seq<char>,
    types: Seq<Seq<char>>,
    mats: Seq<Seq<char>>,
) -> Result<(Seq<Seq<char>>, Seq<Seq<char>>), Fault>
    decreases node via chain_decreases
{
    let cond: Result<Seq<Seq<char>>, Fault> = match lookup(node, "if"@) {
        None => if is_else {
            Ok(Seq::empty())
        } else {
            Err(Fault::MissingField { field: "if"@, path })
        },
        Some(Node::Str(s)) => match condition(s@, path + "/if"@, types, mats) {
            Ok(c) => Ok(seq![c]),
            Err(f) => Err(f),
        },
        Some(_) => Err(Fault::InvalidType { what: "if"@, path: path + "/if"@, expected: hint_string() }),
    };
    match cond {
        Err(f) => Err(f),
        Ok(cs) => match lookup(node, "do"@) {
            None => Err(Fault::MissingField { field: "do"@, path }),
            Some(d) => match action(d, path + "/do"@) {
                Err(f) => Err(f),
                Ok(a) => match lookup(node, "else"@) {
                    None => Ok((cs, seq![a])),
                    Some(e) => match chain(e, true, path + "/else"@, types, mats) {
                        Err(f) => Err(f),
                        Ok((cs2, acts2)) => Ok((cs + cs2, seq![a] + acts2)),
                    },
                },
            },
        },
    }
}

#[via_fn]
proof fn chain_decreases(node: Node, is_else: bool, path: Seq<char>, types: Seq<Seq<char>>, mats: Seq<Seq<char>>) {
    if lookup(node, "else"@) is Some {
        lemma_lookup_decreases(node, "else"@);
    }
}

pub fn push_text(v: &mut Vec<String>, s: String)
    ensures
        final(v).deep_view() == old(v).deep_view().push(s@),
{
    v.push(s);
    assert(final(v).deep_view() =~= old(v).deep_view().push(s@));
}

/// The shader text of a `do` field.
fn parse_action(d: &Node, path: &str) -> (r: Result<String, ParseError>)
    ensures
        match action(*d, path@) {
            Ok(t) => r is Ok && r->Ok_0@ == t,
            Err(f) => r is Err && r->Err_0@ == f,
        },
{
    match d {
        Node::Str(s) => {
            let mut t = parse_do(path, s.as_str())?;
            parse_global_scope(&mut t);
            Ok(trim_end_text(t.as_str()))
        },
        Node::List(items) => {
            let mut out = String::new();
            let mut i: usize = 0;
            while i < items.len()
                invariant
                    *d == Node::List(*items),
                    i <= items@.len(),
                    action_list(items@.subrange(0, i as int), path@) == Ok::<Seq<char>, Fault>(out@),
                decreases items.len() - i,
            {
                assert(items@.subrange(0, i + 1).drop_last() =~= items@.subrange(0, i as int));
                match &items[i] {
                    Node::Str(s) => {
                        match parse_do(path, s.as_str()) {
                            Ok(t0) => {
                                let mut t = t0;
                                parse_global_scope(&mut t);
                                out.append(t.as_str());
                            },
                            Err(e) => {
                                proof {
                                    lemma_action_list_stops(items@, path@, i + 1);
                                }
                                return Err(e);
                            },
                        }
                    },
                    _ => {
                        proof {
                            lemma_action_list_stops(items@, path@, i + 1);
                        }
                        return Err(invalid_type("do", path, "string or sequence of strings"));
                    },
                }
                i = i + 1;
            }
            assert(items@.subrange(0, i as int) =~= items@);
            Ok(trim_end_text(out.as_str()))
        },
        _ => Err(invalid_type("do", path, "string or sequence of strings")),
    }
}

/// Parses an if/do/else chain, appending its conditions and actions.
pub fn parse_conditionals(
    parent: &Node,
    parent_is_else: bool,
    parent_path: &str,
    if_conds: &mut Vec<String>,
    do_actions: &mut Vec<String>,
    type_names: &Vec<String>,
    material_names: &Vec<String>,
) -> (r: Result<(), ParseError>)
    ensures
        match chain(*parent, parent_is_else, parent_path@, type_names.deep_view(), material_names.deep_view()) {
            Ok((cs, acts)) => r is Ok && final(if_conds).deep_view() == old(if_conds).deep_view() + cs
                && final(do_actions).deep_view() == old(do_actions).deep_view() + acts,
            Err(f) => r is Err && r->Err_0@ == f,
        },
    decreases *parent,
{
    let ghost cs0 = if_conds.deep_view();
    let ghost as0 = do_actions.deep_view();
    let mut if_path = String::from_str(parent_path);
    if_path.append("/if");
    match get(parent, "if") {
        None => {
            if !parent_is_else {
                return Err(missing_field("if", parent_path));
            }
            assert(if_conds.deep_view() =~= cs0 + Seq::<Seq<char>>::empty());
        },
        Some(Node::Str(s)) => {
            let c = parse_condition(s.as_str(), if_path.as_str(), type_names, material_names)?;
            push_text(if_conds, c);
        },
        Some(_) => {
            return Err(invalid_type("if", if_path.as_str(), "string"));
        },
    }
    let mut do_path = String::from_str(parent_path);
    do_path.append("/do");
    let a = match get(parent, "do") {
        None => {
            return Err(missing_field("do", parent_path));
        },
        Some(d) => parse_action(d, do_path.as_str())?,
    };
    push_text(do_actions, a);
    assert(do_actions.deep_view() =~= as0 + seq![a@]);
    match get(parent, "else") {
        None => Ok(()),
        Some(e) => {
            proof {
                lemma_lookup_decreases(*parent, "else"@);
            }
            let mut else_path = String::from_str(parent_path);
            else_path.append("/else");
            let ghost cs1 = if_conds.deep_view();
            let ghost as1 = do_actions.deep_view();
            let r = parse_conditionals(e, true, else_path.as_str(), if_conds, do_actions, type_names, material_names);
            proof {
                match chain(*e, true, else_path@, type_names.deep_view(), material_names.deep_view()) {
                    Ok((cs2, acts2)) => {
                        assert(if_conds.deep_view() =~= cs0 + (cs1.subrange(cs0.len() as int, cs1.len() as int) + cs2));
                        assert(do_actions.deep_view() =~= as0 + (seq![a@] + acts2));
                    },
                    Err(f) => {},
                }
            }
            r
        },
    }
}

/// A boolean field with a default, or the fault of a value of another kind.
pub open spec fn flag(entry: Node, key: Seq<char>, default: bool, path: Seq<char>) -> Result<bool, Fault> {
    match lookup(entry, key) {
        None => Ok(default),
        Some(Node::Bool(b)) => Ok(b),
        Some(_) => Err(Fault::InvalidType { what: key, path, expected: hint_bool() }),
    }
}

/// The `probability` field: a number from 0 to 1, by default 1.
pub open spec fn probability_of(entry: Node, path: Seq<char>) -> Result<ScalarView, Fault> {
    match lookup(entry, "probability"@) {
        None => Ok(ScalarView { value: Numeric::PosInt(1), text: "1"@ }),
        Some(Node::Num(n)) => if is_unit(n.value) {
            Ok(n@)
        } else {
            Err(Fault::InvalidType { what: "probability"@, path, expected: hint_float() })
        },
        Some(_) => Err(Fault::InvalidType { what: "probability"@, path, expected: hint_float() }),
    }
}

/// A mirrored rule is `Mirrored`; another is `Left` where its first action
/// speaks of the left cell, else `Right`.
pub open spec fn rule_type(mirror: bool, acts: Seq<Seq<char>>) -> SandRuleType {
    if mirror {
        SandRuleType::Mirrored
    } else if acts.len() > 0 && contains(acts[0], "left"@) {
        SandRuleType::Left
    } else {
        SandRuleType::Right
    }
}

/// The rule that one entry of the `rules` section declares.
pub open spec fn rule_of(key: Node, entry: Node, types: Seq<Seq<char>>, mats: Seq<Seq<char>>) -> Result<RuleView, Fault> {
    match key {
        Node::Str(name) => {
            let path = "rules/"@ + name@;
            match chain(entry, false, path, types, mats) {
                Err(f) => Err(f),
                Ok((cs, acts)) => match flag(entry, "mirrored"@, false, path) {
                    Err(f) => Err(f),
                    Ok(mirror) => match flag(entry, "precondition"@, true, path) {
                        Err(f) => Err(f),
                        Ok(pre) => match probability_of(entry, path) {
                            Err(f) => Err(f),
                            Ok(p) => Ok(
                                RuleView {
                                    name: name@,
                                    ruletype: rule_type(mirror, acts),
                                    if_conds: cs,
                                    do_actions: acts,
                                    mirror,
                                    precondition: if pre {
                                        Some(Seq::empty())
                                    } else {
                                        None
                                    },
                                    probability: p,
                                    used: false,
                                },
                            ),
                        },
                    },
                },
            }
        },
        _ => Err(Fault::InvalidType { what: "name"@, path: "rules"@, expected: hint_string() }),
    }
}

/// The rules of a `rules` section, in order, or the first fault.
pub open spec fn rules_from(entries: Seq<(Node, Node)>, types: Seq<Seq<char>>, mats: Seq<Seq<char>>) -> Result<Seq<RuleView>, Fault>
    decreases entries.len(),
{
    if entries.len() == 0 {
        Ok(Seq::empty())
    } else {
        match rules_from(entries.drop_last(), types, mats) {
            Err(f) => Err(f),
            Ok(rs) => match rule_of(entries.last().0, entries.last().1, types, mats) {
                Ok(r) => Ok(rs.push(r)),
                Err(f) => Err(f),
            },
        }
    }
}

proof fn lemma_rules_from_stops(entries: Seq<(Node, Node)>, types: Seq<Seq<char>>, mats: Seq<Seq<char>>, k: int)
    requires
        0 <= k <= entries.len(),
        rules_from(entries.subrange(0, k), types, mats) is Err,
    ensures
        rules_from(entries, types, mats) == rules_from(entries.subrange(0, k), types, mats),
    decreases entries.len() - k,
{
    if k < entries.len() {
        assert(entries.subrange(0, k + 1).drop_last() =~= entries.subrange(0, k));
        lemma_rules_from_stops(entries, types, mats, k + 1);
    } else {
        assert(entries.subrange(0, k) =~= entries);
    }
}

/// The views of a list of rules.
pub open spec fn rule_views(rs: Seq<SandRule>) -> Seq<RuleView> {
    rs.map_values(|r: SandRule| r@)
}

fn read_flag(entry: &Node, key: &str, default: bool, path: &str) -> (r: Result<bool, ParseError>)
    ensures
        match flag(*entry, key@, default, path@) {
            Ok(b) => r == Ok::<bool, ParseError>(b),
            Err(f) => r is Err && r->Err_0@ == f,
        },
{
    match get(entry, key) {
        None => Ok(default),
        Some(Node::Bool(b)) => Ok(*b),
        Some(_) => Err(invalid_type(key, path, "bool (true/false)")),
    }
}

fn read_probability(entry: &Node, path: &str) -> (r: Result<Scalar, ParseError>)
    ensures
        match probability_of(*entry, path@) {
            Ok(p) => r is Ok && r->Ok_0@ == p,
            Err(f) => r is Err && r->Err_0@ == f,
        },
{
    match get(entry, "probability") {
        None => Ok(scalar(Numeric::PosInt(1), "1")),
        Some(Node::Num(n)) => {
            if is_unit_exec(n.value) {
                Ok(copy_scalar(n))
            } else {
                Err(invalid_type("probability", path, "float (0.0 to 1.0)"))
            }
        },
        Some(_) => Err(invalid_type("probability", path, "float (0.0 to 1.0)")),
    }
}

/// Compiles one entry of the `rules` section.
pub fn parse_rule(key: &Node, entry: &Node, type_names: &Vec<String>, material_names: &Vec<String>) -> (r: Result<SandRule, ParseError>)
    ensures
        match rule_of(*key, *entry, type_names.deep_view(), material_names.deep_view()) {
            Ok(v) => r is Ok && r->Ok_0@ == v,
            Err(f) => r is Err && r->Err_0@ == f,
        },
{
    let name = match key {
        Node::Str(s) => s,
        _ => {
            return Err(invalid_type("name", "rules", "string"));
        },
    };
    let mut path = String::from_str("rules/");
    path.append(name.as_str());
    let mut if_conds: Vec<String> = Vec::new();
    let mut do_actions: Vec<String> = Vec::new();
    assert(if_conds.deep_view() =~= Seq::<Seq<char>>::empty());
    assert(do_actions.deep_view() =~= Seq::<Seq<char>>::empty());
    parse_conditionals(entry, false, path.as_str(), &mut if_conds, &mut do_actions, type_names, material_names)?;
    assert(if_conds.deep_view() =~= Seq::<Seq<char>>::empty() + if_conds.deep_view());
    let mirror = read_flag(entry, "mirrored", false, path.as_str())?;
    let pre = read_flag(entry, "precondition", true, path.as_str())?;
    let probability = read_probability(entry, path.as_str())?;
    let ruletype = if mirror {
        SandRuleType::Mirrored
    } else if do_actions.len() > 0 && contains_text(do_actions[0].as_str(), "left") {
        SandRuleType::Left
    } else {
        SandRuleType::Right
    };
    let precondition = if pre {
        Some(String::new())
    } else {
        None
    };
    let rule = SandRule {
        name: String::from_str(name.as_str()),
        ruletype,
        if_conds,
        do_actions,
        mirror,
        precondition,
        probability,
        used: false,
    };
    proof {
        match chain(*entry, false, path@, type_names.deep_view(), material_names.deep_view()) {
            Ok((cs, acts)) => {
                assert(rule.if_conds.deep_view() =~= cs);
                assert(rule.do_actions.deep_view() =~= acts);
            },
            Err(_) => {},
        }
    }
    Ok(rule)
}

/// Compiles the entries of the `rules` section, in order.
pub fn parse_rules(rules: &Vec<(Node, Node)>, type_names: &Vec<String>, material_names: &Vec<String>) -> (r: Result<Vec<SandRule>, ParseError>)
    ensures
        match rules_from(rules@, type_names.deep_view(), material_names.deep_view()) {
            Ok(vs) => r is Ok && rule_views(r->Ok_0@) == vs,
            Err(f) => r is Err && r->Err_0@ == f,
        },
{
    let mut out: Vec<SandRule> = Vec::new();
    let mut i: usize = 0;
    assert(rule_views(out@) =~= Seq::<RuleView>::empty());
    while i < rules.len()
        invariant
            i <= rules@.len(),
            rules_from(rules@.subrange(0, i as int), type_names.deep_view(), material_names.deep_view())
                == Ok::<Seq<RuleView>, Fault>(rule_views(out@)),
        decreases rules.len() - i,
    {
        assert(rules@.subrange(0, i + 1).drop_last() =~= rules@.subrange(0, i as int));
        match parse_rule(&rules[i].0, &rules[i].1, type_names, material_names) {
            Ok(rule) => {
                let ghost before = out@;
                out.push(rule);
                assert(rule_views(out@) =~= rule_views(before).push(rule@));
            },
            Err(e) => {
                proof {
                    lemma_rules_from_stops(rules@, type_names.deep_view(), material_names.deep_view(), i + 1);
                }
                return Err(e);
            },
        }
        i = i + 1;
    }
    assert(rules@.subrange(0, i as int) =~= rules@);
    Ok(out)
}

/// A precondition with one more clause: the first clause takes the place
/// of the empty text, later ones are joined with `||`; `None` stays `None`.
pub open spec fn extend(pre: Option<Seq<char>>, clause: Seq<char>) -> Option<Seq<char>> {
    match pre {
        None => None,
        Some(p) => if p.len() == 0 {
            Some(clause)
        } else {
            Some(p + " || "@ + clause)
        },
    }
}

/// A rule after a type or material named it: the rule named `name` gets
/// `clause` in its precondition, and is marked used where `set_used` holds.
pub open spec fn marked(r: RuleView, name: Seq<char>, clause: Seq<char>, set_used: bool) -> RuleView {
    if r.name == name {
        RuleView { used: r.used || set_used, precondition: extend(r.precondition, clause), ..r }
    } else {
        r
    }
}

pub open spec fn mark(rs: Seq<RuleView>, name: Seq<char>, clause: Seq<char>, set_used: bool) -> Seq<RuleView> {
    rs.map_values(|r: RuleView| marked(r, name, clause, set_used))
}

/// Whether a rule of that name is among `rs`.
pub open spec fn has_rule(rs: Seq<RuleView>, name: Seq<char>) -> bool {
    exists|k: int| 0 <= k < rs.len() && (#[trigger] rs[k]).name == name
}

fn extend_precondition(pre: &Option<String>, clause: &str) -> (r: Option<String>)
    ensures
        r.deep_view() == extend(pre.deep_view(), clause@),
{
    match pre {
        None => None,
        Some(p) => {
            if p.unicode_len() == 0 {
                Some(String::from_str(clause))
            } else {
                let mut t = String::from_str(p.as_str());
                t.append(" || ");
                t.append(clause);
                Some(t)
            }
        },
    }
}

/// Adds `clause` to the precondition of every rule named `name`, and marks
/// them used where `set_used` holds. Tells whether there was such a rule.
pub fn use_rule(rules: &mut Vec<SandRule>, name: &str, clause: &str, set_used: bool) -> (found: bool)
    ensures
        rule_views(final(rules)@) == mark(rule_views(old(rules)@), name@, clause@, set_used),
        found == has_rule(rule_views(old(rules)@), name@),
{
    let ghost start = rule_views(rules@);
    let mut found = false;
    let mut k: usize = 0;
    while k < rules.len()
        invariant
            k <= rules@.len(),
            start.len() == rules@.len(),
            forall|j: int| 0 <= j < k ==> rule_views(rules@)[j] == marked(start[j], name@, clause@, set_used),
            forall|j: int| k <= j < rules@.len() ==> rule_views(rules@)[j] == start[j],
            found == (exists|j: int| 0 <= j < k && start[j].name == name@),
        decreases rules@.len() - k,
    {
        let ghost prev = rules@;
        if same_text(rules[k].name.as_str(), name) {
            let np = extend_precondition(&rules[k].precondition, clause);
            let r = &mut rules[k];
            r.precondition = np;
            r.used = r.used || set_used;
            found = true;
        }
        assert(rule_views(rules@)[k as int] == marked(start[k as int], name@, clause@, set_used));
        assert forall|j: int| 0 <= j < k + 1 implies rule_views(rules@)[j] == marked(start[j], name@, clause@, set_used) by {
            if j < k {
                assert(rules@[j] == prev[j]);
                assert(rule_views(prev)[j] == marked(start[j], name@, clause@, set_used));
            }
        }
        assert forall|j: int| k + 1 <= j < rules@.len() implies rule_views(rules@)[j] == start[j] by {
            assert(rules@[j] == prev[j]);
            assert(rule_views(prev)[j] == start[j]);
        }
        k = k + 1;
    }
    assert(rule_views(rules@) =~= mark(start, name@, clause@, set_used));
    found
}

} // verus!
