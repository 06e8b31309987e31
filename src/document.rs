use vstd::prelude::*;

verus! {

/// A number as the document writes it: a non-negative integer, a negative
/// integer, or a binary64 floating-point value held as its IEEE-754 bit pattern.
#[derive(Clone, Copy, PartialEq, Eq, Debug, Structural)]
pub enum Numeric {
    PosInt(u64),
    NegInt(i64),
    Float(u64),
}

/// A number together with the text in which the document reader writes it
/// back, which is the text the generated shader uses for it.
#[derive(Debug)]
pub struct Scalar {
    pub value: Numeric,
    pub text: String,
}

pub struct ScalarView {
    pub value: Numeric,
    pub text: Seq<char>,
}

impl View for Scalar {
    type V = ScalarView;

    open spec fn view(&self) -> ScalarView {
        ScalarView { value: self.value, text: self.text@ }
    }
}

/// A copy of a number.
pub fn copy_scalar(s: &Scalar) -> (r: Scalar)
    ensures
        r@ == s@,
{
    Scalar { value: s.value, text: String::from_str(s.text.as_str()) }
}

/// A number written as `text`.
pub fn scalar(value: Numeric, text: &str) -> (r: Scalar)
    ensures
        r@ == (ScalarView { value, text: text@ }),
{
    Scalar { value, text: String::from_str(text) }
}

/// One node of a parsed document tree. Mappings keep their entries in the
/// order in which the document writes them.
#[derive(Debug)]
pub enum Node {
    Null,
    Bool(bool),
    Num(Scalar),
    Str(String),
    List(Vec<Node>),
    Mapping(Vec<(Node, Node)>),
}

/// Whether a mapping entry's key is the string `key`.
pub open spec fn key_is(entry: (Node, Node), key: Seq<char>) -> bool {
    match entry.0 {
        Node::Str(k) => k@ == key,
        _ => false,
    }
}

/// Index of the first entry at or after `i` whose key is `key`.
pub open spec fn key_index_from(entries: Seq<(Node, Node)>, key: Seq<char>, i: int) -> Option<int>
    decreases entries.len() - i,
{
    if i < 0 || i >= entries.len() {
        None
    } else if key_is(entries[i], key) {
        Some(i)
    } else {
        key_index_from(entries, key, i + 1)
    }
}

/// The value stored under the string key `key`, when `n` is a mapping that has one.
pub open spec fn lookup(n: Node, key: Seq<char>) -> Option<Node> {
    match n {
        Node::Mapping(entries) => match key_index_from(entries@, key, 0) {
            Some(i) => Some(entries@[i].1),
            None => None,
        },
        _ => None,
    }
}

pub proof fn lemma_key_index_from_bounds(entries: Seq<(Node, Node)>, key: Seq<char>, i: int)
    ensures
        key_index_from(entries, key, i) matches Some(j) ==> i <= j < entries.len() && key_is(
            entries[j],
            key,
        ),
    decreases entries.len() - i,
{
    if 0 <= i < entries.len() && !key_is(entries[i], key) {
        lemma_key_index_from_bounds(entries, key, i + 1);
    }
}

pub proof fn lemma_lookup_decreases(n: Node, key: Seq<char>)
    requires
        lookup(n, key) is Some,
    ensures
        decreases_to!(n => lookup(n, key)->Some_0),
{
    match n {
        Node::Mapping(entries) => {
            let i = key_index_from(entries@, key, 0)->Some_0;
            lemma_key_index_from_bounds(entries@, key, 0);
            assert(decreases_to!(entries => entries@));
            assert(decreases_to!(entries@ => entries@[i]));
            assert(decreases_to!(entries@[i] => entries@[i].1));
            assert(decreases_to!(n => entries));
        },
        _ => {},
    }
}

/// Bit pattern of the binary64 value 1.0.
pub const ONE_BITS: u64 = 0x3FF0_0000_0000_0000;

/// Bit pattern of the binary64 value -0.0.
pub const NEG_ZERO_BITS: u64 = 0x8000_0000_0000_0000;

/// Whether a number lies in the closed interval from 0 to 1. For a
/// binary64 value with the sign bit clear, the order of bit patterns is the
/// order of values, and patterns above that of 1.0 are larger numbers,
/// infinity or NaN.
pub open spec fn is_unit(n: Numeric) -> bool {
    match n {
        Numeric::PosInt(k) => k <= 1,
        Numeric::NegInt(_) => false,
        Numeric::Float(b) => b <= ONE_BITS || b == NEG_ZERO_BITS,
    }
}

/// Whether a number equals 1.
pub open spec fn is_one(n: Numeric) -> bool {
    n == Numeric::PosInt(1) || n == Numeric::Float(ONE_BITS)
}

pub fn is_unit_exec(n: Numeric) -> (r: bool)
    ensures
        r == is_unit(n),
{
    match n {
        Numeric::PosInt(k) => k <= 1,
        Numeric::NegInt(_) => false,
        Numeric::Float(b) => b <= ONE_BITS || b == NEG_ZERO_BITS,
    }
}

pub fn is_one_exec(n: Numeric) -> (r: bool)
    ensures
        r == is_one(n),
{
    match n {
        Numeric::PosInt(k) => k == 1,
        Numeric::NegInt(_) => false,
        Numeric::Float(b) => b == ONE_BITS,
    }
}

/// Whether `a` and `b` hold the same characters.
pub fn same_text(a: &str, b: &str) -> (r: bool)
    ensures
        r == (a@ == b@),
{
    let n = a.unicode_len();
    if n != b.unicode_len() {
        return false;
    }
    let mut i: usize = 0;
    while i < n
        invariant
            n == a@.len() == b@.len(),
            i <= n,
            a@.subrange(0, i as int) == b@.subrange(0, i as int),
        decreases n - i,
    {
        if a.get_char(i) != b.get_char(i) {
            assert(a@[i as int] != b@[i as int]);
            return false;
        }
        assert(a@.subrange(0, i + 1) =~= a@.subrange(0, i as int).push(a@[i as int]));
        assert(b@.subrange(0, i + 1) =~= b@.subrange(0, i as int).push(b@[i as int]));
        i = i + 1;
    }
    assert(a@ =~= a@.subrange(0, n as int));
    assert(b@ =~= b@.subrange(0, n as int));
    true
}

/// The value under the string key `key` of a mapping node; `None` for a
/// missing key or a node that is no mapping.
pub fn get<'a>(n: &'a Node, key: &str) -> (r: Option<&'a Node>)
    ensures
        r is Some == lookup(*n, key@) is Some,
        r is Some ==> lookup(*n, key@) == Some(*r->Some_0),
{
    match n {
        Node::Mapping(entries) => {
            let mut i: usize = 0;
            while i < entries.len()
                invariant
                    *n == Node::Mapping(*entries),
                    i <= entries@.len(),
                    key_index_from(entries@, key@, 0) == key_index_from(entries@, key@, i as int),
                decreases entries.len() - i,
            {
                let found = match &entries[i].0 {
                    Node::Str(k) => same_text(k.as_str(), key),
                    _ => false,
                };
                assert(found == key_is(entries@[i as int], key@));
                if found {
                    return Some(&entries[i].1);
                }
                i = i + 1;
            }
            None
        },
        _ => None,
    }
}

#[verifier::external_type_specification]
#[verifier::external_body]
pub struct ExYamlError(serde_yaml::Error);

#[verifier::external_type_specification]
#[verifier::external_body]
pub struct ExYamlValue(serde_yaml::Value);

#[verifier::external_type_specification]
#[verifier::external_body]
pub struct ExYamlNumber(serde_yaml::Number);

/// The tree that serde_yaml reads from a YAML text, or `None` where it
/// reports the text as malformed.
pub uninterp spec fn yaml_tree(text: Seq<char>) -> Option<Node>;

/// Relies on serde_yaml::from_str, read into a serde_yaml::Value: the result
/// depends on the text alone, and an error comes exactly when it finds no tree.
#[verifier::external_body]
pub(crate) fn read_yaml(text: &str) -> (r: Result<Node, serde_yaml::Error>)
    ensures
        r is Ok <==> yaml_tree(text@) is Some,
        r is Ok ==> yaml_tree(text@) == Some(r->Ok_0),
{
    serde_yaml::from_str::<serde_yaml::Value>(text).map(node_of)
}

/// Converts a serde_yaml::Value, variant by variant, into a `Node`; a tagged
/// value becomes the value under its tag, as serde_yaml's accessors read it.
#[verifier::external_body]
fn node_of(v: serde_yaml::Value) -> Node {
    match v {
        serde_yaml::Value::Null => Node::Null,
        serde_yaml::Value::Bool(b) => Node::Bool(b),
        serde_yaml::Value::Number(n) => Node::Num(number_of(&n)),
        serde_yaml::Value::String(s) => Node::Str(s),
        serde_yaml::Value::Sequence(items) => Node::List(items.into_iter().map(node_of).collect()),
        serde_yaml::Value::Mapping(m) => Node::Mapping(
            m.into_iter().map(|(k, v)| (node_of(k), node_of(v))).collect(),
        ),
        serde_yaml::Value::Tagged(t) => node_of(t.value),
    }
}

/// Converts a serde_yaml::Number through its accessors: `as_u64` holds for a
/// non-negative integer, `as_i64` then for a negative one, and a float gives
/// its bit pattern; the text is the number's `Display`.
#[verifier::external_body]
fn number_of(n: &serde_yaml::Number) -> Scalar {
    let value = match n.as_u64() {
        Some(u) => Numeric::PosInt(u),
        None => match n.as_i64() {
            Some(i) => Numeric::NegInt(i),
            None => Numeric::Float(n.as_f64().unwrap_or_default().to_bits()),
        },
    };
    Scalar { value, text: n.to_string() }
}

} // verus!
