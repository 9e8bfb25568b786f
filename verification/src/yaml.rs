//! The value model for decoded frontmatter, and the trusted decoder boundary.
//!
//! The frontmatter block is decoded by `serde_yaml`. Decoded values are
//! carried across the boundary in this crate's own shape: scalars as plain
//! values, one level of sequences and mappings, and everything deeper or
//! stranger collapsed to [`Node::Other`] / [`Val::Other`], which is all the
//! schema ever distinguishes.

use vstd::prelude::*;

verus! {

/// A scalar value of the block: string, number, boolean or null.
/// A number is carried as its canonical decimal rendering.
#[derive(Debug)]
pub enum Scalar {
    Str(String),
    Num(String),
    Bool(bool),
    Null,
}

/// Ghost image of [`Scalar`].
pub enum ScalarV {
    Str(Seq<char>),
    Num(Seq<char>),
    Bool(bool),
    Null,
}

impl View for Scalar {
    type V = ScalarV;

    open spec fn view(&self) -> ScalarV {
        match self {
            Scalar::Str(s) => ScalarV::Str(s@),
            Scalar::Num(s) => ScalarV::Num(s@),
            Scalar::Bool(b) => ScalarV::Bool(*b),
            Scalar::Null => ScalarV::Null,
        }
    }
}

/// An element one level inside a field value: a scalar, or anything deeper.
#[derive(Debug)]
pub enum Node {
    Scalar(Scalar),
    Other,
}

/// Ghost image of [`Node`].
pub enum NodeV {
    Scalar(ScalarV),
    Other,
}

impl View for Node {
    type V = NodeV;

    open spec fn view(&self) -> NodeV {
        match self {
            Node::Scalar(s) => NodeV::Scalar(s@),
            Node::Other => NodeV::Other,
        }
    }
}

/// The value of one top-level field.
#[derive(Debug)]
pub enum Val {
    Scalar(Scalar),
    List(Vec<Node>),
    Mapping(Vec<(Node, Node)>),
    Other,
}

/// Ghost image of [`Val`].
pub enum ValV {
    Scalar(ScalarV),
    List(Seq<NodeV>),
    Mapping(Seq<(NodeV, NodeV)>),
    Other,
}

/// The view of a node list.
pub open spec fn nodes_view(s: Seq<Node>) -> Seq<NodeV> {
    s.map_values(|n: Node| n@)
}

/// The view of a node pair list.
pub open spec fn node_pairs_view(s: Seq<(Node, Node)>) -> Seq<(NodeV, NodeV)> {
    s.map_values(|p: (Node, Node)| (p.0@, p.1@))
}

/// The view of a decoded entry list.
pub open spec fn doc_pairs_view(s: Seq<(Node, Val)>) -> Seq<(NodeV, ValV)> {
    s.map_values(|p: (Node, Val)| (p.0@, p.1@))
}

impl View for Val {
    type V = ValV;

    open spec fn view(&self) -> ValV {
        match self {
            Val::Scalar(s) => ValV::Scalar(s@),
            Val::List(v) => ValV::List(nodes_view(v@)),
            Val::Mapping(m) => ValV::Mapping(node_pairs_view(m@)),
            Val::Other => ValV::Other,
        }
    }
}

#[verifier::external_type_specification]
#[verifier::external_body]
pub struct ExYamlValue(serde_yaml::Value);

/// What the decoder produced for a whole block.
#[derive(Debug)]
pub enum Decoded {
    /// A mapping: its entries in document order.
    Mapping(Vec<(Node, Val)>),
    /// A well-formed document whose top level is not a mapping.
    NotMapping,
}

/// Ghost image of [`Decoded`], with decode failure folded in.
pub enum DecodeOutV {
    Mapping(Seq<(NodeV, ValV)>),
    NotMapping,
    Error(Seq<char>),
}

/// The view of the decoder wrapper's result.
pub open spec fn decode_result_view(r: Result<Decoded, String>) -> DecodeOutV {
    match r {
        Ok(Decoded::Mapping(m)) => DecodeOutV::Mapping(doc_pairs_view(m@)),
        Ok(Decoded::NotMapping) => DecodeOutV::NotMapping,
        Err(e) => DecodeOutV::Error(e@),
    }
}

/// What decoding a block yields: a function of the block text alone.
pub uninterp spec fn yaml_decode_spec(s: Seq<char>) -> DecodeOutV;

/// Decode a frontmatter block.
///
/// Relies on `serde_yaml::from_str::<serde_yaml::Value>`: deterministic in
/// the input text; yields a mapping, some other document, or an error whose
/// message is carried through.
#[verifier::external_body]
pub(crate) fn yaml_decode(text: &str) -> (r: Result<Decoded, String>)
    ensures
        decode_result_view(r) == yaml_decode_spec(text@),
{
    match serde_yaml::from_str::<serde_yaml::Value>(text) {
        Err(e) => Err(e.to_string()),
        Ok(serde_yaml::Value::Mapping(m)) => Ok(Decoded::Mapping(
            m.iter().map(|(k, v)| (conv_node(k), conv_val(v))).collect(),
        )),
        Ok(_) => Ok(Decoded::NotMapping),
    }
}

/// Carry one decoded value across the boundary as a scalar or `Other`.
///
/// Relies on `serde_yaml::Value`'s variants; a number is rendered by its
/// `Display` impl, which prints the canonical decimal form.
#[verifier::external_body]
fn conv_node(v: &serde_yaml::Value) -> Node {
    match v {
        serde_yaml::Value::Null => Node::Scalar(Scalar::Null),
        serde_yaml::Value::Bool(b) => Node::Scalar(Scalar::Bool(*b)),
        serde_yaml::Value::Number(n) => Node::Scalar(Scalar::Num(n.to_string())),
        serde_yaml::Value::String(s) => Node::Scalar(Scalar::Str(s.clone())),
        _ => Node::Other,
    }
}

/// Carry one top-level field value across the boundary, keeping one level
/// of sequence or mapping structure.
///
/// Relies on `serde_yaml::Value`'s variants and on
/// `serde_yaml::Mapping::iter` yielding entries in document order.
#[verifier::external_body]
fn conv_val(v: &serde_yaml::Value) -> Val {
    match v {
        serde_yaml::Value::Sequence(xs) => Val::List(xs.iter().map(conv_node).collect()),
        serde_yaml::Value::Mapping(m) => Val::Mapping(
            m.iter().map(|(k, w)| (conv_node(k), conv_node(w))).collect(),
        ),
        serde_yaml::Value::Tagged(_) => Val::Other,
        other => match conv_node(other) {
            Node::Scalar(s) => Val::Scalar(s),
            Node::Other => Val::Other,
        },
    }
}

/// Equality of scalars, by value.
pub fn scalar_eq(a: &Scalar, b: &Scalar) -> (r: bool)
    ensures
        r == (a@ == b@),
{
    match (a, b) {
        (Scalar::Str(x), Scalar::Str(y)) => x.eq(y),
        (Scalar::Num(x), Scalar::Num(y)) => x.eq(y),
        (Scalar::Bool(x), Scalar::Bool(y)) => *x == *y,
        (Scalar::Null, Scalar::Null) => true,
        _ => false,
    }
}

/// Equality of nodes, by value.
pub fn node_eq(a: &Node, b: &Node) -> (r: bool)
    ensures
        r == (a@ == b@),
{
    match (a, b) {
        (Node::Scalar(x), Node::Scalar(y)) => scalar_eq(x, y),
        (Node::Other, Node::Other) => true,
        _ => false,
    }
}

/// Equality of two pair lists, by value.
pub fn pairs_eq(a: &Vec<(Node, Node)>, b: &Vec<(Node, Node)>) -> (r: bool)
    ensures
        r == (node_pairs_view(a@) == node_pairs_view(b@)),
{
    let ghost av = node_pairs_view(a@);
    let ghost bv = node_pairs_view(b@);
    proof {
        assert(av.len() == a@.len());
        assert(bv.len() == b@.len());
    }
    if a.len() != b.len() {
        return false;
    }
    let mut i: usize = 0;
    while i < a.len()
        invariant
            a@.len() == b@.len(),
            0 <= i <= a@.len(),
            av == node_pairs_view(a@),
            bv == node_pairs_view(b@),
            forall|j: int| 0 <= j < i ==> av[j] == bv[j],
        decreases a.len() - i,
    {
        let ka = &a[i].0;
        let kb = &b[i].0;
        let va = &a[i].1;
        let vb = &b[i].1;
        if !node_eq(ka, kb) || !node_eq(va, vb) {
            proof {
                assert(av[i as int] == (a@[i as int].0@, a@[i as int].1@));
                assert(bv[i as int] == (b@[i as int].0@, b@[i as int].1@));
            }
            return false;
        }
        proof {
            assert(av[i as int] == (a@[i as int].0@, a@[i as int].1@));
            assert(bv[i as int] == (b@[i as int].0@, b@[i as int].1@));
        }
        i = i + 1;
    }
    proof {
        assert(av =~= bv);
    }
    true
}

} // verus!
