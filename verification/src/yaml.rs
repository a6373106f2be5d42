//! The boundary to the YAML parser. A parsed document is handed over as
//! a [`YamlNode`] tree of plain values — strings, lists and mappings are
//! all the corpus formats use, and every other scalar reads as `Other` —
//! so the loaders walk it in verified code. What tree a document denotes
//! is a function of its text alone, named `yaml_doc_of`.

use vstd::prelude::*;

verus! {

broadcast use
    vstd::std_specs::vec::group_vec_axioms,
    vstd::seq::axiom_seq_index_decreases,
    vstd::seq::axiom_seq_subrange_decreases;

#[verifier::external_type_specification]
#[verifier::external_body]
pub struct ExYamlValue(serde_yaml::Value);

/// The mathematical shadow of a [`YamlNode`].
pub ghost enum YamlNodeV {
    Str(Seq<char>),
    List(Seq<YamlNodeV>),
    Mapping(Seq<(YamlNodeV, YamlNodeV)>),
    Other,
}

/// A parsed YAML document, reduced to what the corpus formats
/// distinguish: a string scalar, a sequence, a mapping in document
/// order, or any other value.
pub enum YamlNode {
    Str(String),
    List(Vec<YamlNode>),
    Mapping(Vec<(YamlNode, YamlNode)>),
    Other,
}

/// The shadow of one node.
pub open spec fn node_view(n: YamlNode) -> YamlNodeV
    decreases n,
    via node_view_decreases
{
    match n {
        YamlNode::Str(s) => YamlNodeV::Str(s@),
        YamlNode::List(v) => YamlNodeV::List(nodes_view(v@)),
        YamlNode::Mapping(v) => YamlNodeV::Mapping(pairs_view(v@)),
        YamlNode::Other => YamlNodeV::Other,
    }
}

/// The shadows of a sequence of nodes, in order.
pub open spec fn nodes_view(s: Seq<YamlNode>) -> Seq<YamlNodeV>
    decreases s,
    via nodes_view_decreases
{
    if s.len() == 0 {
        Seq::empty()
    } else {
        seq![node_view(s.first())] + nodes_view(s.drop_first())
    }
}

/// The shadows of a sequence of key/value pairs, in order.
pub open spec fn pairs_view(s: Seq<(YamlNode, YamlNode)>) -> Seq<(YamlNodeV, YamlNodeV)>
    decreases s,
    via pairs_view_decreases
{
    if s.len() == 0 {
        Seq::empty()
    } else {
        seq![(node_view(s.first().0), node_view(s.first().1))] + pairs_view(s.drop_first())
    }
}

#[via_fn]
proof fn node_view_decreases(n: YamlNode) {
    match n {
        YamlNode::List(v) => {
            assert(decreases_to!(n => v));
            assert(decreases_to!(v => v@));
        },
        YamlNode::Mapping(v) => {
            assert(decreases_to!(n => v));
            assert(decreases_to!(v => v@));
        },
        _ => {},
    }
}

#[via_fn]
proof fn nodes_view_decreases(s: Seq<YamlNode>) {
    if s.len() > 0 {
        assert(decreases_to!(s => s[0]));
        assert(decreases_to!(s => s.subrange(1, s.len() as int)));
    }
}

#[via_fn]
proof fn pairs_view_decreases(s: Seq<(YamlNode, YamlNode)>) {
    if s.len() > 0 {
        assert(decreases_to!(s => s[0]));
        assert(decreases_to!(s[0] => s[0].0));
        assert(decreases_to!(s[0] => s[0].1));
        assert(decreases_to!(s => s.subrange(1, s.len() as int)));
    }
}

impl View for YamlNode {
    type V = YamlNodeV;

    open spec fn view(&self) -> YamlNodeV {
        node_view(*self)
    }
}

impl DeepView for YamlNode {
    type V = YamlNodeV;

    open spec fn deep_view(&self) -> YamlNodeV {
        self.view()
    }
}

/// A node list's shadow is the pointwise shadow of its elements.
pub proof fn lemma_nodes_view_is(s: Seq<YamlNode>)
    ensures
        nodes_view(s).len() == s.len(),
        forall|i: int| 0 <= i < s.len() ==> nodes_view(s)[i] == node_view(#[trigger] s[i]),
    decreases s.len(),
{
    if s.len() > 0 {
        lemma_nodes_view_is(s.drop_first());
        assert forall|i: int| 0 <= i < s.len() implies nodes_view(s)[i] == node_view(
            #[trigger] s[i],
        ) by {
            if i > 0 {
                assert(s.drop_first()[i - 1] == s[i]);
                assert(nodes_view(s)[i] == nodes_view(s.drop_first())[i - 1]);
            }
        }
    }
}

/// A pair list's shadow is the pointwise shadow of its entries.
pub proof fn lemma_pairs_view_is(s: Seq<(YamlNode, YamlNode)>)
    ensures
        pairs_view(s).len() == s.len(),
        forall|i: int|
            0 <= i < s.len() ==> pairs_view(s)[i] == (
                node_view(#[trigger] s[i].0),
                node_view(s[i].1),
            ),
    decreases s.len(),
{
    if s.len() > 0 {
        lemma_pairs_view_is(s.drop_first());
        assert forall|i: int| 0 <= i < s.len() implies pairs_view(s)[i] == (
            node_view(#[trigger] s[i].0),
            node_view(s[i].1),
        ) by {
            if i > 0 {
                assert(s.drop_first()[i - 1] == s[i]);
                assert(pairs_view(s)[i] == pairs_view(s.drop_first())[i - 1]);
            }
        }
    }
}

/// A node vector's deep view is its element-wise shadow.
pub proof fn lemma_nodes_deep_view(v: &Vec<YamlNode>)
    ensures
        v.deep_view() == nodes_view(v@),
{
    lemma_nodes_view_is(v@);
    assert(v.deep_view() =~~= nodes_view(v@));
}

/// A pair vector's deep view is its entry-wise shadow.
pub proof fn lemma_pairs_deep_view(v: &Vec<(YamlNode, YamlNode)>)
    ensures
        v.deep_view() == pairs_view(v@),
{
    lemma_pairs_view_is(v@);
    assert(v.deep_view() =~~= pairs_view(v@));
}

/// The tree a YAML document denotes, when the parser accepts it: a
/// function of the text alone.
pub uninterp spec fn yaml_doc_of(s: Seq<char>) -> Option<YamlNodeV>;

/// Relies on `serde_yaml::from_str::<Value>`: whether the document
/// parses, and the tree it denotes, depend on the text alone.
#[verifier::external_body]
pub fn parse_yaml_doc(s: &str) -> (r: Option<YamlNode>)
    ensures
        r.deep_view() == yaml_doc_of(s@),
{
    match serde_yaml::from_str::<serde_yaml::Value>(s) {
        Ok(v) => Some(node_of_value(&v)),
        Err(_) => None,
    }
}

/// Relies on the shape of `serde_yaml::Value`: rebuilds the parsed
/// document as a [`YamlNode`] tree, one arm per variant, converting
/// only; strings stay strings, sequences and mappings keep their order,
/// and every other scalar becomes `Other`.
#[verifier::external_body]
fn node_of_value(v: &serde_yaml::Value) -> YamlNode {
    match v {
        serde_yaml::Value::String(s) => YamlNode::Str(s.clone()),
        serde_yaml::Value::Sequence(xs) => YamlNode::List(xs.iter().map(node_of_value).collect()),
        serde_yaml::Value::Mapping(m) => YamlNode::Mapping(
            m.iter().map(|(k, val)| (node_of_value(k), node_of_value(val))).collect(),
        ),
        serde_yaml::Value::Null => YamlNode::Other,
        serde_yaml::Value::Bool(_) => YamlNode::Other,
        serde_yaml::Value::Number(_) => YamlNode::Other,
        serde_yaml::Value::Tagged(_) => YamlNode::Other,
    }
}

} // verus!
