//! The library's model of a parsed markup document: a tree of element and
//! text nodes. The rule evaluator reads the document only through this type.

use vstd::prelude::*;

verus! {

/// Mathematical model of an element.
#[verifier::ext_equal]
pub struct ElemV {
    pub tag: Seq<char>,
    pub attrs: Seq<(Seq<char>, Seq<char>)>,
    pub children: Seq<NodeV>,
}

/// Mathematical model of a node.
#[verifier::ext_equal]
pub enum NodeV {
    Elem(ElemV),
    Text(Seq<char>),
}

/// An element: tag name, attributes in document order, and child nodes.
#[derive(Debug)]
pub struct Elem {
    pub tag: String,
    pub attrs: Vec<(String, String)>,
    pub children: Vec<Node>,
}

/// A document node: an element or a run of character data.
#[derive(Debug)]
pub enum Node {
    Elem(Elem),
    Text(String),
}

/// View of an attribute list.
pub open spec fn attrs_view(a: Seq<(String, String)>) -> Seq<(Seq<char>, Seq<char>)> {
    Seq::new(a.len(), |i: int| (a[i].0@, a[i].1@))
}

pub open spec fn elem_view(e: Elem) -> ElemV
    decreases e,
{
    proof {
        assert(decreases_to!(e => e.children));
        assert(decreases_to!(e.children => e.children@));
    }
    ElemV { tag: e.tag@, attrs: attrs_view(e.attrs@), children: nodes_view(e.children@) }
}

pub open spec fn node_view(n: Node) -> NodeV
    decreases n,
{
    match n {
        Node::Elem(e) => NodeV::Elem(elem_view(e)),
        Node::Text(t) => NodeV::Text(t@),
    }
}

/// Views of a sequence of nodes, in order.
pub open spec fn nodes_view(s: Seq<Node>) -> Seq<NodeV>
    decreases s,
{
    if s.len() == 0 {
        Seq::empty()
    } else {
        nodes_view(s.drop_last()).push(node_view(s.last()))
    }
}

impl View for Elem {
    type V = ElemV;

    open spec fn view(&self) -> ElemV {
        elem_view(*self)
    }
}

impl View for Node {
    type V = NodeV;

    open spec fn view(&self) -> NodeV {
        node_view(*self)
    }
}

/// Pointwise reading of `nodes_view`.
pub proof fn lemma_nodes_view(s: Seq<Node>)
    ensures
        nodes_view(s).len() == s.len(),
        forall|i: int| 0 <= i < s.len() ==> nodes_view(s)[i] == node_view(#[trigger] s[i]),
    decreases s.len(),
{
    if s.len() > 0 {
        lemma_nodes_view(s.drop_last());
        assert forall|i: int| 0 <= i < s.len() implies nodes_view(s)[i] == node_view(
            #[trigger] s[i],
        ) by {
            if i < s.len() - 1 {
                assert(s.drop_last()[i] == s[i]);
            }
        }
    }
}

/// Two node sequences with pointwise equal views have equal view sequences.
pub proof fn lemma_nodes_view_eq(a: Seq<Node>, b: Seq<Node>)
    requires
        a.len() == b.len(),
        forall|i: int| 0 <= i < a.len() ==> node_view(#[trigger] a[i]) == node_view(b[i]),
    ensures
        nodes_view(a) == nodes_view(b),
{
    lemma_nodes_view(a);
    lemma_nodes_view(b);
    assert forall|i: int| 0 <= i < a.len() implies nodes_view(a)[i] == nodes_view(b)[i] by {
        assert(node_view(a[i]) == node_view(b[i]));
    }
    assert(nodes_view(a) =~= nodes_view(b));
}

/// Structural copy of an element; the copy has the same view.
#[verifier::loop_isolation(false)]
pub fn elem_clone(e: &Elem) -> (r: Elem)
    ensures
        r@ == e@,
    decreases *e,
{
    let tag = e.tag.clone();
    let mut attrs: Vec<(String, String)> = Vec::new();
    let mut i: usize = 0;
    while i < e.attrs.len()
        invariant
            0 <= i <= e.attrs@.len(),
            attrs@.len() == i,
            forall|q: int|
                0 <= q < i ==> (#[trigger] attrs@[q]).0@ == e.attrs@[q].0@ && attrs@[q].1@
                    == e.attrs@[q].1@,
        decreases e.attrs@.len() - i,
    {
        attrs.push((e.attrs[i].0.clone(), e.attrs[i].1.clone()));
        i = i + 1;
    }
    let mut children: Vec<Node> = Vec::new();
    let mut i: usize = 0;
    while i < e.children.len()
        invariant
            0 <= i <= e.children@.len(),
            children@.len() == i,
            forall|q: int|
                0 <= q < i ==> node_view(#[trigger] children@[q]) == node_view(e.children@[q]),
        decreases e.children@.len() - i,
    {
        let c = node_clone(&e.children[i]);
        children.push(c);
        i = i + 1;
    }
    let r = Elem { tag, attrs, children };
    proof {
        assert(attrs_view(r.attrs@) =~= attrs_view(e.attrs@));
        lemma_nodes_view_eq(r.children@, e.children@);
        assert(r@ =~= e@);
    }
    r
}

/// Structural copy of a node; the copy has the same view.
pub fn node_clone(n: &Node) -> (r: Node)
    ensures
        r@ == n@,
    decreases *n,
{
    match n {
        Node::Elem(e) => Node::Elem(elem_clone(e)),
        Node::Text(t) => Node::Text(t.clone()),
    }
}

/// The concatenated character data of a node, in document order.
pub open spec fn text_of_node(n: NodeV) -> Seq<char>
    decreases n,
{
    match n {
        NodeV::Elem(e) => {
            proof {
                assert(decreases_to!(n => e));
                assert(decreases_to!(e => e.children));
            }
            text_of_nodes(e.children)
        },
        NodeV::Text(t) => t,
    }
}

/// The concatenated character data of a node list, in document order.
pub open spec fn text_of_nodes(s: Seq<NodeV>) -> Seq<char>
    decreases s,
{
    if s.len() == 0 {
        Seq::empty()
    } else {
        text_of_nodes(s.drop_last()) + text_of_node(s.last())
    }
}

/// Append the character data of `n` to `out`.
#[verifier::loop_isolation(false)]
pub fn append_text_of_node(n: &Node, out: &mut String)
    ensures
        final(out)@ == old(out)@ + text_of_node(n@),
    decreases *n,
{
    match n {
        Node::Elem(e) => {
            append_text_of_nodes(&e.children, out);
        },
        Node::Text(t) => {
            out.append(t.as_str());
        },
    }
}

/// Append the character data of every node of `s`, in order, to `out`.
#[verifier::loop_isolation(false)]
pub fn append_text_of_nodes(s: &Vec<Node>, out: &mut String)
    ensures
        final(out)@ == old(out)@ + text_of_nodes(nodes_view(s@)),
    decreases s@,
{
    let ghost out0 = out@;
    let mut i: usize = 0;
    proof {
        lemma_nodes_view(s@);
    }
    while i < s.len()
        invariant
            0 <= i <= s@.len(),
            out@ == out0 + text_of_nodes(nodes_view(s@.subrange(0, i as int))),
        decreases s@.len() - i,
    {
        proof {
            assert(decreases_to!(s@ => s@[i as int]));
        }
        append_text_of_node(&s[i], out);
        proof {
            let t = s@.subrange(0, i + 1);
            assert(t.drop_last() =~= s@.subrange(0, i as int));
            assert(t.last() == s@[i as int]);
            assert(nodes_view(t).drop_last() =~= nodes_view(t.drop_last()));
            assert(nodes_view(t).last() == node_view(t.last()));
            assert(text_of_nodes(nodes_view(t)) == text_of_nodes(nodes_view(t).drop_last())
                + text_of_node(nodes_view(t).last()));
        }
        i = i + 1;
    }
    proof {
        assert(s@.subrange(0, i as int) =~= s@);
    }
}

/// The whole character data of a node, trimmed, as the `Text` extraction
/// kind reads it.
pub fn text_content(n: &Node) -> (r: String)
    ensures
        r@ == crate::text::trim_spec(text_of_node(n@)),
{
    let mut out = String::new();
    append_text_of_node(n, &mut out);
    crate::text::trim_str(out.as_str())
}

/// Serialized form of an attribute list: one leading space before each
/// `name="value"` pair.
pub open spec fn ser_attrs(a: Seq<(Seq<char>, Seq<char>)>) -> Seq<char>
    decreases a,
{
    if a.len() == 0 {
        Seq::empty()
    } else {
        ser_attrs(a.drop_last()) + seq![' '] + a.last().0 + seq!['=', '"'] + a.last().1 + seq!['"']
    }
}

/// Serialized form of a node: character data as it stands; an element as
/// `<tag attrs>children</tag>`.
pub open spec fn ser_node(n: NodeV) -> Seq<char>
    decreases n,
{
    match n {
        NodeV::Elem(e) => {
            proof {
                assert(decreases_to!(n => e));
                assert(decreases_to!(e => e.children));
            }
            seq!['<'] + e.tag + ser_attrs(e.attrs) + seq!['>'] + ser_nodes(e.children) + seq![
                '<',
                '/',
            ] + e.tag + seq!['>']
        },
        NodeV::Text(t) => t,
    }
}

/// Serialized form of a node list, in order.
pub open spec fn ser_nodes(s: Seq<NodeV>) -> Seq<char>
    decreases s,
{
    if s.len() == 0 {
        Seq::empty()
    } else {
        ser_nodes(s.drop_last()) + ser_node(s.last())
    }
}

/// Append the serialized form of the attributes to `out`.
#[verifier::loop_isolation(false)]
fn append_ser_attrs(a: &Vec<(String, String)>, out: &mut String)
    ensures
        final(out)@ == old(out)@ + ser_attrs(attrs_view(a@)),
{
    let ghost out0 = out@;
    let mut i: usize = 0;
    while i < a.len()
        invariant
            0 <= i <= a@.len(),
            out@ == out0 + ser_attrs(attrs_view(a@.subrange(0, i as int))),
        decreases a@.len() - i,
    {
        out.append(" ");
        out.append(a[i].0.as_str());
        out.append("=\"");
        out.append(a[i].1.as_str());
        out.append("\"");
        proof {
            reveal_strlit(" ");
            reveal_strlit("=\"");
            reveal_strlit("\"");
            assert(attrs_view(a@.subrange(0, i + 1)).drop_last() =~= attrs_view(
                a@.subrange(0, i as int),
            ));
            assert(attrs_view(a@.subrange(0, i + 1)).last() == (a@[i as int].0@, a@[i as int].1@));
            assert(out@ =~= out0 + ser_attrs(attrs_view(a@.subrange(0, i + 1))));
        }
        i = i + 1;
    }
    proof {
        assert(a@.subrange(0, i as int) =~= a@);
    }
}

/// Append the serialized form of `n` to `out`.
#[verifier::loop_isolation(false)]
pub fn append_ser_node(n: &Node, out: &mut String)
    ensures
        final(out)@ == old(out)@ + ser_node(n@),
    decreases *n,
{
    match n {
        Node::Elem(e) => {
            let ghost out0 = out@;
            out.append("<");
            out.append(e.tag.as_str());
            append_ser_attrs(&e.attrs, out);
            out.append(">");
            append_ser_nodes(&e.children, out);
            out.append("</");
            out.append(e.tag.as_str());
            out.append(">");
            proof {
                reveal_strlit("<");
                reveal_strlit(">");
                reveal_strlit("</");
                assert(final(out)@ =~= out0 + ser_node(n@));
            }
        },
        Node::Text(t) => {
            out.append(t.as_str());
        },
    }
}

/// Append the serialized form of every node of `s`, in order, to `out`.
#[verifier::loop_isolation(false)]
pub fn append_ser_nodes(s: &Vec<Node>, out: &mut String)
    ensures
        final(out)@ == old(out)@ + ser_nodes(nodes_view(s@)),
    decreases s@,
{
    let ghost out0 = out@;
    let mut i: usize = 0;
    proof {
        lemma_nodes_view(s@);
    }
    while i < s.len()
        invariant
            0 <= i <= s@.len(),
            out@ == out0 + ser_nodes(nodes_view(s@.subrange(0, i as int))),
        decreases s@.len() - i,
    {
        proof {
            assert(decreases_to!(s@ => s@[i as int]));
        }
        append_ser_node(&s[i], out);
        proof {
            let t = s@.subrange(0, i + 1);
            assert(t.drop_last() =~= s@.subrange(0, i as int));
            assert(t.last() == s@[i as int]);
            assert(nodes_view(t).drop_last() =~= nodes_view(t.drop_last()));
            assert(nodes_view(t).last() == node_view(t.last()));
            assert(ser_nodes(nodes_view(t)) == ser_nodes(nodes_view(t).drop_last()) + ser_node(
                nodes_view(t).last(),
            ));
        }
        i = i + 1;
    }
    proof {
        assert(s@.subrange(0, i as int) =~= s@);
    }
}

/// The serialized inner markup of an element: its children, in order.
pub fn inner_markup(e: &Elem) -> (r: String)
    ensures
        r@ == ser_nodes(e@.children),
{
    let mut out = String::new();
    append_ser_nodes(&e.children, &mut out);
    proof {
        assert(e@.children == nodes_view(e.children@));
    }
    out
}

/// First attribute with the given name, if any.
pub open spec fn attr_index(a: Seq<(Seq<char>, Seq<char>)>, k: Seq<char>) -> int
    decreases a.len(),
{
    if a.len() == 0 {
        0
    } else if a[0].0 == k {
        0
    } else {
        1 + attr_index(a.drop_first(), k)
    }
}

/// The value of the first attribute named `k`, if any.
pub open spec fn attr_of(a: Seq<(Seq<char>, Seq<char>)>, k: Seq<char>) -> Option<Seq<char>> {
    if attr_index(a, k) < a.len() {
        Some(a[attr_index(a, k)].1)
    } else {
        None
    }
}

pub proof fn lemma_attr_index_bounds(a: Seq<(Seq<char>, Seq<char>)>, k: Seq<char>)
    ensures
        0 <= attr_index(a, k) <= a.len(),
        forall|j: int| 0 <= j < attr_index(a, k) ==> (#[trigger] a[j]).0 != k,
        attr_index(a, k) < a.len() ==> a[attr_index(a, k)].0 == k,
    decreases a.len(),
{
    if a.len() > 0 && a[0].0 != k {
        lemma_attr_index_bounds(a.drop_first(), k);
        assert forall|j: int| 0 <= j < attr_index(a, k) implies (#[trigger] a[j]).0 != k by {
            if j > 0 {
                assert(a.drop_first()[j - 1] == a[j]);
            }
        }
        if attr_index(a, k) < a.len() {
            assert(a.drop_first()[attr_index(a.drop_first(), k)] == a[attr_index(a, k)]);
        }
    }
}

/// Look up the first attribute named `k` on the element.
#[verifier::loop_isolation(false)]
pub fn get_attr<'a>(e: &'a Elem, k: &str) -> (r: Option<&'a String>)
    ensures
        match r {
            Some(v) => attr_of(e@.attrs, k@) == Some(v@),
            None => attr_of(e@.attrs, k@) is None,
        },
{
    proof {
        lemma_attr_index_bounds(e@.attrs, k@);
    }
    let mut i: usize = 0;
    while i < e.attrs.len()
        invariant
            0 <= i <= e.attrs@.len(),
            forall|j: int| 0 <= j < i ==> (#[trigger] e.attrs@[j]).0@ != k@,
            i <= attr_index(e@.attrs, k@),
        decreases e.attrs@.len() - i,
    {
        if crate::text::str_eq(e.attrs[i].0.as_str(), k) {
            proof {
                assert(e@.attrs[i as int].0 == e.attrs@[i as int].0@);
                assert(attr_index(e@.attrs, k@) == i);
            }
            return Some(&e.attrs[i].1);
        }
        proof {
            assert(e@.attrs[i as int].0 == e.attrs@[i as int].0@);
            if attr_index(e@.attrs, k@) == i {
                assert(e@.attrs[i as int].0 == k@);
            }
        }
        i = i + 1;
    }
    None
}

} // verus!
