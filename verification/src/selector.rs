//! Element selectors and the matching engine.
//!
//! A selector is a sequence of simple selectors joined by descendant
//! relations; `select` walks the document tree in document order and yields
//! every element for which some chain of ancestors matches the earlier
//! steps and the element itself matches the last step.

use vstd::prelude::*;
use crate::dom::{Elem, ElemV, Node, NodeV, attr_of, elem_view, node_view, nodes_view,
    lemma_nodes_view, elem_clone};
use crate::text::contains_sub;

verus! {

/// Mathematical model of a simple selector.
#[verifier::ext_equal]
pub struct SimpleSelV {
    pub tag: Option<Seq<char>>,
    pub classes: Seq<Seq<char>>,
    pub attrs: Seq<(Seq<char>, Seq<char>)>,
    pub nth: Option<int>,
}

/// One step of a selector: an optional tag name, class requirements,
/// attribute-substring requirements, and an optional structural child
/// position (1-based).
#[derive(Debug)]
pub struct SimpleSel {
    pub tag: Option<String>,
    pub classes: Vec<String>,
    pub attrs: Vec<(String, String)>,
    pub nth: Option<usize>,
}

impl View for SimpleSel {
    type V = SimpleSelV;

    open spec fn view(&self) -> SimpleSelV {
        SimpleSelV {
            tag: match self.tag {
                Some(t) => Some(t@),
                None => None,
            },
            classes: Seq::new(self.classes@.len(), |i: int| self.classes@[i]@),
            attrs: Seq::new(self.attrs@.len(), |i: int| (self.attrs@[i].0@, self.attrs@[i].1@)),
            nth: match self.nth {
                Some(n) => Some(n as int),
                None => None,
            },
        }
    }
}

/// Views of the steps of a selector.
pub open spec fn steps_view(s: Seq<SimpleSel>) -> Seq<SimpleSelV> {
    Seq::new(s.len(), |i: int| s[i]@)
}

/// Views of a list of selected elements.
pub open spec fn elems_view(s: Seq<Elem>) -> Seq<ElemV> {
    Seq::new(s.len(), |i: int| elem_view(s[i]))
}

pub open spec fn class_attr_name() -> Seq<char> {
    seq!['c', 'l', 'a', 's', 's']
}

/// The class attribute, padded with one space on each side, contains the
/// class token padded the same way. This is the class-list idiom of the
/// rule language, with a single space as the separator.
pub open spec fn class_sel_matches(val: Seq<char>, c: Seq<char>) -> bool {
    contains_sub(seq![' '] + val + seq![' '], seq![' '] + c + seq![' '])
}

/// The element carries the class `c`.
pub open spec fn has_class(e: ElemV, c: Seq<char>) -> bool {
    match attr_of(e.attrs, class_attr_name()) {
        Some(val) => class_sel_matches(val, c),
        None => false,
    }
}

/// The element has an attribute `name` whose value contains `sub`.
pub open spec fn attr_contains(e: ElemV, name: Seq<char>, sub: Seq<char>) -> bool {
    match attr_of(e.attrs, name) {
        Some(val) => contains_sub(val, sub),
        None => false,
    }
}

/// The element, standing as the `pos`-th element child (1-based) of its
/// parent, matches the simple selector.
pub open spec fn simple_matches(e: ElemV, pos: int, s: SimpleSelV) -> bool {
    &&& (match s.tag {
        Some(t) => e.tag == t,
        None => true,
    })
    &&& (forall|q: int| 0 <= q < s.classes.len() ==> has_class(e, #[trigger] s.classes[q]))
    &&& (forall|q: int|
        0 <= q < s.attrs.len() ==> attr_contains(
            e,
            (#[trigger] s.attrs[q]).0,
            s.attrs[q].1,
        ))
    &&& (match s.nth {
        Some(k) => pos == k,
        None => true,
    })
}

/// Pad a string with one space on each side.
fn pad_spaces(s: &str) -> (r: String)
    ensures
        r@ == seq![' '] + s@ + seq![' '],
{
    let mut r = String::new();
    r.append(" ");
    r.append(s);
    r.append(" ");
    proof {
        reveal_strlit(" ");
        assert(r@ =~= seq![' '] + s@ + seq![' ']);
    }
    r
}

/// Whether the element carries the class `c`.
pub fn has_class_exec(e: &Elem, c: &str) -> (r: bool)
    ensures
        r == has_class(e@, c@),
{
    proof {
        reveal_strlit("class");
        assert("class"@ =~= class_attr_name());
    }
    match crate::dom::get_attr(e, "class") {
        Some(val) => {
            let pv = pad_spaces(val.as_str());
            let pc = pad_spaces(c);
            crate::text::contains_str(pv.as_str(), pc.as_str())
        },
        None => false,
    }
}

/// Whether the element matches the simple selector at position `pos`.
#[verifier::loop_isolation(false)]
pub fn simple_matches_exec(e: &Elem, pos: usize, s: &SimpleSel) -> (r: bool)
    ensures
        r == simple_matches(e@, pos as int, s@),
{
    match &s.tag {
        Some(t) => {
            if !crate::text::str_eq(e.tag.as_str(), t.as_str()) {
                return false;
            }
        },
        None => {},
    }
    let mut q: usize = 0;
    while q < s.classes.len()
        invariant
            0 <= q <= s.classes@.len(),
            forall|j: int| 0 <= j < q ==> has_class(e@, s@.classes[j]),
        decreases s.classes@.len() - q,
    {
        if !has_class_exec(e, s.classes[q].as_str()) {
            proof {
                assert(s@.classes[q as int] == s.classes@[q as int]@);
            }
            return false;
        }
        q = q + 1;
    }
    let mut q: usize = 0;
    while q < s.attrs.len()
        invariant
            0 <= q <= s.attrs@.len(),
            forall|j: int|
                0 <= j < q ==> attr_contains(e@, (#[trigger] s@.attrs[j]).0, s@.attrs[j].1),
        decreases s.attrs@.len() - q,
    {
        let found = match crate::dom::get_attr(e, s.attrs[q].0.as_str()) {
            Some(val) => crate::text::contains_str(val.as_str(), s.attrs[q].1.as_str()),
            None => false,
        };
        if !found {
            proof {
                assert(s@.attrs[q as int] == (s.attrs@[q as int].0@, s.attrs@[q as int].1@));
            }
            return false;
        }
        q = q + 1;
    }
    match s.nth {
        Some(k) => pos == k,
        None => true,
    }
}

/// The machine states added for the children of an element: for each state
/// whose step the element matches, the next step becomes active below it.
pub open spec fn added_states(
    states: Seq<usize>,
    e: ElemV,
    pos: int,
    steps: Seq<SimpleSelV>,
) -> Seq<usize>
    decreases states.len(),
{
    if states.len() == 0 {
        Seq::empty()
    } else {
        added_states(states.drop_last(), e, pos, steps) + (if states.last()
            < steps.len() && simple_matches(e, pos, steps[states.last() as int])
            && states.last() + 1 < steps.len() {
            seq![(states.last() + 1) as usize]
        } else {
            Seq::empty()
        })
    }
}

/// The element is yielded: the final step is active and the element
/// matches it.
pub open spec fn yields(e: ElemV, pos: int, steps: Seq<SimpleSelV>, states: Seq<usize>) -> bool {
    steps.len() > 0 && states.contains((steps.len() - 1) as usize) && simple_matches(
        e,
        pos,
        steps[steps.len() - 1],
    )
}

/// Elements selected under a single node; `pos` is the node's 1-based
/// element position among its siblings (unused for text).
pub open spec fn select_node_spec(
    n: NodeV,
    steps: Seq<SimpleSelV>,
    states: Seq<usize>,
    pos: int,
) -> Seq<ElemV>
    decreases n,
{
    match n {
        NodeV::Text(_) => Seq::empty(),
        NodeV::Elem(e) => {
            proof {
                assert(decreases_to!(n => e));
                assert(decreases_to!(e => e.children));
            }
            (if yields(e, pos, steps, states) {
                seq![e]
            } else {
                Seq::empty()
            }) + select_nodes_spec(
                e.children,
                steps,
                states + added_states(states, e, pos, steps),
                0,
            )
        },
    }
}

/// Elements selected under a node list, in document order; `pos` is the
/// number of element nodes already seen among the earlier siblings.
pub open spec fn select_nodes_spec(
    nodes: Seq<NodeV>,
    steps: Seq<SimpleSelV>,
    states: Seq<usize>,
    pos: int,
) -> Seq<ElemV>
    decreases nodes,
{
    if nodes.len() == 0 {
        Seq::empty()
    } else {
        let inc: int = if nodes[0] is Elem {
            1
        } else {
            0
        };
        select_node_spec(nodes[0], steps, states, pos + inc) + select_nodes_spec(
            nodes.drop_first(),
            steps,
            states,
            pos + inc,
        )
    }
}

/// All elements of the document matching the selector, in document order.
pub open spec fn select_spec(nodes: Seq<NodeV>, steps: Seq<SimpleSelV>) -> Seq<ElemV> {
    if steps.len() == 0 {
        Seq::empty()
    } else {
        select_nodes_spec(nodes, steps, seq![0usize], 0)
    }
}

/// Whether `x` is an active state.
fn states_contain(states: &Vec<usize>, x: usize) -> (r: bool)
    ensures
        r == states@.contains(x),
{
    let mut i: usize = 0;
    while i < states.len()
        invariant
            0 <= i <= states@.len(),
            forall|j: int| 0 <= j < i ==> states@[j] != x,
        decreases states@.len() - i,
    {
        if states[i] == x {
            return true;
        }
        i = i + 1;
    }
    false
}

#[verifier::loop_isolation(false)]
fn select_node_exec(
    n: &Node,
    steps: &Vec<SimpleSel>,
    states: &Vec<usize>,
    pos: usize,
    out: &mut Vec<Elem>,
)
    requires
        forall|q: int| 0 <= q < states@.len() ==> (#[trigger] states@[q]) < steps@.len(),
    ensures
        elems_view(final(out)@) == elems_view(old(out)@) + select_node_spec(
            n@,
            steps_view(steps@),
            states@,
            pos as int,
        ),
    decreases *n,
{
    let ghost out0 = out@;
    match n {
        Node::Text(_) => {
            proof {
                assert(elems_view(out@) =~= elems_view(out0) + select_node_spec(
                    n@,
                    steps_view(steps@),
                    states@,
                    pos as int,
                ));
            }
        },
        Node::Elem(e) => {
            let m = steps.len();
            if m > 0 && states_contain(states, m - 1) {
                if simple_matches_exec(e, pos, &steps[m - 1]) {
                    proof {
                        assert(steps_view(steps@)[m - 1] == steps@[m - 1]@);
                    }
                    let c = elem_clone(e);
                    out.push(c);
                }
            }
            proof {
                let spv = steps_view(steps@);
                if yields(e@, pos as int, spv, states@) {
                    assert(elems_view(out@) =~= elems_view(out0) + seq![e@]);
                } else {
                    assert(elems_view(out@) =~= elems_view(out0));
                }
            }
            // build the states for the children
            let mut child_states: Vec<usize> = Vec::new();
            let mut i: usize = 0;
            while i < states.len()
                invariant
                    0 <= i <= states@.len(),
                    child_states@ =~= states@.subrange(0, i as int),
                decreases states@.len() - i,
            {
                child_states.push(states[i]);
                proof {
                    assert(child_states@ =~= states@.subrange(0, i + 1));
                }
                i = i + 1;
            }
            proof {
                assert(states@.subrange(0, states@.len() as int) =~= states@);
                assert(child_states@ == states@);
            }
            let ghost spv = steps_view(steps@);
            let mut i: usize = 0;
            while i < states.len()
                invariant
                    0 <= i <= states@.len(),
                    forall|q: int|
                        0 <= q < child_states@.len() ==> (#[trigger] child_states@[q])
                            < steps@.len(),
                    child_states@ =~= states@ + added_states(
                        states@.subrange(0, i as int),
                        e@,
                        pos as int,
                        spv,
                    ),
                decreases states@.len() - i,
            {
                let sj = states[i];
                let matched = simple_matches_exec(e, pos, &steps[sj]);
                let ghost pre = states@.subrange(0, i as int);
                let ghost cur = states@.subrange(0, i + 1);
                proof {
                    assert(spv[sj as int] == steps@[sj as int]@);
                    assert(cur.drop_last() =~= pre);
                    assert(cur.last() == states@[i as int]);
                }
                if matched && sj + 1 < m {
                    child_states.push(sj + 1);
                }
                proof {
                    assert(added_states(cur, e@, pos as int, spv) == added_states(
                        pre,
                        e@,
                        pos as int,
                        spv,
                    ) + (if sj < steps@.len() && simple_matches(e@, pos as int, spv[sj as int])
                        && sj + 1 < steps@.len() {
                        seq![(sj + 1) as usize]
                    } else {
                        Seq::<usize>::empty()
                    }));
                    assert(child_states@ =~= states@ + added_states(cur, e@, pos as int, spv));
                }
                i = i + 1;
            }
            proof {
                assert(states@.subrange(0, states@.len() as int) =~= states@);
            }
            // establishes the length bound the recursive walk requires
            let _children_len = e.children.len();
            select_nodes_exec(&e.children, steps, &child_states, 0, out);
            proof {
                assert(elems_view(out@) =~= elems_view(out0) + select_node_spec(
                    n@,
                    steps_view(steps@),
                    states@,
                    pos as int,
                ));
            }
        },
    }
}

#[verifier::loop_isolation(false)]
fn select_nodes_exec(
    nodes: &Vec<Node>,
    steps: &Vec<SimpleSel>,
    states: &Vec<usize>,
    pos: usize,
    out: &mut Vec<Elem>,
)
    requires
        forall|q: int| 0 <= q < states@.len() ==> (#[trigger] states@[q]) < steps@.len(),
        pos + nodes@.len() <= usize::MAX,
    ensures
        elems_view(final(out)@) == elems_view(old(out)@) + select_nodes_spec(
            nodes_view(nodes@),
            steps_view(steps@),
            states@,
            pos as int,
        ),
    decreases nodes@,
{
    let ghost out0 = out@;
    let ghost spv = steps_view(steps@);
    let ghost stv = states@;
    proof {
        lemma_nodes_view(nodes@);
        assert(nodes_view(nodes@).skip(0) =~= nodes_view(nodes@));
    }
    let mut i: usize = 0;
    let mut cpos: usize = pos;
    while i < nodes.len()
        invariant
            0 <= i <= nodes@.len(),
            pos <= cpos <= pos + i,
            elems_view(out@) + select_nodes_spec(
                nodes_view(nodes@).skip(i as int),
                spv,
                stv,
                cpos as int,
            ) =~= elems_view(out0) + select_nodes_spec(nodes_view(nodes@), spv, stv, pos as int),
        decreases nodes@.len() - i,
    {
        let ghost rest = nodes_view(nodes@).skip(i as int);
        proof {
            assert(rest[0] == node_view(nodes@[i as int]));
            assert(rest.drop_first() =~= nodes_view(nodes@).skip(i + 1));
            assert(decreases_to!(nodes@ => nodes@[i as int]));
        }
        let node_pos = match &nodes[i] {
            Node::Elem(_) => cpos + 1,
            Node::Text(_) => cpos,
        };
        select_node_exec(&nodes[i], steps, states, node_pos, out);
        cpos = node_pos;
        i = i + 1;
    }
    proof {
        assert(nodes_view(nodes@).skip(nodes@.len() as int) =~= Seq::<NodeV>::empty());
        assert(elems_view(out@) =~= elems_view(out0) + select_nodes_spec(
            nodes_view(nodes@),
            spv,
            stv,
            pos as int,
        ));
    }
}

/// All elements of the node list matching the selector, in document order,
/// as structural copies.
pub fn select(nodes: &Vec<Node>, steps: &Vec<SimpleSel>) -> (r: Vec<Elem>)
    ensures
        elems_view(r@) == select_spec(nodes_view(nodes@), steps_view(steps@)),
{
    let mut out: Vec<Elem> = Vec::new();
    if steps.len() == 0 {
        proof {
            assert(elems_view(out@) =~= select_spec(nodes_view(nodes@), steps_view(steps@)));
        }
        return out;
    }
    let mut states: Vec<usize> = Vec::new();
    states.push(0);
    proof {
        assert(states@ =~= seq![0usize]);
    }
    // establishes the length bound the recursive walk requires
    let _nodes_len = nodes.len();
    select_nodes_exec(nodes, steps, &states, 0, &mut out);
    proof {
        assert(elems_view(out@) =~= select_spec(nodes_view(nodes@), steps_view(steps@)));
    }
    out
}

} // verus!
