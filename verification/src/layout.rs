//! The layout of the witnesses of a compiled program.
use vstd::prelude::*;

verus! {

/// A node of a compiled program, as far as the layout of its witnesses goes.
#[derive(Debug)]
pub enum LayoutNode<T> {
    /// A witness node: the name of the witness and the type of its value.
    Witness { name: String, ty: T },
    /// Any other node.
    Other,
}

/// The names and types of the witness nodes among `nodes`, in order.
pub open spec fn layout<T>(nodes: Seq<LayoutNode<T>>) -> Seq<(String, T)>
    decreases nodes.len(),
{
    if nodes.len() == 0 {
        Seq::empty()
    } else {
        let rest = layout(nodes.drop_last());
        match nodes.last() {
            LayoutNode::Witness { name, ty } => rest.push((name, ty)),
            LayoutNode::Other => rest,
        }
    }
}

/// The names and types of the witness nodes among `nodes`, in order.
pub fn layout_of<T>(nodes: Vec<LayoutNode<T>>) -> (r: Vec<(String, T)>)
    ensures
        r@ == layout(nodes@),
{
    let ghost all = nodes@;
    let mut nodes = nodes;
    let mut r: Vec<(String, T)> = Vec::new();
    assert(r@ =~= layout(all.take(0)));
    while nodes.len() > 0
        invariant
            nodes.len() <= all.len(),
            nodes@ == all.skip(all.len() - nodes.len()),
            r@ == layout(all.take(all.len() - nodes.len())),
        decreases nodes.len(),
    {
        let ghost done = all.len() - nodes.len();
        let node = nodes.remove(0);
        proof {
            assert(node == all[done]);
            assert(all.take(done + 1).drop_last() =~= all.take(done));
            assert(nodes@ =~= all.skip(done + 1));
        }
        match node {
            LayoutNode::Witness { name, ty } => {
                r.push((name, ty));
            },
            LayoutNode::Other => {},
        }
    }
    assert(all.take(all.len() as int) =~= all);
    r
}

/// How many of the first `i` nodes are witness nodes.
pub open spec fn witnesses_before<T>(nodes: Seq<LayoutNode<T>>, i: int) -> int
    decreases i,
{
    if i <= 0 {
        0
    } else {
        witnesses_before(nodes, i - 1) + if nodes[i - 1] is Witness {
            1int
        } else {
            0
        }
    }
}

/// The layout has an entry for each witness node, and the entry for the `k`-th witness node
/// is the `k`-th.
pub proof fn law_layout_follows_nodes<T>(nodes: Seq<LayoutNode<T>>)
    ensures
        layout(nodes).len() == witnesses_before(nodes, nodes.len() as int),
        forall|i: int|
            0 <= i < nodes.len() ==> ((#[trigger] nodes[i]) matches LayoutNode::Witness { name, ty } ==> 0
                <= witnesses_before(nodes, i) < layout(nodes).len() && layout(
                nodes,
            )[witnesses_before(nodes, i)] == (name, ty)),
    decreases nodes.len(),
{
    if nodes.len() > 0 {
        let rest = nodes.drop_last();
        law_layout_follows_nodes(rest);
        lemma_witnesses_before_prefix(nodes, rest.len() as int);
        assert forall|i: int| 0 <= i < nodes.len() implies ((
        #[trigger] nodes[i]) matches LayoutNode::Witness { name, ty } ==> 0 <= witnesses_before(nodes, i)
            < layout(nodes).len() && layout(nodes)[witnesses_before(nodes, i)] == (name, ty)) by {
            if i < rest.len() {
                assert(rest[i] == nodes[i]);
                lemma_witnesses_before_prefix(nodes, i);
            }
        }
    }
}

proof fn lemma_witnesses_before_prefix<T>(nodes: Seq<LayoutNode<T>>, i: int)
    requires
        nodes.len() > 0,
        0 <= i < nodes.len(),
    ensures
        witnesses_before(nodes, i) == witnesses_before(nodes.drop_last(), i),
    decreases i,
{
    if i > 0 {
        lemma_witnesses_before_prefix(nodes, i - 1);
    }
}

} // verus!
