use vstd::prelude::*;
use vstd::string::*;
use crate::parse::{Node, NodeKind};
use crate::text::{append_decimal, decimal};

verus! {

/// The source of node numbers: explicit state that a traversal takes and
/// hands back.
pub struct Counter {
    count: u64,
}

impl Counter {
    /// The number that the next node gets.
    pub closed spec fn value(&self) -> nat {
        self.count as nat
    }

    pub fn new() -> (counter: Self)
        ensures
            counter.value() == 0,
    {
        Counter { count: 0 }
    }

    pub fn get(&self) -> (count: u64)
        ensures
            count == self.value(),
    {
        self.count
    }

    pub fn inc(&mut self)
        requires
            old(self).value() < u64::MAX,
        ensures
            final(self).value() == old(self).value() + 1,
    {
        self.count += 1;
    }

    /// Hands out the current number and moves on to the next.
    pub fn next(&mut self) -> (count: Option<u64>)
        requires
            old(self).value() < u64::MAX,
        ensures
            count == Some(old(self).value() as u64),
            final(self).value() == old(self).value() + 1,
    {
        let count: u64 = self.count;
        self.inc();
        Some(count)
    }
}

/// The number of nodes of a tree.
pub open spec fn node_count(node: Node) -> nat
    decreases node,
{
    1 + (if node.lhs is Some {
        node_count(*node.lhs->0)
    } else {
        0
    }) + (if node.rhs is Some {
        node_count(*node.rhs->0)
    } else {
        0
    })
}

/// How a node kind is written on a node of the graph.
pub open spec fn kind_label(kind: NodeKind) -> Seq<char> {
    match kind {
        NodeKind::Add => "Add"@,
        NodeKind::Sub => "Sub"@,
        NodeKind::Mul => "Mul"@,
        NodeKind::Div => "Div"@,
        NodeKind::Eq => "Eq"@,
        NodeKind::Neq => "Neq"@,
        NodeKind::Lt => "Lt"@,
        NodeKind::Leq => "Leq"@,
        NodeKind::Gt => "Gt"@,
        NodeKind::Geq => "Geq"@,
        NodeKind::Num(value) => "Num("@ + decimal(value as nat) + ")"@,
    }
}

/// The statement that declares node `id` with its label.
pub open spec fn node_text(id: nat, kind: NodeKind) -> Seq<char> {
    decimal(id) + "[label=\""@ + kind_label(kind) + "\"];\n"@
}

/// The statement that draws the edge from `parent` to `child`.
pub open spec fn edge_text(parent: nat, child: nat) -> Seq<char> {
    decimal(parent) + " -> "@ + decimal(child) + ";\n"@
}

/// The statements for the tree below `node`, whose nodes are numbered in
/// preorder from `id` on: the node itself; then, for each child that is
/// there, left before right, the edge to it and its own statements.
pub open spec fn dot_text(node: Node, id: nat) -> Seq<char>
    decreases node,
{
    let left = if node.lhs is Some {
        edge_text(id, id + 1) + dot_text(*node.lhs->0, id + 1)
    } else {
        Seq::empty()
    };
    let right_id = id + 1 + if node.lhs is Some {
        node_count(*node.lhs->0)
    } else {
        0
    };
    let right = if node.rhs is Some {
        edge_text(id, right_id) + dot_text(*node.rhs->0, right_id)
    } else {
        Seq::empty()
    };
    node_text(id, node.kind) + left + right
}

/// The whole graph of the tree below `root`.
pub open spec fn graph_text(root: Node) -> Seq<char> {
    "digraph G {\n"@ + dot_text(root, 0) + "}\n"@
}

/// The number of nodes of a tree, where it fits in 64 bits.
pub fn count_nodes(node: &Node) -> (count: Option<u64>)
    ensures
        count == if node_count(*node) <= u64::MAX {
            Some(node_count(*node) as u64)
        } else {
            None
        },
    decreases *node,
{
    let mut count: u64 = 1;
    if let Some(lhs) = &node.lhs {
        match count_nodes(lhs) {
            Some(n) => {
                if n > u64::MAX - count {
                    return None;
                }
                count = count + n;
            },
            None => {
                return None;
            },
        }
    }
    if let Some(rhs) = &node.rhs {
        match count_nodes(rhs) {
            Some(n) => {
                if n > u64::MAX - count {
                    return None;
                }
                count = count + n;
            },
            None => {
                return None;
            },
        }
    }
    Some(count)
}

fn append_label(out: &mut String, kind: NodeKind)
    ensures
        final(out)@ == old(out)@ + kind_label(kind),
{
    match kind {
        NodeKind::Add => out.append("Add"),
        NodeKind::Sub => out.append("Sub"),
        NodeKind::Mul => out.append("Mul"),
        NodeKind::Div => out.append("Div"),
        NodeKind::Eq => out.append("Eq"),
        NodeKind::Neq => out.append("Neq"),
        NodeKind::Lt => out.append("Lt"),
        NodeKind::Leq => out.append("Leq"),
        NodeKind::Gt => out.append("Gt"),
        NodeKind::Geq => out.append("Geq"),
        NodeKind::Num(value) => {
            out.append("Num(");
            append_decimal(out, value);
            out.append(")");
            assert(final(out)@ =~= old(out)@ + kind_label(kind));
        },
    }
}

fn append_edge(out: &mut String, parent: u64, child: u64)
    ensures
        final(out)@ == old(out)@ + edge_text(parent as nat, child as nat),
{
    append_decimal(out, parent);
    out.append(" -> ");
    append_decimal(out, child);
    out.append(";\n");
    assert(final(out)@ =~= old(out)@ + edge_text(parent as nat, child as nat));
}

/// Appends the statements for the tree below `node` to `out`, numbering its
/// nodes from the counter, which then stands behind the last of them.
pub fn do_dot(node: &Node, counter: &mut Counter, out: &mut String)
    requires
        old(counter).value() + node_count(*node) <= u64::MAX,
    ensures
        final(counter).value() == old(counter).value() + node_count(*node),
        final(out)@ == old(out)@ + dot_text(*node, old(counter).value()),
    decreases *node,
{
    let node_id: u64 = counter.get();
    counter.inc();
    append_decimal(out, node_id);
    out.append("[label=\"");
    append_label(out, node.kind);
    out.append("\"];\n");
    assert(out@ =~= old(out)@ + node_text(node_id as nat, node.kind));
    let ghost left = Seq::<char>::empty();
    if let Some(lhs) = &node.lhs {
        append_edge(out, node_id, counter.get());
        do_dot(lhs, counter, out);
        proof {
            left = edge_text(node_id as nat, node_id as nat + 1) + dot_text(
                **lhs,
                node_id as nat + 1,
            );
        }
    }
    assert(out@ =~= old(out)@ + node_text(node_id as nat, node.kind) + left);
    if let Some(rhs) = &node.rhs {
        let ghost right_id = counter.value();
        append_edge(out, node_id, counter.get());
        do_dot(rhs, counter, out);
        assert(out@ =~= old(out)@ + node_text(node_id as nat, node.kind) + left + (edge_text(
            node_id as nat,
            right_id,
        ) + dot_text(**rhs, right_id)));
    } else {
        assert(out@ =~= old(out)@ + node_text(node_id as nat, node.kind) + left
            + Seq::<char>::empty());
    }
}

/// The tree below `root` as a graph in the dot language, its nodes numbered
/// in preorder from 0. `None` where the tree has more nodes than 64 bits
/// count.
pub fn dotify_ast(root: &Node) -> (res: Option<String>)
    ensures
        match res {
            Some(text) => node_count(*root) <= u64::MAX && text@ == graph_text(*root),
            None => node_count(*root) > u64::MAX,
        },
{
    if count_nodes(root).is_none() {
        return None;
    }
    let mut text = String::new();
    text.append("digraph G {\n");
    let mut counter = Counter::new();
    do_dot(root, &mut counter, &mut text);
    text.append("}\n");
    assert(text@ =~= graph_text(*root));
    Some(text)
}

} // verus!
