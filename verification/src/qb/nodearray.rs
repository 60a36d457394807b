//! Reading the node array of a level script: the assignments at the top of a
//! parsed script, each a name and a value.
use crate::qb::parser::{nodes_v, Node, NodeV};
use vstd::prelude::*;

verus! {

/// Why reading the node array failed.
#[derive(Debug)]
pub enum Error {
    /// A node that cannot stand where it stands.
    UnexpectedNode(Node),
    /// A node that holds no value.
    HasNoValue(Node),
}

pub enum ErrorV {
    UnexpectedNode(NodeV),
    HasNoValue(NodeV),
}

impl View for Error {
    type V = ErrorV;

    open spec fn view(&self) -> ErrorV {
        match self {
            Error::UnexpectedNode(n) => ErrorV::UnexpectedNode(n@),
            Error::HasNoValue(n) => ErrorV::HasNoValue(n@),
        }
    }
}

/// The value of a node array entry. Floating-point values are held as their
/// 32-bit patterns.
#[derive(Debug)]
pub enum NodeValue {
    String(String),
    Vec3(u32, u32, u32),
    Vec2(u32, u32),
}

/// The name that a node gives: that of a global or a symbol.
pub open spec fn node_name(n: NodeV) -> Result<Seq<char>, ErrorV> {
    match n {
        NodeV::Global(s) => Ok(s),
        NodeV::Symbol(s) => Ok(s),
        _ => Err(ErrorV::UnexpectedNode(n)),
    }
}

/// Reading the value of arrays and of tokens is not done (it panics).
pub open spec fn node_value_panics(n: NodeV) -> bool {
    n is Array || n is Token
}

/// The value that a node gives: the name of a global or a symbol; nodes of
/// other kinds hold none.
pub open spec fn node_value(n: NodeV) -> Result<Seq<char>, ErrorV> {
    match n {
        NodeV::Global(s) => Ok(s),
        NodeV::Symbol(s) => Ok(s),
        _ => Err(ErrorV::HasNoValue(n)),
    }
}

/// The error at which reading assignments from `ns` stops: the first
/// assignment whose name or value cannot be read. `None` when reading panics
/// first: at a node that is not an assignment, at a value that is an array or a
/// token, or at the end of the list (reading the assigned value is not done).
pub open spec fn assignments_error(ns: Seq<NodeV>) -> Option<ErrorV>
    decreases ns.len(),
{
    if ns.len() == 0 {
        None
    } else {
        match ns[0] {
            NodeV::Assignment(lhs, rhs) => match node_name(*lhs) {
                Err(e) => Some(e),
                Ok(_) => if node_value_panics(*rhs) {
                    None
                } else {
                    match node_value(*rhs) {
                        Err(e) => Some(e),
                        Ok(_) => assignments_error(ns.drop_first()),
                    }
                },
            },
            _ => None,
        }
    }
}

/// The name of a global or a symbol node.
pub fn get_node_name(node: &Node) -> (r: Result<String, Error>)
    ensures
        match node_name(node@) {
            Ok(s) => r is Ok && r->Ok_0@ == s,
            Err(e) => r is Err && r->Err_0@ == e,
        },
{
    match node {
        Node::Global(name) => Ok(name.clone()),
        Node::Symbol(name) => Ok(name.clone()),
        _ => Err(Error::UnexpectedNode(node.copy())),
    }
}

/// The value of a node: the name of a global or a symbol.
pub fn get_node_value(node: &Node) -> (r: Result<NodeValue, Error>)
    requires
        !node_value_panics(node@),
    ensures
        match node_value(node@) {
            Ok(s) => r matches Ok(NodeValue::String(t)) && t@ == s,
            Err(e) => r is Err && r->Err_0@ == e,
        },
{
    match node {
        Node::Global(name) | Node::Symbol(name) => Ok(NodeValue::String(name.clone())),
        _ => Err(Error::HasNoValue(node.copy())),
    }
}

/// Reads the assignments of `nodes` in order, stopping at the first whose name
/// or value cannot be read.
pub fn extract_assignment(nodes: &Vec<Node>, name: &str) -> (r: Result<NodeValue, Error>)
    requires
        assignments_error(nodes_v(nodes@)) is Some,
    ensures
        r is Err && r->Err_0@ == assignments_error(nodes_v(nodes@))->Some_0,
{
    let ghost ns = nodes_v(nodes@);
    proof {
        crate::qb::parser::lemma_nodes_v(nodes@);
    }
    let mut i: usize = 0;
    proof {
        assert(ns.subrange(0, ns.len() as int) =~= ns);
    }
    while i < nodes.len()
        invariant
            0 <= i <= nodes@.len(),
            ns == nodes_v(nodes@),
            ns.len() == nodes@.len(),
            forall|k: int| 0 <= k < nodes@.len() ==> #[trigger] ns[k] == nodes@[k]@,
            assignments_error(ns.subrange(i as int, ns.len() as int)) == assignments_error(ns),
            assignments_error(ns) is Some,
        decreases nodes@.len() - i,
    {
        let ghost rest = ns.subrange(i as int, ns.len() as int);
        proof {
            assert(rest[0] == nodes@[i as int]@);
            assert(rest.drop_first() =~= ns.subrange(i + 1, ns.len() as int));
        }
        match &nodes[i] {
            Node::Assignment(lhs, rhs) => {
                let _name = get_node_name(lhs)?;
                let _value = get_node_value(rhs)?;
            },
            _ => {
                proof {
                    assert(false);
                }
                return Err(Error::HasNoValue(nodes[i].copy()));
            },
        }
        i = i + 1;
    }
    proof {
        assert(ns.subrange(ns.len() as int, ns.len() as int) =~= Seq::<NodeV>::empty());
    }
    Err(Error::HasNoValue(Node::File(Vec::new())))
}

/// Reads the node array of a parsed script; reading stops at the first
/// assignment of the script whose name or value cannot be read.
pub fn read_nodearray(node: &Node) -> (r: Result<Vec<(String, String)>, Error>)
    requires
        node@ matches NodeV::File(ns) && assignments_error(ns) is Some,
    ensures
        node@ matches NodeV::File(ns) && r is Err && r->Err_0@ == assignments_error(ns)->Some_0,
{
    match node {
        Node::File(nodes) => {
            let _node = extract_assignment(nodes, "LA_NodeArray")?;
            Ok(Vec::new())
        },
        _ => {
            proof {
                assert(false);
            }
            Ok(Vec::new())
        },
    }
}

} // verus!
