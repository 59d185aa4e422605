//! The engine's view of a concrete syntax tree.
//!
//! The external parser's tree is mirrored as an arena of nodes, each with a
//! kind, a byte range into the source buffer, its children (as arena
//! indices), and a mark saying whether the node fills its parent's
//! "argument" field.  Children always carry indices greater than their
//! parent's, which makes the arena acyclic by construction.

use vstd::prelude::*;

verus! {

/// The node kinds the engine distinguishes; every other kind of node is
/// `Other` and is never decoded.
#[derive(Clone, Copy)]
pub enum NodeKind {
    /// A bare, unquoted word token.
    Word,
    /// A raw-quoted (single-quoted) token.
    RawString,
    /// An escaped-quoted (double-quoted) token.
    Quoted,
    /// The command-name position of a command invocation.
    CommandName,
    /// Any other construct.
    Other,
}

/// One node of the arena.
pub struct TreeNode {
    pub kind: NodeKind,
    pub start: usize,
    pub end: usize,
    /// Whether this node fills the "argument" field of its parent.
    pub is_argument: bool,
    /// Children, in source order, as arena indices.
    pub children: Vec<usize>,
}

/// A syntax tree as an arena; when non-empty, node 0 is the root.
pub struct SyntaxTree {
    pub nodes: Vec<TreeNode>,
}

impl SyntaxTree {
    /// Arena well-formedness against a source of length `src_len`: every
    /// range lies inside the source and every child index is greater than
    /// its parent's and in bounds.
    pub open spec fn wf(&self, src_len: int) -> bool {
        forall|i: int| 0 <= i < self.nodes@.len() ==> {
            let n = #[trigger] self.nodes@[i];
            &&& n.start <= n.end <= src_len
            &&& forall|k: int| 0 <= k < n.children@.len()
                ==> i < #[trigger] n.children@[k] < self.nodes@.len()
        }
    }
}

/// The well-formedness conditions of one node.
pub open spec fn node_ok(t: SyntaxTree, i: int, src_len: int) -> bool {
    let n = t.nodes@[i];
    &&& n.start <= n.end <= src_len
    &&& forall|k: int| 0 <= k < n.children@.len()
        ==> i < #[trigger] n.children@[k] < t.nodes@.len()
}

impl SyntaxTree {
    /// Checks the arena well-formedness against a source length: every range
    /// inside the source, every child index greater than its parent's and in
    /// bounds.
    pub fn check_wf(&self, src_len: usize) -> (r: bool)
        ensures
            r == self.wf(src_len as int),
    {
        let n = self.nodes.len();
        let mut i: usize = 0;
        while i < n
            invariant
                i <= n,
                n == self.nodes@.len(),
                forall|p: int| 0 <= p < i ==> node_ok(*self, p, src_len as int),
            decreases n - i,
        {
            let node = &self.nodes[i];
            if !(node.start <= node.end && node.end <= src_len) {
                proof {
                    if self.wf(src_len as int) {
                        assert(self.nodes@[i as int].start <= self.nodes@[i as int].end
                            <= src_len);
                    }
                }
                return false;
            }
            let m = node.children.len();
            let mut k: usize = 0;
            while k < m
                invariant
                    k <= m,
                    i < n,
                    n == self.nodes@.len(),
                    m == self.nodes@[i as int].children@.len(),
                    node.start <= node.end <= src_len,
                    node == &self.nodes@[i as int],
                    forall|q: int| 0 <= q < k
                        ==> i < #[trigger] self.nodes@[i as int].children@[q] < n,
                decreases m - k,
            {
                let c = node.children[k];
                if !(c > i && c < n) {
                    proof {
                        if self.wf(src_len as int) {
                            assert(i < self.nodes@[i as int].children@[k as int] < n);
                        }
                    }
                    return false;
                }
                k = k + 1;
            }
            proof {
                assert(node_ok(*self, i as int, src_len as int));
            }
            i = i + 1;
        }
        proof {
            assert forall|p: int| 0 <= p < self.nodes@.len() implies ({
                let nd = #[trigger] self.nodes@[p];
                nd.start <= nd.end <= src_len as int && forall|k: int| 0 <= k
                    < nd.children@.len() ==> p < #[trigger] nd.children@[k]
                    < self.nodes@.len()
            }) by {
                assert(node_ok(*self, p, src_len as int));
            }
        }
        true
    }
}

} // verus!
