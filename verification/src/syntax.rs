//! The finished syntax tree that the analysis rules read.
//!
//! The tree is an arena: a node is an index, every node but the root knows
//! its parent, and every node lists its children in source order. Nodes
//! are only ever added, as the last child of a node that is there already,
//! so a child's index is larger than its parent's.

pub mod walk;

use vstd::prelude::*;
use crate::span::Span;

verus! {

/// What a node of the tree is.
#[allow(non_camel_case_types)]
#[derive(Clone, Copy, Debug, PartialEq, Eq, Structural, Hash)]
pub enum SyntaxKind {
    SCRIPT,
    MODULE,
    BLOCK_STMT,
    EMPTY_STMT,
    EXPR_STMT,
    IF_STMT,
    FOR_STMT,
    FOR_IN_STMT,
    FOR_OF_STMT,
    WHILE_STMT,
    DO_WHILE_STMT,
    LABELLED_STMT,
    WITH_STMT,
    VAR_DECL,
    FN_DECL,
    CLASS_DECL,
    CLASS_BODY,
    CONSTRUCTOR,
    PARAMETER_LIST,
    CONDITION,
    FOR_STMT_INIT,
    FOR_STMT_TEST,
    FOR_STMT_UPDATE,
    NAME,
    NAME_REF,
    LITERAL,
    UNARY_EXPR,
    UPDATE_EXPR,
    GROUPING_EXPR,
    DOT_EXPR,
}

struct NodeData {
    kind: SyntaxKind,
    span: Span,
    parent: Option<usize>,
    children: Vec<usize>,
}

pub struct SyntaxTree {
    nodes: Vec<NodeData>,
}

impl SyntaxTree {
    /// The number of nodes.
    pub closed spec fn spec_len(&self) -> nat {
        self.nodes@.len()
    }

    pub closed spec fn kind_of(&self, i: int) -> SyntaxKind {
        self.nodes@[i].kind
    }

    pub closed spec fn span_of(&self, i: int) -> Span {
        self.nodes@[i].span
    }

    /// The parent of node `i`; the root has none.
    pub closed spec fn parent_of(&self, i: int) -> Option<int> {
        match self.nodes@[i].parent {
            Some(p) => Some(p as int),
            None => None,
        }
    }

    /// The children of node `i`, in source order.
    pub closed spec fn children_of(&self, i: int) -> Seq<int> {
        self.nodes@[i].children@.map_values(|c: usize| c as int)
    }

    /// Node 0 is the root. Every other node has a parent with a smaller
    /// index, which lists it as a child; and whatever a node lists as a
    /// child is a node with that parent. Children are listed by rising
    /// index.
    pub open spec fn wf(&self) -> bool {
        &&& 1 <= self.spec_len() <= usize::MAX
        &&& self.parent_of(0) is None
        &&& forall|i: int|
            1 <= i < self.spec_len() ==> ((#[trigger] self.parent_of(i)) matches Some(p) && 0
                <= p < i && self.children_of(p).contains(i))
        &&& forall|i: int, j: int|
            0 <= i < self.spec_len() && 0 <= j < self.children_of(i).len() ==> i < (
            #[trigger] self.children_of(i)[j]) < self.spec_len() && self.parent_of(
                self.children_of(i)[j],
            ) == Some(i)
        &&& forall|i: int, j: int, k: int|
            0 <= i < self.spec_len() && 0 <= j < k < self.children_of(i).len() ==> (
            #[trigger] self.children_of(i)[j]) < (#[trigger] self.children_of(i)[k])
    }

    /// The nodes under `i` from its child number `j` on, each child with
    /// all that is under it before the next child.
    pub open spec fn preorder_from(&self, i: int, j: int) -> Seq<int>
        decreases self.spec_len() - i, self.children_of(i).len() - j,
    {
        if 0 <= j < self.children_of(i).len() {
            let c = self.children_of(i)[j];
            (if i < c < self.spec_len() {
                self.preorder(c)
            } else {
                Seq::empty()
            }) + self.preorder_from(i, j + 1)
        } else {
            Seq::empty()
        }
    }

    /// Node `i` and all that is under it, in pre-order: a node before its
    /// children, and the children in source order.
    pub open spec fn preorder(&self, i: int) -> Seq<int>
        decreases self.spec_len() - i, self.children_of(i).len() + 1,
    {
        seq![i] + self.preorder_from(i, 0)
    }

    /// A tree that is its root alone.
    pub fn new(kind: SyntaxKind, span: Span) -> (t: SyntaxTree)
        ensures
            t.wf(),
            t.spec_len() == 1,
            t.kind_of(0) == kind,
            t.span_of(0) == span,
            t.children_of(0) == Seq::<int>::empty(),
    {
        let mut nodes: Vec<NodeData> = Vec::new();
        nodes.push(NodeData { kind, span, parent: None, children: Vec::new() });
        let t = SyntaxTree { nodes };
        assert(t.children_of(0) =~= Seq::<int>::empty());
        t
    }

    pub fn len(&self) -> (n: usize)
        requires
            self.wf(),
        ensures
            n == self.spec_len(),
    {
        self.nodes.len()
    }

    /// Adds a node as the last child of `parent` and returns its index,
    /// which is the number of nodes there were. Without a node `parent`,
    /// or with no index left for a new node, nothing is added.
    pub fn add_child(&mut self, parent: usize, kind: SyntaxKind, span: Span) -> (r: Option<usize>)
        requires
            old(self).wf(),
        ensures
            final(self).wf(),
            r is Some <==> parent < old(self).spec_len() && old(self).spec_len() < usize::MAX,
            r is None ==> *final(self) == *old(self),
            r matches Some(id) ==> {
                &&& id == old(self).spec_len()
                &&& final(self).spec_len() == old(self).spec_len() + 1
                &&& final(self).kind_of(id as int) == kind
                &&& final(self).span_of(id as int) == span
                &&& final(self).parent_of(id as int) == Some(parent as int)
                &&& final(self).children_of(id as int) == Seq::<int>::empty()
                &&& final(self).children_of(parent as int) == old(self).children_of(
                    parent as int,
                ).push(id as int)
                &&& forall|i: int|
                    0 <= i < old(self).spec_len() ==> {
                        &&& final(self).kind_of(i) == old(self).kind_of(i)
                        &&& final(self).span_of(i) == old(self).span_of(i)
                        &&& final(self).parent_of(i) == old(self).parent_of(i)
                        &&& i != parent ==> final(self).children_of(i) == old(self).children_of(i)
                    }
            },
    {
        let id = self.nodes.len();
        if parent >= id || id == usize::MAX {
            return None;
        }
        self.nodes[parent].children.push(id);
        self.nodes.push(NodeData { kind, span, parent: Some(parent), children: Vec::new() });
        proof {
            let old_tree = *old(self);
            let new_tree = *self;
            assert(new_tree.children_of(id as int) =~= Seq::<int>::empty());
            assert(new_tree.children_of(parent as int) =~= old_tree.children_of(
                parent as int,
            ).push(id as int));
            assert forall|i: int| 0 <= i < old_tree.spec_len() && i != parent implies new_tree.children_of(
                i,
            ) == old_tree.children_of(i) by {
                assert(new_tree.nodes@[i] == old_tree.nodes@[i]);
            }
            assert forall|i: int| 0 <= i < old_tree.spec_len() implies new_tree.parent_of(i)
                == old_tree.parent_of(i) by {
                assert(new_tree.nodes@[i].parent == old_tree.nodes@[i].parent);
            }
            assert forall|i: int| 1 <= i < new_tree.spec_len() implies ((
            #[trigger] new_tree.parent_of(i)) matches Some(p) && 0 <= p < i
                && new_tree.children_of(p).contains(i)) by {
                if i == id {
                    assert(new_tree.children_of(parent as int)[old_tree.children_of(
                        parent as int,
                    ).len() as int] == id);
                } else {
                    let p = old_tree.parent_of(i)->0;
                    let j = choose|j: int|
                        0 <= j < old_tree.children_of(p).len() && old_tree.children_of(p)[j] == i;
                    assert(new_tree.children_of(p)[j] == i);
                }
            }
            assert forall|i: int, j: int|
                0 <= i < new_tree.spec_len() && 0 <= j < new_tree.children_of(i).len() implies i
                < (#[trigger] new_tree.children_of(i)[j]) < new_tree.spec_len()
                && new_tree.parent_of(new_tree.children_of(i)[j]) == Some(i) by {
                if i == parent && j == old_tree.children_of(i).len() {
                } else {
                    assert(new_tree.children_of(i)[j] == old_tree.children_of(i)[j]);
                }
            }
            assert forall|i: int, j: int, k: int|
                0 <= i < new_tree.spec_len() && 0 <= j < k < new_tree.children_of(i).len() implies (
            #[trigger] new_tree.children_of(i)[j]) < (#[trigger] new_tree.children_of(i)[k]) by {
                assert(new_tree.children_of(i)[j] == old_tree.children_of(i)[j]);
                if i == parent && k == old_tree.children_of(i).len() {
                } else {
                    assert(new_tree.children_of(i)[k] == old_tree.children_of(i)[k]);
                }
            }
        }
        Some(id)
    }

    /// The root.
    pub fn root(&self) -> (n: SyntaxNode<'_>)
        requires
            self.wf(),
        ensures
            n.wf(),
            n.tree() == *self,
            n.id() == 0,
    {
        SyntaxNode { tree: self, id: 0 }
    }

    /// Node `id`, if there is one.
    pub fn node(&self, id: usize) -> (r: Option<SyntaxNode<'_>>)
        requires
            self.wf(),
        ensures
            r is Some <==> id < self.spec_len(),
            r matches Some(n) ==> n.wf() && n.tree() == *self && n.id() == id,
    {
        if id < self.nodes.len() {
            Some(SyntaxNode { tree: self, id })
        } else {
            None
        }
    }
}

/// One node of a tree.
#[derive(Clone, Copy)]
pub struct SyntaxNode<'a> {
    tree: &'a SyntaxTree,
    id: usize,
}

impl<'a> SyntaxNode<'a> {
    /// The tree the node belongs to.
    pub closed spec fn tree(&self) -> SyntaxTree {
        *self.tree
    }

    /// The index of the node in its tree.
    pub closed spec fn id(&self) -> int {
        self.id as int
    }

    /// The node is one of a well-formed tree.
    pub open spec fn wf(&self) -> bool {
        self.tree().wf() && 0 <= self.id() < self.tree().spec_len()
    }

    pub fn index(&self) -> (i: usize)
        ensures
            i == self.id(),
    {
        self.id
    }

    pub fn kind(&self) -> (k: SyntaxKind)
        requires
            self.wf(),
        ensures
            k == self.tree().kind_of(self.id()),
    {
        self.tree.nodes[self.id].kind
    }

    /// The source range of the node.
    pub fn text_range(&self) -> (s: Span)
        requires
            self.wf(),
        ensures
            s == self.tree().span_of(self.id()),
    {
        self.tree.nodes[self.id].span
    }

    /// The parent, which the root does not have.
    pub fn parent(&self) -> (r: Option<SyntaxNode<'a>>)
        requires
            self.wf(),
        ensures
            match r {
                Some(p) => p.wf() && p.tree() == self.tree() && self.tree().parent_of(self.id())
                    == Some(p.id()),
                None => self.tree().parent_of(self.id()) is None,
            },
    {
        match self.tree.nodes[self.id].parent {
            Some(p) => {
                assert(self.tree().parent_of(self.id()) == Some(p as int));
                Some(SyntaxNode { tree: self.tree, id: p })
            },
            None => None,
        }
    }

    /// The number of children.
    pub fn child_count(&self) -> (n: usize)
        requires
            self.wf(),
        ensures
            n == self.tree().children_of(self.id()).len(),
    {
        self.tree.nodes[self.id].children.len()
    }

    /// Child number `j`, if there are that many.
    pub fn child(&self, j: usize) -> (r: Option<SyntaxNode<'a>>)
        requires
            self.wf(),
        ensures
            r is Some <==> j < self.tree().children_of(self.id()).len(),
            r matches Some(c) ==> c.wf() && c.tree() == self.tree() && c.id()
                == self.tree().children_of(self.id())[j as int],
    {
        if j < self.tree.nodes[self.id].children.len() {
            let c = self.tree.nodes[self.id].children[j];
            assert(self.tree().children_of(self.id())[j as int] == c);
            Some(SyntaxNode { tree: self.tree, id: c })
        } else {
            None
        }
    }
}

} // verus!
