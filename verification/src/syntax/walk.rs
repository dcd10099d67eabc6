//! What holds of the pre-order of a well-formed tree: it passes every node
//! of the tree, each of them once, and a parent before its children.

use vstd::prelude::*;
use vstd::seq_lib::lemma_no_dup_in_concat;
use vstd::set_lib::{lemma_int_range, set_int_range};
use crate::syntax::SyntaxTree;

verus! {

impl SyntaxTree {
    /// Node `a` is node `d` or stands above it.
    pub open spec fn is_ancestor(&self, a: int, d: int) -> bool
        decreases d,
    {
        d == a || match self.parent_of(d) {
            Some(p) => 0 <= p < d && self.is_ancestor(a, p),
            None => false,
        }
    }

    /// Node `x` is or stands under one of the children of `i` from child
    /// number `j` on.
    pub open spec fn under_child(&self, i: int, j: int, x: int) -> bool {
        exists|k: int|
            j <= k < self.children_of(i).len() && #[trigger] self.is_ancestor(
                self.children_of(i)[k],
                x,
            )
    }

    /// A node does not stand above a node with a smaller index.
    pub proof fn lemma_ancestor_le(&self, a: int, d: int)
        requires
            self.is_ancestor(a, d),
        ensures
            a <= d,
        decreases d,
    {
        if d != a {
            self.lemma_ancestor_le(a, self.parent_of(d)->0);
        }
    }

    /// What stands above a node that stands above a third stands above
    /// the third.
    pub proof fn lemma_ancestor_trans(&self, a: int, b: int, d: int)
        requires
            self.is_ancestor(a, b),
            self.is_ancestor(b, d),
        ensures
            self.is_ancestor(a, d),
        decreases d,
    {
        if d != b {
            self.lemma_ancestor_trans(a, b, self.parent_of(d)->0);
        }
    }

    /// Of two nodes that stand above one node, the one with the smaller
    /// index stands above the other.
    pub proof fn lemma_ancestors_line_up(&self, a: int, b: int, d: int)
        requires
            self.is_ancestor(a, d),
            self.is_ancestor(b, d),
            a < b,
        ensures
            self.is_ancestor(a, b),
        decreases d,
    {
        if d != b {
            self.lemma_ancestor_le(b, d);
            self.lemma_ancestors_line_up(a, b, self.parent_of(d)->0);
        }
    }

    /// The root stands above every node.
    pub proof fn lemma_root_is_ancestor(&self, d: int)
        requires
            self.wf(),
            0 <= d < self.spec_len(),
        ensures
            self.is_ancestor(0, d),
        decreases d,
    {
        if d != 0 {
            self.lemma_root_is_ancestor(self.parent_of(d)->0);
        }
    }

    /// No node stands under two children of one node.
    pub proof fn lemma_siblings_are_apart(&self, i: int, j: int, k: int, x: int)
        requires
            self.wf(),
            0 <= i < self.spec_len(),
            0 <= j < k < self.children_of(i).len(),
            self.is_ancestor(self.children_of(i)[j], x),
        ensures
            !self.is_ancestor(self.children_of(i)[k], x),
    {
        let a = self.children_of(i)[j];
        let b = self.children_of(i)[k];
        assert(a < b);
        if self.is_ancestor(b, x) {
            self.lemma_ancestors_line_up(a, b, x);
            assert(self.parent_of(b) == Some(i));
            assert(self.is_ancestor(a, i));
            self.lemma_ancestor_le(a, i);
        }
    }

    /// A node that stands under `i` stands under one of its children.
    pub proof fn lemma_under_a_child(&self, i: int, x: int)
        requires
            self.wf(),
            0 <= i < x < self.spec_len(),
            self.is_ancestor(i, x),
        ensures
            self.under_child(i, 0, x),
        decreases x,
    {
        let p = self.parent_of(x)->0;
        if p == i {
            assert(self.children_of(i).contains(x));
            let k = choose|k: int| 0 <= k < self.children_of(i).len() && self.children_of(i)[k] == x;
            assert(self.is_ancestor(self.children_of(i)[k], x));
        } else {
            self.lemma_ancestor_le(i, p);
            self.lemma_under_a_child(i, p);
            let k = choose|k: int|
                0 <= k < self.children_of(i).len() && #[trigger] self.is_ancestor(
                    self.children_of(i)[k],
                    p,
                );
            assert(self.is_ancestor(self.children_of(i)[k], x));
        }
    }

    /// The pre-order of the children of `i` from child number `j` on holds
    /// the nodes that stand under those children, each once.
    pub proof fn lemma_preorder_from(&self, i: int, j: int)
        requires
            self.wf(),
            0 <= i < self.spec_len(),
            0 <= j <= self.children_of(i).len(),
        ensures
            self.preorder_from(i, j).no_duplicates(),
            forall|x: int|
                #[trigger] self.preorder_from(i, j).contains(x) <==> 0 <= x < self.spec_len()
                    && self.under_child(i, j, x),
        decreases self.spec_len() - i, self.children_of(i).len() - j,
    {
        let all = self.preorder_from(i, j);
        if j < self.children_of(i).len() {
            let c = self.children_of(i)[j];
            assert(i < c < self.spec_len());
            let first = self.preorder(c);
            let rest = self.preorder_from(i, j + 1);
            self.lemma_preorder(c);
            self.lemma_preorder_from(i, j + 1);
            assert(all == first + rest);
            assert forall|a: int, b: int| 0 <= a < first.len() && 0 <= b < rest.len() implies first[a]
                != rest[b] by {
                assert(first.contains(first[a]));
                assert(rest.contains(rest[b]));
                if first[a] == rest[b] {
                    let x = first[a];
                    assert(self.is_ancestor(c, x));
                    assert(self.under_child(i, j + 1, x));
                    let k = choose|k: int|
                        j + 1 <= k < self.children_of(i).len() && #[trigger] self.is_ancestor(
                            self.children_of(i)[k],
                            x,
                        );
                    self.lemma_siblings_are_apart(i, j, k, x);
                }
            }
            lemma_no_dup_in_concat(first, rest);
            assert forall|x: int| #[trigger] all.contains(x) <==> 0 <= x < self.spec_len()
                && self.under_child(i, j, x) by {
                if all.contains(x) {
                    let n = choose|n: int| 0 <= n < all.len() && all[n] == x;
                    if n < first.len() {
                        assert(first[n] == x);
                        assert(first.contains(x));
                        assert(self.is_ancestor(self.children_of(i)[j], x));
                    } else {
                        assert(rest[n - first.len()] == x);
                        assert(rest.contains(x));
                        assert(self.under_child(i, j + 1, x));
                        let k = choose|k: int|
                            j + 1 <= k < self.children_of(i).len() && #[trigger] self.is_ancestor(
                                self.children_of(i)[k],
                                x,
                            );
                        assert(self.is_ancestor(self.children_of(i)[k], x));
                    }
                }
                if 0 <= x < self.spec_len() && self.under_child(i, j, x) {
                    let k = choose|k: int|
                        j <= k < self.children_of(i).len() && #[trigger] self.is_ancestor(
                            self.children_of(i)[k],
                            x,
                        );
                    if k == j {
                        assert(first.contains(x));
                        let n = choose|n: int| 0 <= n < first.len() && first[n] == x;
                        assert(all[n] == x);
                    } else {
                        assert(self.is_ancestor(self.children_of(i)[k], x));
                        assert(self.under_child(i, j + 1, x));
                        assert(rest.contains(x));
                        let n = choose|n: int| 0 <= n < rest.len() && rest[n] == x;
                        assert(all[first.len() + n] == x);
                    }
                }
            }
        } else {
            assert(all =~= Seq::<int>::empty());
        }
    }

    /// The pre-order of `i` holds `i` and the nodes that stand under it,
    /// each once.
    pub proof fn lemma_preorder(&self, i: int)
        requires
            self.wf(),
            0 <= i < self.spec_len(),
        ensures
            self.preorder(i).no_duplicates(),
            forall|x: int|
                #[trigger] self.preorder(i).contains(x) <==> 0 <= x < self.spec_len()
                    && self.is_ancestor(i, x),
        decreases self.spec_len() - i, self.children_of(i).len() + 1,
    {
        let all = self.preorder(i);
        let rest = self.preorder_from(i, 0);
        self.lemma_preorder_from(i, 0);
        assert(all == seq![i] + rest);
        assert forall|a: int, b: int| 0 <= a < 1 && 0 <= b < rest.len() implies seq![i][a]
            != rest[b] by {
            assert(rest.contains(rest[b]));
            let x = rest[b];
            assert(self.under_child(i, 0, x));
            let k = choose|k: int|
                0 <= k < self.children_of(i).len() && #[trigger] self.is_ancestor(
                    self.children_of(i)[k],
                    x,
                );
            self.lemma_ancestor_le(self.children_of(i)[k], x);
        }
        lemma_no_dup_in_concat(seq![i], rest);
        assert forall|x: int| #[trigger] all.contains(x) <==> 0 <= x < self.spec_len()
            && self.is_ancestor(i, x) by {
            if all.contains(x) {
                let n = choose|n: int| 0 <= n < all.len() && all[n] == x;
                if n > 0 {
                    assert(rest[n - 1] == x);
                    assert(rest.contains(x));
                    assert(self.under_child(i, 0, x));
                    let k = choose|k: int|
                        0 <= k < self.children_of(i).len() && #[trigger] self.is_ancestor(
                            self.children_of(i)[k],
                            x,
                        );
                    let c = self.children_of(i)[k];
                    assert(self.parent_of(c) == Some(i));
                    assert(self.is_ancestor(i, i));
                    assert(i < c);
                    assert(self.is_ancestor(i, c));
                    self.lemma_ancestor_trans(i, c, x);
                }
            }
            if 0 <= x < self.spec_len() && self.is_ancestor(i, x) {
                if x == i {
                    assert(all[0] == x);
                } else {
                    self.lemma_ancestor_le(i, x);
                    self.lemma_under_a_child(i, x);
                    assert(rest.contains(x));
                    let n = choose|n: int| 0 <= n < rest.len() && rest[n] == x;
                    assert(all[n + 1] == x);
                }
            }
        }
    }

    /// The parent of the node at place `n` of `order` stands at an earlier
    /// place.
    pub open spec fn parent_precedes(&self, order: Seq<int>, n: int) -> bool {
        exists|m: int| 0 <= m < n && self.parent_of(order[n]) == Some(#[trigger] order[m])
    }

    /// In the pre-order of the children of `i`, every node but those
    /// children themselves comes behind its parent.
    pub proof fn lemma_preorder_from_parent_first(&self, i: int, j: int)
        requires
            self.wf(),
            0 <= i < self.spec_len(),
            0 <= j <= self.children_of(i).len(),
        ensures
            forall|n: int|
                0 <= n < self.preorder_from(i, j).len() ==> self.parent_of(
                    #[trigger] self.preorder_from(i, j)[n],
                ) == Some(i) || self.parent_precedes(self.preorder_from(i, j), n),
        decreases self.spec_len() - i, self.children_of(i).len() - j,
    {
        let all = self.preorder_from(i, j);
        if j < self.children_of(i).len() {
            let c = self.children_of(i)[j];
            assert(i < c < self.spec_len());
            let first = self.preorder(c);
            let rest = self.preorder_from(i, j + 1);
            self.lemma_preorder_parent_first(c);
            self.lemma_preorder_from_parent_first(i, j + 1);
            assert(all == first + rest);
            assert forall|n: int| 0 <= n < all.len() implies self.parent_of(#[trigger] all[n])
                == Some(i) || self.parent_precedes(all, n) by {
                if n == 0 {
                    assert(all[0] == c);
                } else if n < first.len() {
                    assert(all[n] == first[n]);
                    assert(self.parent_precedes(first, n));
                    let m = choose|m: int|
                        0 <= m < n && self.parent_of(first[n]) == Some(#[trigger] first[m]);
                    assert(all[m] == first[m]);
                } else {
                    let k = n - first.len();
                    assert(all[n] == rest[k]);
                    if self.parent_of(rest[k]) != Some(i) {
                        assert(self.parent_precedes(rest, k));
                        let m = choose|m: int|
                            0 <= m < k && self.parent_of(rest[k]) == Some(#[trigger] rest[m]);
                        assert(all[first.len() + m] == rest[m]);
                    }
                }
            }
        }
    }

    /// The pre-order of `i` starts with `i`, and every other node in it
    /// comes behind its parent.
    pub proof fn lemma_preorder_parent_first(&self, i: int)
        requires
            self.wf(),
            0 <= i < self.spec_len(),
        ensures
            self.preorder(i).len() >= 1,
            self.preorder(i)[0] == i,
            forall|n: int|
                0 < n < self.preorder(i).len() ==> #[trigger] self.parent_precedes(
                    self.preorder(i),
                    n,
                ),
        decreases self.spec_len() - i, self.children_of(i).len() + 1,
    {
        let all = self.preorder(i);
        let rest = self.preorder_from(i, 0);
        self.lemma_preorder_from_parent_first(i, 0);
        assert(all == seq![i] + rest);
        assert forall|n: int| 0 < n < all.len() implies #[trigger] self.parent_precedes(all, n) by {
            assert(all[n] == rest[n - 1]);
            if self.parent_of(rest[n - 1]) == Some(i) {
                assert(all[0] == i);
            } else {
                assert(self.parent_precedes(rest, n - 1));
                let m = choose|m: int|
                    0 <= m < n - 1 && self.parent_of(rest[n - 1]) == Some(#[trigger] rest[m]);
                assert(all[m + 1] == rest[m]);
            }
        }
    }

    /// The walk from the root is in pre-order: it starts at the root, and
    /// it comes to every other node only after it has been at the node's
    /// parent.
    pub proof fn lemma_preorder_parents_come_first(&self)
        requires
            self.wf(),
        ensures
            self.preorder(0)[0] == 0,
            forall|n: int|
                0 < n < self.preorder(0).len() ==> #[trigger] self.parent_precedes(
                    self.preorder(0),
                    n,
                ),
    {
        self.lemma_preorder_parent_first(0);
    }

    /// The walk from the root passes every node of the tree exactly once.
    pub proof fn lemma_preorder_visits_every_node_once(&self)
        requires
            self.wf(),
        ensures
            self.preorder(0).no_duplicates(),
            self.preorder(0).len() == self.spec_len(),
            forall|x: int| #[trigger] self.preorder(0).contains(x) <==> 0 <= x < self.spec_len(),
    {
        let all = self.preorder(0);
        self.lemma_preorder(0);
        assert forall|x: int| #[trigger] all.contains(x) <==> 0 <= x < self.spec_len() by {
            if 0 <= x < self.spec_len() {
                self.lemma_root_is_ancestor(x);
            }
        }
        all.unique_seq_to_set();
        lemma_int_range(0, self.spec_len() as int);
        assert(all.to_set() =~= set_int_range(0, self.spec_len() as int));
    }
}

} // verus!
