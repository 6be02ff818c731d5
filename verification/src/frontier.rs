//! The open set of the path search: a bag of nodes that hands out a node of
//! least priority first.

use vstd::multiset::Multiset;
use vstd::prelude::*;

verus! {

/// A tile on the search frontier: the cost of the way found to it and that
/// cost plus the estimate of what is left to the goal.
#[derive(Clone, Copy, PartialEq, Eq, Structural, Debug)]
pub struct Node {
    pub x: usize,
    pub y: usize,
    pub cost: usize,
    pub priority: usize,
}

pub struct Frontier {
    nodes: Vec<Node>,
}

impl View for Frontier {
    type V = Multiset<Node>;

    closed spec fn view(&self) -> Multiset<Node> {
        self.nodes@.to_multiset()
    }
}

/// Which node leaves a frontier that holds `nodes` in the order in which
/// they came: the first of those whose priority is least.
pub open spec fn least_index(nodes: Seq<Node>) -> int
    decreases nodes.len(),
{
    if nodes.len() <= 1 {
        0
    } else {
        let before = least_index(nodes.drop_last());
        if nodes.last().priority < nodes[before].priority {
            nodes.len() - 1
        } else {
            before
        }
    }
}

/// The node that leaves is one of the nodes, and none has less priority.
pub proof fn lemma_least_index(nodes: Seq<Node>)
    requires
        nodes.len() > 0,
    ensures
        0 <= least_index(nodes) < nodes.len(),
        forall|j: int|
            0 <= j < nodes.len() ==> nodes[least_index(nodes)].priority <= (#[trigger] nodes[j]).priority,
    decreases nodes.len(),
{
    if nodes.len() > 1 {
        let front = nodes.drop_last();
        lemma_least_index(front);
        assert forall|j: int| 0 <= j < nodes.len() implies nodes[least_index(nodes)].priority <= (
        #[trigger] nodes[j]).priority by {
            if j < front.len() {
                assert(front[j] == nodes[j]);
            }
            assert(front[least_index(front)] == nodes[least_index(front)]);
        }
    }
}

impl Frontier {
    /// The nodes in the order in which they came.
    pub closed spec fn order(&self) -> Seq<Node> {
        self.nodes@
    }

    /// The bag holds the nodes of the order, and nothing else.
    pub proof fn lemma_view(&self)
        ensures
            self@ == self.order().to_multiset(),
    {
    }

    pub fn new() -> (f: Frontier)
        ensures
            f@ == Multiset::<Node>::empty(),
            f.order() == Seq::<Node>::empty(),
    {
        let f = Frontier { nodes: Vec::new() };
        proof {
            f.nodes@.to_multiset_ensures();
            vstd::multiset::lemma_multiset_empty_len(f@);
        }
        f
    }

    pub fn len(&self) -> (n: usize)
        ensures
            n == self@.len(),
    {
        proof {
            self.nodes@.to_multiset_ensures();
        }
        self.nodes.len()
    }

    pub fn push(&mut self, node: Node)
        ensures
            final(self)@ == old(self)@.insert(node),
            final(self).order() == old(self).order().push(node),
    {
        proof {
            self.nodes@.to_multiset_ensures();
        }
        self.nodes.push(node);
    }

    /// Takes out the node of least priority; of several, the one that came
    /// first.
    pub fn pop(&mut self) -> (r: Option<Node>)
        ensures
            match r {
                None => old(self)@.len() == 0 && final(self)@ == old(self)@ && old(self).order().len()
                    == 0 && final(self).order() == old(self).order(),
                Some(node) => {
                    &&& old(self)@.count(node) > 0
                    &&& final(self)@ == old(self)@.remove(node)
                    &&& forall|other: Node|
                        old(self)@.count(other) > 0 ==> node.priority <= other.priority
                    &&& 0 <= least_index(old(self).order()) < old(self).order().len()
                    &&& node == old(self).order()[least_index(old(self).order())]
                    &&& final(self).order() == old(self).order().remove(
                        least_index(old(self).order()),
                    )
                },
            },
    {
        proof {
            self.nodes@.to_multiset_ensures();
        }
        if self.nodes.len() == 0 {
            return None;
        }
        let mut least: usize = 0;
        let mut i: usize = 1;
        assert(self.nodes@.take(1).drop_last().len() == 0);
        while i < self.nodes.len()
            invariant
                0 <= least < i <= self.nodes.len(),
                forall|j: int| 0 <= j < i ==> self.nodes[least as int].priority <= self.nodes[j].priority,
                least == least_index(self.nodes@.take(i as int)),
            decreases self.nodes.len() - i,
        {
            assert(self.nodes@.take(i + 1).drop_last() =~= self.nodes@.take(i as int));
            if self.nodes[i].priority < self.nodes[least].priority {
                least = i;
            }
            i += 1;
        }
        assert(self.nodes@.take(i as int) =~= self.nodes@);
        let node = self.nodes.remove(least);
        proof {
            assert(old(self).nodes@.contains(node)) by {
                assert(old(self).nodes@[least as int] == node);
            }
            assert forall|other: Node| old(self)@.count(other) > 0 implies node.priority
                <= other.priority by {
                assert(old(self).nodes@.contains(other));
            }
        }
        Some(node)
    }
}

} // verus!
