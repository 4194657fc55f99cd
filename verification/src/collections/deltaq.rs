//! A queue of weighted elements that stores each weight as the difference to the one
//! before.

use std::collections::VecDeque;
use vstd::prelude::*;

verus! {

/// An element of a [`DeltaQueue`] with the weight under which the queue stores it.
#[derive(Debug, Eq, PartialEq)]
pub struct Node<T> {
    /// The weight of this node, less the weights of all nodes before it.
    pub value: usize,
    /// The element.
    pub elem: T,
}

impl<T> Node<T> {
    /// A node of the given stored weight.
    pub fn new(value: usize, elem: T) -> (node: Self)
        ensures
            node == (Node { value, elem }),
    {
        Self { value, elem }
    }
}

/// A queue where every node has a numeric weight.
/// Nodes are stored in the queue sorted by their weight.
/// The weight within the queue is the difference to the weight of the previous node.
///
/// # Example
/// Take a queue with three nodes, weight 1, 2 and 3.
/// When we insert the first node, the queue looks as follows.
///
/// `[1]`
///
/// When we insert the second node, the weight is higher than all nodes in the queue,
/// so it's stored as the last element. The value with which it is stored is the difference
/// from its weight to the weight of the previous node. The queue looks as follows.
///
/// `[1 (first node), 1 (second node)]`
///
/// Same thing goes for the third node.
///
/// `[1 (first node), 1 (second node), 1 (third node)]`
///
/// No matter the order of insertion, in the end, the queue is always sorted like this.
/// The sum of the stored values from the front of the queue up to a node is the weight
/// that the node was inserted with.
#[derive(Debug, Eq, PartialEq)]
pub struct DeltaQueue<T> {
    data: VecDeque<Node<T>>,
}

/// The sum of the stored values of the first `n` nodes: the weight of the last of them.
pub open spec fn weight_of<T>(nodes: Seq<Node<T>>, n: int) -> int
    decreases n,
{
    if n <= 0 {
        0
    } else {
        weight_of(nodes, n - 1) + nodes[n - 1].value
    }
}

/// Whether `p` is where a node of weight `value` goes: behind every node of a smaller
/// weight, and in front of the first node whose weight is `value` or more.
pub open spec fn is_place<T>(nodes: Seq<Node<T>>, value: usize, p: int) -> bool {
    &&& 0 <= p <= nodes.len()
    &&& forall|j: int| 0 <= j < p ==> #[trigger] weight_of(nodes, j + 1) < value
    &&& p < nodes.len() ==> weight_of(nodes, p + 1) >= value
}

/// The nodes after a node of weight `value` with element `elem` went in at its place `p`:
/// the new node stores what `value` exceeds the weight of the node before it by, and the
/// node behind it stores that much less.
pub open spec fn with_node<T>(nodes: Seq<Node<T>>, value: usize, elem: T, p: int) -> Seq<Node<T>> {
    let delta = (value - weight_of(nodes, p)) as usize;
    let placed = nodes.insert(p, Node { value: delta, elem });
    if p < nodes.len() {
        placed.update(p + 1, Node { value: (nodes[p].value - delta) as usize, elem: nodes[p].elem })
    } else {
        placed
    }
}

/// `IndexMut::index_mut` of std's `VecDeque`: the element at `index`, to be changed in
/// place. Every other element stays as it is.
#[verifier::external_body]
fn node_mut<N>(data: &mut VecDeque<N>, index: usize) -> (node: &mut N)
    requires
        index < old(data)@.len(),
    ensures
        *node == old(data)@[index as int],
        final(data)@ == old(data)@.update(index as int, *final(node)),
{
    &mut data[index]
}

impl<T> View for DeltaQueue<T> {
    type V = Seq<Node<T>>;

    /// The nodes, from the front.
    closed spec fn view(&self) -> Seq<Node<T>> {
        self.data@
    }
}

impl<T> Default for DeltaQueue<T> {
    fn default() -> (queue: Self)
        ensures
            queue@ == Seq::<Node<T>>::empty(),
    {
        Self::new()
    }
}

impl<T> DeltaQueue<T> {
    /// The weight of the last node: the sum of all stored values.
    pub open spec fn total_weight(&self) -> int {
        weight_of(self@, self@.len() as int)
    }

    /// An empty queue.
    pub fn new() -> (queue: Self)
        ensures
            queue@ == Seq::<Node<T>>::empty(),
    {
        Self { data: VecDeque::new() }
    }

    /// An empty queue with room for `capacity` nodes.
    pub fn with_capacity(capacity: usize) -> (queue: Self)
        ensures
            queue@ == Seq::<Node<T>>::empty(),
    {
        Self { data: VecDeque::with_capacity(capacity) }
    }

    /// Inserts the given element with the given value into this queue.
    /// Returns a reference to the inserted element.
    pub fn insert(&mut self, value: usize, elem: T) -> (inserted: &mut T)
        requires
            old(self).total_weight() <= usize::MAX,
        ensures
            *inserted == elem,
            exists|p: int| #[trigger]
                is_place(old(self)@, value, p) && final(self)@ == with_node(
                    old(self)@,
                    value,
                    *final(inserted),
                    p,
                ),
            final(self).total_weight() == if value > old(self).total_weight() {
                value as int
            } else {
                old(self).total_weight()
            },
    {
        let ghost given = elem;
        let n: usize = self.data.len();
        let mut total_value: usize = 0;
        let mut i: usize = 0;
        while i < n
            invariant
                i <= n,
                n == self.data@.len(),
                self.data@ == old(self)@,
                given == elem,
                total_value == weight_of(self.data@, i as int),
                old(self).total_weight() <= usize::MAX,
                forall|j: int| 0 <= j < i ==> #[trigger] weight_of(self.data@, j + 1) < value,
            decreases n - i,
        {
            proof {
                lemma_weight_grows(self.data@, i + 1, n as int);
            }
            let found_value: usize = self.data[i].value;
            if total_value + found_value >= value {
                // insert at this position
                assert(i > 0 ==> weight_of(self.data@, (i - 1) + 1) < value);
                let node_value: usize = value - total_value;
                self.data.insert(i, Node::new(node_value, elem));
                // there is a next element: adapt its value
                let next = node_mut(&mut self.data, i + 1);
                next.value = next.value - node_value;
                assert(is_place(old(self)@, value, i as int));
                proof {
                    assert(self.data@ =~= with_node(old(self)@, value, given, i as int));
                    lemma_insert_keeps_weights(old(self)@, value, given, i as int);
                    lemma_weight_grows(old(self)@, i + 1, n as int);
                    lemma_weight_ignores_elements(self.data@, i as int);
                }
                return &mut node_mut(&mut self.data, i).elem;
            }
            total_value = total_value + found_value;
            i += 1;
        }
        assert(n > 0 ==> weight_of(self.data@, (n - 1) + 1) < value);
        self.data.push_back(Node::new(value - total_value, elem));
        assert(is_place(old(self)@, value, n as int));
        proof {
            assert(self.data@ =~= with_node(old(self)@, value, given, n as int));
            lemma_insert_keeps_weights(old(self)@, value, given, n as int);
            lemma_weight_ignores_elements(self.data@, n as int);
        }
        &mut node_mut(&mut self.data, n).elem
    }

    /// The node at the front.
    pub fn front(&self) -> (node: Option<&Node<T>>)
        ensures
            match node {
                Some(first) => self@.len() > 0 && *first == self@[0],
                None => self@.len() == 0,
            },
    {
        if self.data.len() > 0 {
            Some(&self.data[0])
        } else {
            None
        }
    }

    /// The node at the front, to be changed in place.
    pub fn front_mut(&mut self) -> (node: Option<&mut Node<T>>)
        ensures
            match node {
                Some(first) => old(self)@.len() > 0 && *first == old(self)@[0] && final(self)@
                    == old(self)@.update(0, *final(first)),
                None => old(self)@.len() == 0 && final(self)@ == old(self)@,
            },
    {
        if self.data.len() > 0 {
            Some(node_mut(&mut self.data, 0))
        } else {
            None
        }
    }

    /// Takes the node at the front off the queue and returns its element.
    pub fn pop_front(&mut self) -> (elem: Option<T>)
        ensures
            match elem {
                Some(e) => old(self)@.len() > 0 && e == old(self)@[0].elem && final(self)@
                    == old(self)@.skip(1),
                None => old(self)@.len() == 0 && final(self)@ == old(self)@,
            },
    {
        match self.data.pop_front() {
            Some(node) => {
                assert(self.data@ =~= old(self)@.skip(1));
                Some(node.elem)
            },
            None => None,
        }
    }

    /// The number of nodes.
    pub fn len(&self) -> (n: usize)
        ensures
            n == self@.len(),
    {
        self.data.len()
    }

    /// Whether the queue holds no node.
    pub fn is_empty(&self) -> (b: bool)
        ensures
            b == (self@.len() == 0),
    {
        self.data.len() == 0
    }

    /// The node at `index`, counted from the front.
    pub fn index(&self, index: usize) -> (node: &Node<T>)
        requires
            index < self@.len(),
        ensures
            *node == self@[index as int],
    {
        &self.data[index]
    }

    /// The node at `index`, counted from the front, to be changed in place.
    pub fn index_mut(&mut self, index: usize) -> (node: &mut Node<T>)
        requires
            index < old(self)@.len(),
        ensures
            *node == old(self)@[index as int],
            final(self)@ == old(self)@.update(index as int, *final(node)),
    {
        node_mut(&mut self.data, index)
    }
}

/// The weights of two queues agree up to `n` where their stored values do.
proof fn lemma_weight_same<T>(a: Seq<Node<T>>, b: Seq<Node<T>>, n: int)
    requires
        n <= a.len(),
        n <= b.len(),
        forall|k: int| 0 <= k < n ==> a[k].value == b[k].value,
    ensures
        weight_of(a, n) == weight_of(b, n),
    decreases n,
{
    if n > 0 {
        lemma_weight_same(a, b, n - 1);
    }
}

/// The weights of two queues differ by a constant from `m` to `n` where their stored
/// values, one of them shifted by `shift` places, agree in between.
proof fn lemma_weight_shifted<T>(a: Seq<Node<T>>, b: Seq<Node<T>>, m: int, n: int, shift: int)
    requires
        0 <= m <= n,
        0 <= m + shift,
        n <= a.len(),
        n + shift <= b.len(),
        forall|k: int| m <= k < n ==> a[k].value == b[k + shift].value,
    ensures
        weight_of(a, n) - weight_of(a, m) == weight_of(b, n + shift) - weight_of(b, m + shift),
    decreases n,
{
    if m < n {
        lemma_weight_shifted(a, b, m, n - 1, shift);
        assert(weight_of(b, n + shift) == weight_of(b, n + shift - 1) + b[n + shift - 1].value);
    }
}

/// Inserting a node leaves every node that was in the queue at its weight, and gives the
/// new node the weight that it was inserted with.
pub proof fn lemma_insert_keeps_weights<T>(nodes: Seq<Node<T>>, value: usize, elem: T, p: int)
    requires
        is_place(nodes, value, p),
        weight_of(nodes, nodes.len() as int) <= usize::MAX,
    ensures
        with_node(nodes, value, elem, p).len() == nodes.len() + 1,
        with_node(nodes, value, elem, p)[p].elem == elem,
        weight_of(with_node(nodes, value, elem, p), p + 1) == value,
        forall|k: int|
            0 <= k < p ==> #[trigger] weight_of(with_node(nodes, value, elem, p), k + 1)
                == weight_of(nodes, k + 1) && with_node(nodes, value, elem, p)[k].elem
                == nodes[k].elem,
        forall|k: int|
            p <= k < nodes.len() ==> #[trigger] weight_of(with_node(nodes, value, elem, p), k + 2)
                == weight_of(nodes, k + 1) && with_node(nodes, value, elem, p)[k + 1].elem
                == nodes[k].elem,
        weight_of(with_node(nodes, value, elem, p), nodes.len() as int + 1) == if p < nodes.len() {
            weight_of(nodes, nodes.len() as int)
        } else {
            value as int
        },
{
    let after = with_node(nodes, value, elem, p);
    lemma_weight_grows(nodes, p, nodes.len() as int);
    if p > 0 {
        assert(weight_of(nodes, (p - 1) + 1) < value);
    }
    lemma_weight_same(nodes, after, p);
    let delta = value - weight_of(nodes, p);
    assert(0 <= delta <= usize::MAX);
    assert(after[p].value == delta);
    assert(weight_of(after, p + 1) == weight_of(after, p) + after[p].value);
    if p < nodes.len() {
        assert(weight_of(nodes, p + 1) == weight_of(nodes, p) + nodes[p].value);
        assert(nodes[p].value >= delta);
        assert(after[p + 1].value == nodes[p].value - delta);
        assert(weight_of(after, p + 2) == weight_of(after, p + 1) + after[p + 1].value);
    }
    assert forall|k: int| 0 <= k < p implies #[trigger] weight_of(after, k + 1) == weight_of(
        nodes,
        k + 1,
    ) && after[k].elem == nodes[k].elem by {
        lemma_weight_same(nodes, after, k + 1);
    }
    assert forall|k: int| p <= k < nodes.len() implies #[trigger] weight_of(after, k + 2)
        == weight_of(nodes, k + 1) && after[k + 1].elem == nodes[k].elem by {
        lemma_weight_shifted(nodes, after, p + 1, k + 1, 1);
    }
    if p < nodes.len() {
        assert(weight_of(after, (nodes.len() - 1) + 2) == weight_of(nodes, (nodes.len() - 1) + 1));
    }
}

/// Replacing a node by one of the same stored value leaves the weight of the last node
/// as it is.
proof fn lemma_weight_ignores_elements<T>(nodes: Seq<Node<T>>, i: int)
    requires
        0 <= i < nodes.len(),
    ensures
        forall|node: Node<T>|
            node.value == nodes[i].value ==> weight_of(
                #[trigger] nodes.update(i, node),
                nodes.len() as int,
            ) == weight_of(nodes, nodes.len() as int),
{
    assert forall|node: Node<T>| node.value == nodes[i].value implies weight_of(
        #[trigger] nodes.update(i, node),
        nodes.len() as int,
    ) == weight_of(nodes, nodes.len() as int) by {
        lemma_weight_same(nodes, nodes.update(i, node), nodes.len() as int);
    }
}

/// Weights grow along the queue.
pub proof fn lemma_weight_grows<T>(nodes: Seq<Node<T>>, i: int, j: int)
    requires
        0 <= i <= j,
    ensures
        0 <= weight_of(nodes, i) <= weight_of(nodes, j),
    decreases j,
{
    if i < j {
        lemma_weight_grows(nodes, i, j - 1);
    } else if 0 < i {
        lemma_weight_grows(nodes, i - 1, i - 1);
    }
}

} // verus!
