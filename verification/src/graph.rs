//! Layers of typed component storage and the directed relation graph
//! between their components.

use core::marker::PhantomData;
use vstd::prelude::*;

verus! {

/// Address of one component: the layer it lives in and its slot there.
#[derive(Clone, Copy, Debug, PartialEq, Eq, Structural)]
pub struct NodePosition {
    item_idx: usize,
    layer_idx: usize,
}

impl NodePosition {
    /// Slot of the component within its layer.
    pub closed spec fn item(self) -> int {
        self.item_idx as int
    }

    /// Index of the layer the component lives in.
    pub closed spec fn layer(self) -> int {
        self.layer_idx as int
    }

    pub fn item_idx(&self) -> (r: usize)
        ensures
            r == self.item(),
    {
        self.item_idx
    }

    pub fn layer_idx(&self) -> (r: usize)
        ensures
            r == self.layer(),
    {
        self.layer_idx
    }
}

/// Registry of layers and the directed relation graph between their
/// components.  `edge_layers[start][target]` is an independently sized
/// sequence mapping a slot of the start layer to an optional slot of the
/// target layer.
#[derive(Debug)]
pub struct Graph {
    edge_layers: Vec<Vec<Vec<Option<usize>>>>,
}

impl Graph {
    /// How many layers have been registered with this graph.
    pub closed spec fn num_layers(self) -> int {
        self.edge_layers@.len() as int
    }

    /// Number of target columns in the edge row of layer `i`.
    pub closed spec fn row_count(self, i: int) -> int {
        self.edge_layers@[i]@.len() as int
    }

    /// The edge sequence for the ordered layer pair `(sl, tl)`.
    pub closed spec fn row(self, sl: int, tl: int) -> Seq<Option<usize>> {
        self.edge_layers@[sl]@[tl]@
    }

    /// Every registered layer's edge row has exactly one target column per
    /// registered layer, including itself.
    pub open spec fn wf(self) -> bool {
        forall|i: int| 0 <= i < self.num_layers() ==> #[trigger] self.row_count(i) == self.num_layers()
    }

    /// The relation recorded for slot `si` of layer `sl` towards layer `tl`.
    /// An entry beyond the row's current length and a stored empty entry both
    /// mean "no relation".
    pub open spec fn neighbor_of(self, sl: int, tl: int, si: int) -> Option<usize> {
        if 0 <= si < self.row(sl, tl).len() {
            self.row(sl, tl)[si]
        } else {
            None
        }
    }

    pub fn new() -> (r: Graph)
        ensures
            r.wf(),
            r.num_layers() == 0,
    {
        Graph { edge_layers: Vec::new() }
    }

    /// Registers a new layer with this graph: assigns the next unused layer
    /// index, extends every existing edge row with one new empty column and
    /// appends a full new row.  Returns an empty layer bound to that index.
    pub fn create_layer<T>(&mut self) -> (r: Layer<T>)
        requires
            old(self).wf(),
            old(self).num_layers() < usize::MAX,
        ensures
            final(self).wf(),
            final(self).num_layers() == old(self).num_layers() + 1,
            r.layer_index() == old(self).num_layers(),
            r@.len() == 0,
            forall|sl: int, tl: int|
                0 <= sl < old(self).num_layers() && 0 <= tl < old(self).num_layers()
                    ==> #[trigger] final(self).row(sl, tl) == old(self).row(sl, tl),
            forall|sl: int, tl: int|
                0 <= sl < final(self).num_layers() && 0 <= tl < final(self).num_layers()
                    && (sl == old(self).num_layers() || tl == old(self).num_layers())
                    ==> (#[trigger] final(self).row(sl, tl)).len() == 0,
    {
        let next_idx = self.edge_layers.len();

        // add this as a target layer to all layers that already exist
        let mut i: usize = 0;
        while i < next_idx
            invariant
                i <= next_idx,
                next_idx == self.edge_layers@.len(),
                forall|k: int| 0 <= k < i ==> #[trigger] self.row_count(k) == next_idx + 1,
                forall|k: int| i <= k < next_idx ==> #[trigger] self.row_count(k) == next_idx,
                forall|sl: int, tl: int|
                    0 <= sl < next_idx && 0 <= tl < next_idx
                        ==> #[trigger] self.row(sl, tl) == old(self).row(sl, tl),
                forall|sl: int| 0 <= sl < i ==> (#[trigger] self.row(sl, next_idx as int)).len() == 0,
                old(self).wf(),
                old(self).num_layers() == next_idx,
            decreases next_idx - i,
        {
            let ghost prev = *self;
            let target_row = &mut self.edge_layers[i];
            target_row.push(Vec::new());
            proof {
                assert forall|k: int| 0 <= k < i + 1 implies #[trigger] self.row_count(k) == next_idx + 1 by {
                    if k < i {
                        assert(prev.row_count(k) == next_idx + 1);
                        assert(self.edge_layers@[k] == prev.edge_layers@[k]);
                    } else {
                        assert(prev.row_count(i as int) == next_idx);
                    }
                }
                assert forall|k: int| i + 1 <= k < next_idx implies #[trigger] self.row_count(k) == next_idx by {
                    assert(prev.row_count(k) == next_idx);
                    assert(self.edge_layers@[k] == prev.edge_layers@[k]);
                }
                assert forall|sl: int, tl: int|
                    0 <= sl < next_idx && 0 <= tl < next_idx
                        implies #[trigger] self.row(sl, tl) == old(self).row(sl, tl) by {
                    assert(prev.row(sl, tl) == old(self).row(sl, tl));
                    if sl == i {
                        assert(prev.row_count(i as int) == next_idx);
                        assert(self.edge_layers@[sl]@[tl] == prev.edge_layers@[sl]@[tl]);
                    } else {
                        assert(self.edge_layers@[sl] == prev.edge_layers@[sl]);
                    }
                }
                assert forall|sl: int| 0 <= sl < i + 1 implies (#[trigger] self.row(
                    sl,
                    next_idx as int,
                )).len() == 0 by {
                    if sl < i {
                        assert(prev.row(sl, next_idx as int).len() == 0);
                        assert(self.edge_layers@[sl] == prev.edge_layers@[sl]);
                    } else {
                        assert(prev.row_count(i as int) == next_idx);
                        assert(self.edge_layers@[sl]@[next_idx as int]@.len() == 0);
                    }
                }
            }
            i = i + 1;
        }

        // for the new layer, add a target column for each of the already
        // existing layers plus itself
        let mut targets: Vec<Vec<Option<usize>>> = Vec::new();
        let mut j: usize = 0;
        while j <= next_idx
            invariant
                j <= next_idx + 1,
                next_idx < usize::MAX,
                targets@.len() == j,
                forall|k: int| 0 <= k < j ==> (#[trigger] targets@[k])@.len() == 0,
            decreases next_idx + 1 - j,
        {
            targets.push(Vec::new());
            j = j + 1;
        }
        let ghost before_push = *self;
        self.edge_layers.push(targets);

        proof {
            assert forall|k: int| 0 <= k < next_idx + 1 implies #[trigger] self.row_count(k) == next_idx
                + 1 by {
                if k < next_idx {
                    assert(before_push.row_count(k) == next_idx + 1);
                    assert(self.edge_layers@[k] == before_push.edge_layers@[k]);
                }
            }
            assert forall|sl: int, tl: int|
                0 <= sl < next_idx && 0 <= tl < next_idx
                    implies #[trigger] self.row(sl, tl) == old(self).row(sl, tl) by {
                assert(before_push.row(sl, tl) == old(self).row(sl, tl));
                assert(self.edge_layers@[sl] == before_push.edge_layers@[sl]);
            }
            assert forall|sl: int, tl: int|
                0 <= sl < next_idx + 1 && 0 <= tl < next_idx + 1 && (sl == next_idx || tl
                    == next_idx) implies (#[trigger] self.row(sl, tl)).len() == 0 by {
                if sl < next_idx {
                    assert(before_push.row(sl, next_idx as int).len() == 0);
                    assert(self.edge_layers@[sl] == before_push.edge_layers@[sl]);
                }
            }
        }

        Layer { index: next_idx, content: Vec::new() }
    }
}

/// The effect of writing the one-way edge `start -> end`: the slot for
/// `start` now records `end`'s slot, and no other relation in the graph
/// changed.
pub open spec fn edge_written(pre: Graph, post: Graph, start: NodePosition, end: NodePosition) -> bool {
    &&& post.num_layers() == pre.num_layers()
    &&& post.neighbor_of(start.layer(), end.layer(), start.item()) == Some(end.item() as usize)
    &&& forall|j: int|
        j != start.item() ==> #[trigger] post.neighbor_of(start.layer(), end.layer(), j)
            == pre.neighbor_of(start.layer(), end.layer(), j)
    &&& forall|l: int, t: int|
        0 <= l < pre.num_layers() && 0 <= t < pre.num_layers() && !(l == start.layer() && t
            == end.layer()) ==> #[trigger] post.row(l, t) == pre.row(l, t)
}

impl Graph {
    /// Appends one entry to the edge row for the layer pair `(sl, tl)`.
    fn push_entry(&mut self, sl: usize, tl: usize, e: Option<usize>)
        requires
            0 <= sl < old(self).num_layers(),
            0 <= tl < old(self).row_count(sl as int),
        ensures
            final(self).num_layers() == old(self).num_layers(),
            forall|k: int|
                0 <= k < old(self).num_layers() ==> #[trigger] final(self).row_count(k) == old(
                    self,
                ).row_count(k),
            final(self).row(sl as int, tl as int) == old(self).row(sl as int, tl as int).push(e),
            forall|l: int, t: int|
                0 <= l < old(self).num_layers() && 0 <= t < old(self).row_count(l) && !(l == sl && t
                    == tl) ==> #[trigger] final(self).row(l, t) == old(self).row(l, t),
    {
        let ghost pre = *self;
        let rows = &mut self.edge_layers[sl];
        let edge_vec = &mut rows[tl];
        edge_vec.push(e);
        proof {
            assert forall|k: int| 0 <= k < pre.num_layers() implies #[trigger] self.row_count(k)
                == pre.row_count(k) by {
                if k != sl {
                    assert(self.edge_layers@[k] == pre.edge_layers@[k]);
                }
            }
            assert forall|l: int, t: int|
                0 <= l < pre.num_layers() && 0 <= t < pre.row_count(l) && !(l == sl && t == tl)
                    implies #[trigger] self.row(l, t) == pre.row(l, t) by {
                if l == sl {
                    assert(self.edge_layers@[l]@[t] == pre.edge_layers@[l]@[t]);
                } else {
                    assert(self.edge_layers@[l] == pre.edge_layers@[l]);
                }
            }
        }
    }

    /// Overwrites the entry at slot `si` of the edge row for `(sl, tl)`.
    fn set_entry(&mut self, sl: usize, tl: usize, si: usize, e: Option<usize>)
        requires
            0 <= sl < old(self).num_layers(),
            0 <= tl < old(self).row_count(sl as int),
            0 <= si < old(self).row(sl as int, tl as int).len(),
        ensures
            final(self).num_layers() == old(self).num_layers(),
            forall|k: int|
                0 <= k < old(self).num_layers() ==> #[trigger] final(self).row_count(k) == old(
                    self,
                ).row_count(k),
            final(self).row(sl as int, tl as int) == old(self).row(sl as int, tl as int).update(
                si as int,
                e,
            ),
            forall|l: int, t: int|
                0 <= l < old(self).num_layers() && 0 <= t < old(self).row_count(l) && !(l == sl && t
                    == tl) ==> #[trigger] final(self).row(l, t) == old(self).row(l, t),
    {
        let ghost pre = *self;
        let rows = &mut self.edge_layers[sl];
        let edge_vec = &mut rows[tl];
        edge_vec[si] = e;
        proof {
            assert forall|k: int| 0 <= k < pre.num_layers() implies #[trigger] self.row_count(k)
                == pre.row_count(k) by {
                if k != sl {
                    assert(self.edge_layers@[k] == pre.edge_layers@[k]);
                }
            }
            assert forall|l: int, t: int|
                0 <= l < pre.num_layers() && 0 <= t < pre.row_count(l) && !(l == sl && t == tl)
                    implies #[trigger] self.row(l, t) == pre.row(l, t) by {
                if l == sl {
                    assert(self.edge_layers@[l]@[t] == pre.edge_layers@[l]@[t]);
                } else {
                    assert(self.edge_layers@[l] == pre.edge_layers@[l]);
                }
            }
        }
    }

    /// Length of the edge row for the layer pair `(sl, tl)`.
    fn row_len(&self, sl: usize, tl: usize) -> (r: usize)
        requires
            0 <= sl < self.num_layers(),
            0 <= tl < self.row_count(sl as int),
        ensures
            r == self.row(sl as int, tl as int).len(),
    {
        self.edge_layers[sl][tl].len()
    }

    /// Writes the directed edge from `start`'s position to `end`'s position.
    /// If `start`'s slot lies beyond the current row, the row is padded with
    /// empty entries first.  The slot must not already hold a relation:
    /// overwriting an edge is a program error, the guardrail behind shared
    /// ownership (use distinct start slots to share one target).
    pub fn connect_oneway(&mut self, start: &NodePosition, end: &NodePosition)
        requires
            old(self).wf(),
            0 <= start.layer() < old(self).num_layers(),
            0 <= end.layer() < old(self).num_layers(),
            old(self).neighbor_of(start.layer(), end.layer(), start.item()) is None,
        ensures
            final(self).wf(),
            edge_written(*old(self), *final(self), *start, *end),
    {
        let sl = start.layer_idx;
        let tl = end.layer_idx;
        let si = start.item_idx;
        let ti = end.item_idx;
        // extend the edge row when adding an edge past its current end;
        // the space is not allocated up front because it is likely unused
        if self.row_len(sl, tl) <= si {
            while self.row_len(sl, tl) < si
                invariant
                    0 <= sl < self.num_layers(),
                    0 <= tl < self.row_count(sl as int),
                    self.num_layers() == old(self).num_layers(),
                    forall|k: int|
                        0 <= k < old(self).num_layers() ==> #[trigger] self.row_count(k) == old(
                            self,
                        ).row_count(k),
                    old(self).row(sl as int, tl as int).len() <= self.row(
                        sl as int,
                        tl as int,
                    ).len() <= si,
                    forall|j: int|
                        0 <= j < self.row(sl as int, tl as int).len()
                            ==> #[trigger] self.row(sl as int, tl as int)[j] == old(
                            self,
                        ).neighbor_of(sl as int, tl as int, j),
                    forall|l: int, t: int|
                        0 <= l < old(self).num_layers() && 0 <= t < old(self).row_count(l) && !(l
                            == sl && t == tl) ==> #[trigger] self.row(l, t) == old(self).row(l, t),
                decreases si - self.row(sl as int, tl as int).len(),
            {
                self.push_entry(sl, tl, None);
            }
            self.push_entry(sl, tl, Some(ti));
        } else {
            self.set_entry(sl, tl, si, Some(ti));
        }
    }

    /// Connects two nodes both ways: exactly the composition of the two
    /// one-way connects `node1 -> node2` and `node2 -> node1`.
    pub fn connect(&mut self, node1: &NodePosition, node2: &NodePosition)
        requires
            old(self).wf(),
            0 <= node1.layer() < old(self).num_layers(),
            0 <= node2.layer() < old(self).num_layers(),
            old(self).neighbor_of(node1.layer(), node2.layer(), node1.item()) is None,
            old(self).neighbor_of(node2.layer(), node1.layer(), node2.item()) is None,
            !(node1.layer() == node2.layer() && node1.item() == node2.item()),
        ensures
            final(self).wf(),
            final(self).num_layers() == old(self).num_layers(),
            final(self).neighbor_of(node1.layer(), node2.layer(), node1.item()) == Some(
                node2.item() as usize,
            ),
            final(self).neighbor_of(node2.layer(), node1.layer(), node2.item()) == Some(
                node1.item() as usize,
            ),
            forall|l: int, t: int, j: int|
                0 <= l < old(self).num_layers() && 0 <= t < old(self).num_layers() && !(l
                    == node1.layer() && t == node2.layer() && j == node1.item()) && !(l
                    == node2.layer() && t == node1.layer() && j == node2.item())
                    ==> #[trigger] final(self).neighbor_of(l, t, j) == old(self).neighbor_of(
                    l,
                    t,
                    j,
                ),
    {
        self.connect_oneway(node1, node2);
        let ghost mid = *self;
        self.connect_oneway(node2, node1);
        proof {
            if node1.layer() != node2.layer() {
                assert(self.row(node1.layer(), node2.layer()) == mid.row(
                    node1.layer(),
                    node2.layer(),
                ));
            }
            assert(self.neighbor_of(node1.layer(), node2.layer(), node1.item()) == mid.neighbor_of(
                node1.layer(),
                node2.layer(),
                node1.item(),
            ));
            assert forall|l: int, t: int, j: int|
                0 <= l < old(self).num_layers() && 0 <= t < old(self).num_layers() && !(l
                    == node1.layer() && t == node2.layer() && j == node1.item()) && !(l
                    == node2.layer() && t == node1.layer() && j == node2.item())
                    implies #[trigger] self.neighbor_of(l, t, j) == old(self).neighbor_of(
                    l,
                    t,
                    j,
                ) by {
                if l == node2.layer() && t == node1.layer() {
                    assert(self.neighbor_of(l, t, j) == mid.neighbor_of(l, t, j));
                } else {
                    assert(self.row(l, t) == mid.row(l, t));
                }
                if l == node1.layer() && t == node2.layer() {
                    assert(mid.neighbor_of(l, t, j) == old(self).neighbor_of(l, t, j));
                } else {
                    assert(mid.row(l, t) == old(self).row(l, t));
                }
            }
        }
    }

    /// Bounds-checked, constant-time lookup of the relation recorded from
    /// `node` towards `to_layer`.  Returns an empty result both for a slot
    /// beyond the row's current length and for an explicitly empty entry.
    pub fn get_neighbor<To>(&self, node: &NodePosition, to_layer: &Layer<To>) -> (r: Option<
        NodeRef<To>,
    >)
        requires
            self.wf(),
            0 <= node.layer() < self.num_layers(),
            0 <= to_layer.layer_index() < self.num_layers(),
            forall|ti: usize|
                self.neighbor_of(node.layer(), to_layer.layer_index(), node.item()) == Some(ti)
                    ==> ti < to_layer@.len(),
        ensures
            match r {
                Some(h) => {
                    &&& self.neighbor_of(node.layer(), to_layer.layer_index(), node.item())
                        == Some(h.pos_spec().item() as usize)
                    &&& h.pos_spec().layer() == to_layer.layer_index()
                    &&& h.valid_for(*to_layer)
                },
                None => self.neighbor_of(node.layer(), to_layer.layer_index(), node.item())
                    is None,
            },
    {
        proof {
            assert(self.row_count(node.layer()) == self.num_layers());
        }
        let edge_row = &self.edge_layers[node.layer_idx];
        let row = &edge_row[to_layer.index];
        if row.len() <= node.item_idx {
            None
        } else {
            match row[node.item_idx] {
                Some(to_id) => Some(
                    NodeRef {
                        pos: NodePosition { item_idx: to_id, layer_idx: to_layer.index },
                        _marker: PhantomData,
                    },
                ),
                None => None,
            }
        }
    }

    /// The same lookup as `get_neighbor`, but the handle it returns grants
    /// exclusive access, so the target layer is borrowed exclusively for the
    /// call.
    pub fn get_neighbor_mut<To>(&self, node: &NodePosition, to_layer: &mut Layer<To>) -> (r:
        Option<NodeRefMut<To>>)
        requires
            self.wf(),
            0 <= node.layer() < self.num_layers(),
            0 <= old(to_layer).layer_index() < self.num_layers(),
            forall|ti: usize|
                self.neighbor_of(node.layer(), old(to_layer).layer_index(), node.item()) == Some(
                    ti,
                ) ==> ti < old(to_layer)@.len(),
        ensures
            *final(to_layer) == *old(to_layer),
            match r {
                Some(h) => {
                    &&& self.neighbor_of(node.layer(), old(to_layer).layer_index(), node.item())
                        == Some(h.pos_spec().item() as usize)
                    &&& h.pos_spec().layer() == old(to_layer).layer_index()
                    &&& h.valid_for(*old(to_layer))
                },
                None => self.neighbor_of(node.layer(), old(to_layer).layer_index(), node.item())
                    is None,
            },
    {
        proof {
            assert(self.row_count(node.layer()) == self.num_layers());
        }
        let edge_row = &self.edge_layers[node.layer_idx];
        let row = &edge_row[to_layer.index];
        if row.len() <= node.item_idx {
            None
        } else {
            match row[node.item_idx] {
                Some(to_id) => Some(
                    NodeRefMut {
                        pos: NodePosition { item_idx: to_id, layer_idx: to_layer.index },
                        _marker: PhantomData,
                    },
                ),
                None => None,
            }
        }
    }

    /// Number of target columns currently present in the edge row of the
    /// layer registered at `start_layer`.
    pub fn target_count(&self, start_layer: usize) -> (r: usize)
        requires
            0 <= start_layer < self.num_layers(),
        ensures
            r == self.row_count(start_layer as int),
    {
        self.edge_layers[start_layer].len()
    }
}

/// Exclusive, dense, append-only storage for every component of one type.
pub struct Layer<T> {
    index: usize,
    content: Vec<T>,
}

impl<T> View for Layer<T> {
    type V = Seq<T>;

    closed spec fn view(&self) -> Seq<T> {
        self.content@
    }
}

impl<T> Layer<T> {
    /// The layer index this layer was registered under in its graph.
    pub closed spec fn layer_index(self) -> int {
        self.index as int
    }

    pub fn index(&self) -> (r: usize)
        ensures
            r == self.layer_index(),
    {
        self.index
    }

    pub fn len(&self) -> (r: usize)
        ensures
            r == self@.len(),
    {
        self.content.len()
    }

    /// Appends a component to the end of the layer and returns an exclusive
    /// handle to the new slot.
    pub fn push(&mut self, component: T) -> (r: NodeRefMut<T>)
        ensures
            final(self)@ == old(self)@.push(component),
            final(self).layer_index() == old(self).layer_index(),
            r.pos_spec().layer() == old(self).layer_index(),
            r.pos_spec().item() == old(self)@.len(),
            r.valid_for(*final(self)),
    {
        let id = self.content.len();
        self.content.push(component);

        NodeRefMut {
            pos: NodePosition { item_idx: id, layer_idx: self.index },
            _marker: PhantomData,
        }
    }

    /// Handles to every slot of the layer, in storage order, as they stood
    /// when the traversal was started.
    pub fn iter(&self) -> (r: LayerIter<T>)
        ensures
            r.layer() == self.layer_index(),
            r.cursor() == 0,
            r.limit() == self@.len(),
    {
        LayerIter { layer_idx: self.index, next_idx: 0, len: self.content.len(), _marker: PhantomData }
    }

    /// Like `iter`, but the handles it yields grant exclusive access.
    pub fn iter_mut(&mut self) -> (r: LayerIterMut<T>)
        ensures
            *final(self) == *old(self),
            r.layer() == old(self).layer_index(),
            r.cursor() == 0,
            r.limit() == old(self)@.len(),
    {
        LayerIterMut {
            layer_idx: self.index,
            next_idx: 0,
            len: self.content.len(),
            _marker: PhantomData,
        }
    }
}

/// Yields a read handle for each slot of one layer, in storage order.
pub struct LayerIter<T> {
    layer_idx: usize,
    next_idx: usize,
    len: usize,
    _marker: PhantomData<T>,
}

impl<T> LayerIter<T> {
    pub closed spec fn layer(self) -> int {
        self.layer_idx as int
    }

    pub closed spec fn cursor(self) -> int {
        self.next_idx as int
    }

    pub closed spec fn limit(self) -> int {
        self.len as int
    }

    /// The next handle in storage order, or nothing once every slot the
    /// traversal covers has been yielded.
    pub fn next(&mut self) -> (r: Option<NodeRef<T>>)
        ensures
            final(self).layer() == old(self).layer(),
            final(self).limit() == old(self).limit(),
            match r {
                Some(h) => {
                    &&& old(self).cursor() < old(self).limit()
                    &&& final(self).cursor() == old(self).cursor() + 1
                    &&& h.pos_spec().layer() == old(self).layer()
                    &&& h.pos_spec().item() == old(self).cursor()
                },
                None => {
                    &&& old(self).cursor() >= old(self).limit()
                    &&& *final(self) == *old(self)
                },
            },
    {
        if self.next_idx < self.len {
            let item_idx = self.next_idx;
            self.next_idx = self.next_idx + 1;
            Some(
                NodeRef {
                    pos: NodePosition { item_idx, layer_idx: self.layer_idx },
                    _marker: PhantomData,
                },
            )
        } else {
            None
        }
    }
}

/// Yields an exclusive handle for each slot of one layer, in storage order.
pub struct LayerIterMut<T> {
    layer_idx: usize,
    next_idx: usize,
    len: usize,
    _marker: PhantomData<T>,
}

impl<T> LayerIterMut<T> {
    pub closed spec fn layer(self) -> int {
        self.layer_idx as int
    }

    pub closed spec fn cursor(self) -> int {
        self.next_idx as int
    }

    pub closed spec fn limit(self) -> int {
        self.len as int
    }

    /// The next handle in storage order, or nothing once every slot the
    /// traversal covers has been yielded.
    pub fn next(&mut self) -> (r: Option<NodeRefMut<T>>)
        ensures
            final(self).layer() == old(self).layer(),
            final(self).limit() == old(self).limit(),
            match r {
                Some(h) => {
                    &&& old(self).cursor() < old(self).limit()
                    &&& final(self).cursor() == old(self).cursor() + 1
                    &&& h.pos_spec().layer() == old(self).layer()
                    &&& h.pos_spec().item() == old(self).cursor()
                },
                None => {
                    &&& old(self).cursor() >= old(self).limit()
                    &&& *final(self) == *old(self)
                },
            },
    {
        if self.next_idx < self.len {
            let item_idx = self.next_idx;
            self.next_idx = self.next_idx + 1;
            Some(
                NodeRefMut {
                    pos: NodePosition { item_idx, layer_idx: self.layer_idx },
                    _marker: PhantomData,
                },
            )
        } else {
            None
        }
    }
}

/// Read handle to one component: its address, resolved against the owning
/// layer for access.
pub struct NodeRef<T> {
    pos: NodePosition,
    _marker: PhantomData<T>,
}

impl<T> NodeRef<T> {
    /// The address this handle grants access to.
    pub closed spec fn pos_spec(self) -> NodePosition {
        self.pos
    }

    /// The handle addresses a slot that exists in `layer`.
    pub open spec fn valid_for(self, layer: Layer<T>) -> bool {
        &&& self.pos_spec().layer() == layer.layer_index()
        &&& 0 <= self.pos_spec().item() < layer@.len()
    }

    pub fn pos(&self) -> (r: NodePosition)
        ensures
            r == self.pos_spec(),
    {
        self.pos
    }

    /// The component this handle addresses.
    pub fn read<'a>(&self, layer: &'a Layer<T>) -> (r: &'a T)
        requires
            self.valid_for(*layer),
        ensures
            *r == layer@[self.pos_spec().item()],
    {
        &layer.content[self.pos.item_idx]
    }

    /// Discards the scoped access and keeps only the position, as a typed
    /// back-reference that is safe to store indefinitely.
    pub fn downgrade(self) -> (r: WeakNodeRef<T>)
        ensures
            r.pos_spec() == self.pos_spec(),
    {
        WeakNodeRef { pos: self.pos, _marker: PhantomData }
    }
}

/// Exclusive handle to one component: its address, resolved against the
/// owning layer for reading and writing.
pub struct NodeRefMut<T> {
    pos: NodePosition,
    _marker: PhantomData<T>,
}

impl<T> NodeRefMut<T> {
    /// The address this handle grants access to.
    pub closed spec fn pos_spec(self) -> NodePosition {
        self.pos
    }

    /// The handle addresses a slot that exists in `layer`.
    pub open spec fn valid_for(self, layer: Layer<T>) -> bool {
        &&& self.pos_spec().layer() == layer.layer_index()
        &&& 0 <= self.pos_spec().item() < layer@.len()
    }

    pub fn pos(&self) -> (r: NodePosition)
        ensures
            r == self.pos_spec(),
    {
        self.pos
    }

    /// The component this handle addresses.
    pub fn read<'a>(&self, layer: &'a Layer<T>) -> (r: &'a T)
        requires
            self.valid_for(*layer),
        ensures
            *r == layer@[self.pos_spec().item()],
    {
        &layer.content[self.pos.item_idx]
    }

    /// Replaces the component this handle addresses.
    pub fn write(&self, layer: &mut Layer<T>, component: T)
        requires
            self.valid_for(*old(layer)),
        ensures
            final(layer)@ == old(layer)@.update(self.pos_spec().item(), component),
            final(layer).layer_index() == old(layer).layer_index(),
    {
        layer.content[self.pos.item_idx] = component;
    }

    /// Discards the scoped access and keeps only the position, as a typed
    /// back-reference that is safe to store indefinitely.
    pub fn downgrade(self) -> (r: WeakNodeRef<T>)
        ensures
            r.pos_spec() == self.pos_spec(),
    {
        WeakNodeRef { pos: self.pos, _marker: PhantomData }
    }
}

/// A position-only, typed back-reference: relation plus lookup key, never
/// ownership.  It must be resolved ("upgraded") against the owning layer to
/// regain access.  Components are never removed or reordered, so a stored
/// weak reference cannot dangle in this version.
pub struct WeakNodeRef<T> {
    pos: NodePosition,
    _marker: PhantomData<T>,
}

impl<T> WeakNodeRef<T> {
    /// The address this back-reference remembers.
    pub closed spec fn pos_spec(self) -> NodePosition {
        self.pos
    }

    pub fn pos(&self) -> (r: NodePosition)
        ensures
            r == self.pos_spec(),
    {
        self.pos
    }

    /// Resolves the back-reference into a live read handle.  The supplied
    /// layer must be the one the component belongs to: resolving against a
    /// layer with a different index is a program error.
    pub fn upgrade(&self, layer: &Layer<T>) -> (r: NodeRef<T>)
        requires
            layer.layer_index() == self.pos_spec().layer(),
            self.pos_spec().item() < layer@.len(),
        ensures
            r.pos_spec() == self.pos_spec(),
            r.valid_for(*layer),
    {
        NodeRef { pos: self.pos, _marker: PhantomData }
    }

    /// Resolves the back-reference into a live exclusive handle.  The same
    /// layer-identity rule as for `upgrade` applies.
    pub fn upgrade_mut(&self, layer: &mut Layer<T>) -> (r: NodeRefMut<T>)
        requires
            old(layer).layer_index() == self.pos_spec().layer(),
            self.pos_spec().item() < old(layer)@.len(),
        ensures
            *final(layer) == *old(layer),
            r.pos_spec() == self.pos_spec(),
            r.valid_for(*final(layer)),
    {
        NodeRefMut { pos: self.pos, _marker: PhantomData }
    }
}

/// One-way connection resolves only forward: after writing the single edge
/// `start -> end` on top of `pre`, the forward relation holds, and the
/// reverse relation is exactly what it was before (so it stays absent when
/// it was absent).
pub proof fn lemma_oneway_is_directed(pre: Graph, post: Graph, start: NodePosition, end: NodePosition)
    requires
        edge_written(pre, post, start, end),
        0 <= start.layer() < pre.num_layers(),
        0 <= end.layer() < pre.num_layers(),
        !(start.layer() == end.layer() && start.item() == end.item()),
    ensures
        post.neighbor_of(start.layer(), end.layer(), start.item()) == Some(end.item() as usize),
        post.neighbor_of(end.layer(), start.layer(), end.item()) == pre.neighbor_of(
            end.layer(),
            start.layer(),
            end.item(),
        ),
{
    if end.layer() == start.layer() {
        assert(post.neighbor_of(end.layer(), start.layer(), end.item()) == pre.neighbor_of(
            end.layer(),
            start.layer(),
            end.item(),
        ));
    } else {
        assert(post.row(end.layer(), start.layer()) == pre.row(end.layer(), start.layer()));
    }
}

/// A two-way connect, the composition of the one-way connects
/// `node1 -> node2` and `node2 -> node1`, leaves both queries resolving:
/// each node is the recorded neighbor of the other.
pub proof fn lemma_connect_resolves_both_ways(
    pre: Graph,
    mid: Graph,
    post: Graph,
    node1: NodePosition,
    node2: NodePosition,
)
    requires
        edge_written(pre, mid, node1, node2),
        edge_written(mid, post, node2, node1),
        0 <= node1.layer() < pre.num_layers(),
        0 <= node2.layer() < pre.num_layers(),
        !(node1.layer() == node2.layer() && node1.item() == node2.item()),
    ensures
        post.neighbor_of(node1.layer(), node2.layer(), node1.item()) == Some(
            node2.item() as usize,
        ),
        post.neighbor_of(node2.layer(), node1.layer(), node2.item()) == Some(
            node1.item() as usize,
        ),
{
    if node1.layer() == node2.layer() {
        assert(post.neighbor_of(node1.layer(), node2.layer(), node1.item()) == mid.neighbor_of(
            node1.layer(),
            node2.layer(),
            node1.item(),
        ));
    } else {
        assert(post.row(node1.layer(), node2.layer()) == mid.row(node1.layer(), node2.layer()));
    }
}

/// Shared ownership: writing one-way edges from two distinct start slots of
/// the same layer towards one shared target leaves both forward queries
/// resolving to that same target.
pub proof fn lemma_shared_target_resolves(
    pre: Graph,
    mid: Graph,
    post: Graph,
    node1: NodePosition,
    node2: NodePosition,
    target: NodePosition,
)
    requires
        edge_written(pre, mid, node1, target),
        edge_written(mid, post, node2, target),
        node1.layer() == node2.layer(),
        node1.item() != node2.item(),
    ensures
        post.neighbor_of(node1.layer(), target.layer(), node1.item()) == Some(
            target.item() as usize,
        ),
        post.neighbor_of(node2.layer(), target.layer(), node2.item()) == Some(
            target.item() as usize,
        ),
{
    assert(post.neighbor_of(node1.layer(), target.layer(), node1.item()) == mid.neighbor_of(
        node1.layer(),
        target.layer(),
        node1.item(),
    ));
}

/// Downgrading a handle and upgrading the result against the originating
/// layer yields a handle for the same address, and so for the same
/// component.
pub proof fn lemma_downgrade_upgrade_identity<T>(
    layer: Layer<T>,
    original: NodeRef<T>,
    weak: WeakNodeRef<T>,
    restored: NodeRef<T>,
)
    requires
        original.valid_for(layer),
        weak.pos_spec() == original.pos_spec(),
        restored.pos_spec() == weak.pos_spec(),
    ensures
        restored.pos_spec() == original.pos_spec(),
        restored.valid_for(layer),
        layer@[restored.pos_spec().item()] == layer@[original.pos_spec().item()],
{
}

} // verus!
