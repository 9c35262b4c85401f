//! The index itself: records in exclusively owned nodes.

use crate::model::{DeviceView, TreeModel};
use vstd::prelude::*;

verus! {

/// A device record: a numeric identifier and an address.
#[derive(Clone, Debug)]
pub struct IoTDevice {
    pub numerical_id: u64,
    pub address: String,
}

impl View for IoTDevice {
    type V = DeviceView;

    open spec fn view(&self) -> DeviceView {
        DeviceView { numerical_id: self.numerical_id, address: self.address@ }
    }
}

impl IoTDevice {
    /// A copy of the record that the caller owns.
    fn copy(&self) -> (r: IoTDevice)
        ensures
            r@ == self@,
    {
        IoTDevice { numerical_id: self.numerical_id, address: self.address.clone() }
    }
}

/// The views of a sequence of records, in the same order.
pub open spec fn views(s: Seq<IoTDevice>) -> Seq<DeviceView> {
    s.map_values(|d: IoTDevice| d@)
}

#[derive(Debug)]
struct Node {
    dev: IoTDevice,
    left: Option<Box<Node>>,
    right: Option<Box<Node>>,
}

/// The model of a subtree, absent or present.
spec fn model_of(t: Option<Box<Node>>) -> TreeModel
    decreases t,
{
    match t {
        None => TreeModel::Empty,
        Some(n) => TreeModel::Branch {
            left: Box::new(model_of(n.left)),
            dev: n.dev@,
            right: Box::new(model_of(n.right)),
        },
    }
}

impl Node {
    fn new(dev: IoTDevice) -> (r: Option<Box<Node>>)
        ensures
            model_of(r) == TreeModel::Empty.insert(dev@),
    {
        let node: Node = Node { dev: dev, left: None, right: None };
        proof {
            assert(model_of(node.left) == TreeModel::Empty);
            assert(model_of(node.right) == TreeModel::Empty);
        }
        Some(Box::new(node))
    }
}

/// An ordered index of device records keyed by identifier. Duplicate
/// identifiers are kept as distinct records. It has no locking of its own:
/// callers that share it between threads guard it with a single lock.
#[derive(Debug)]
pub struct BinarySearchTree {
    root: Option<Box<Node>>,
    length: u64,
}

impl View for BinarySearchTree {
    type V = TreeModel;

    closed spec fn view(&self) -> TreeModel {
        model_of(self.root)
    }
}

impl BinarySearchTree {
    /// The count matches the records held, and the tree is ordered.
    pub closed spec fn wf(&self) -> bool {
        &&& self.length == self@.size()
        &&& self@.ordered()
    }

    /// An empty index.
    pub fn new() -> (r: BinarySearchTree)
        ensures
            r.wf(),
            r@ == TreeModel::Empty,
    {
        BinarySearchTree { root: None, length: 0 }
    }

    /// The number of records inserted so far.
    pub fn size(&self) -> (r: u64)
        requires
            self.wf(),
        ensures
            r == self@.size(),
    {
        self.length
    }

    /// Inserts `device`, also where a record with its identifier is already
    /// held.
    pub fn add(&mut self, device: IoTDevice)
        requires
            old(self).wf(),
            old(self)@.size() < u64::MAX,
        ensures
            final(self).wf(),
            final(self)@ == old(self)@.insert(device@),
            final(self)@.size() == old(self)@.size() + 1,
    {
        proof {
            crate::model::lemma_insert_size(self@, device@);
            crate::model::lemma_insert_ordered(self@, device@);
        }
        self.length = self.length + 1;
        let root = self.root.take();
        self.root = Self::add_rec(root, device);
    }

    fn add_rec(node: Option<Box<Node>>, device: IoTDevice) -> (r: Option<Box<Node>>)
        ensures
            model_of(r) == model_of(node).insert(device@),
        decreases node,
    {
        match node {
            Some(n) => {
                let Node { dev, left, right } = *n;
                if dev.numerical_id <= device.numerical_id {
                    let left = Self::add_rec(left, device);
                    Some(Box::new(Node { dev, left, right }))
                } else {
                    let right = Self::add_rec(right, device);
                    Some(Box::new(Node { dev, left, right }))
                }
            },
            None => Node::new(device),
        }
    }

    /// A copy of the first record with identifier `numerical_id` on the
    /// search path, or `None` where the path holds none.
    pub fn find(&self, numerical_id: u64) -> (r: Option<IoTDevice>)
        ensures
            r matches Some(d) ==> self@.find(numerical_id) == Some(d@),
            r is None ==> self@.find(numerical_id) is None,
    {
        Self::find_r(&self.root, numerical_id)
    }

    fn find_r(node: &Option<Box<Node>>, numerical_id: u64) -> (r: Option<IoTDevice>)
        ensures
            r matches Some(d) ==> model_of(*node).find(numerical_id) == Some(d@),
            r is None ==> model_of(*node).find(numerical_id) is None,
        decreases node,
    {
        match node {
            Some(n) => {
                if n.dev.numerical_id == numerical_id {
                    Some(n.dev.copy())
                } else if n.dev.numerical_id < numerical_id {
                    Self::find_r(&n.left, numerical_id)
                } else {
                    Self::find_r(&n.right, numerical_id)
                }
            },
            None => None,
        }
    }

    /// Copies of all records, in the order of an in-order walk (left
    /// subtree, node, right subtree): from the largest identifier down.
    pub fn walk(&self) -> (r: Vec<IoTDevice>)
        ensures
            views(r@) == self@.in_order(),
    {
        let mut out: Vec<IoTDevice> = Vec::new();
        proof {
            assert(views(out@) =~= Seq::empty());
        }
        Self::walk_in_order(&self.root, &mut out);
        proof {
            assert(views(out@) =~= self@.in_order());
        }
        out
    }

    fn walk_in_order(node: &Option<Box<Node>>, out: &mut Vec<IoTDevice>)
        ensures
            views(final(out)@) =~= views(old(out)@) + model_of(*node).in_order(),
        decreases node,
    {
        if let Some(n) = node {
            Self::walk_in_order(&n.left, out);
            let ghost before = views(out@);
            out.push(n.dev.copy());
            proof {
                assert(views(out@) =~= before.push(n.dev@));
            }
            Self::walk_in_order(&n.right, out);
        }
    }
}

} // verus!
