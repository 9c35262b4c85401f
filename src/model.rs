//! The mathematical model of the index: plain records and a tree of them.

use vstd::multiset::Multiset;
use vstd::prelude::*;

verus! {

/// What a stored device record holds, as plain values.
pub struct DeviceView {
    pub numerical_id: u64,
    pub address: Seq<char>,
}

/// An index as a mathematical tree of records.
pub enum TreeModel {
    Empty,
    Branch { left: Box<TreeModel>, dev: DeviceView, right: Box<TreeModel> },
}

impl TreeModel {
    /// The number of records in the tree.
    pub open spec fn size(self) -> nat
        decreases self,
    {
        match self {
            TreeModel::Empty => 0,
            TreeModel::Branch { left, right, .. } => left.size() + 1 + right.size(),
        }
    }

    /// The records in the tree, with their multiplicities.
    pub open spec fn contents(self) -> Multiset<DeviceView>
        decreases self,
    {
        match self {
            TreeModel::Empty => Multiset::empty(),
            TreeModel::Branch { left, dev, right } => left.contents().add(right.contents()).insert(dev),
        }
    }

    /// The records in the order of a walk: left subtree, node, right subtree.
    pub open spec fn in_order(self) -> Seq<DeviceView>
        decreases self,
    {
        match self {
            TreeModel::Empty => Seq::empty(),
            TreeModel::Branch { left, dev, right } => left.in_order().push(dev) + right.in_order(),
        }
    }

    /// The tree after placing `d`: at each node, an identifier greater than or
    /// equal to the node's descends left, a smaller one descends right.
    pub open spec fn insert(self, d: DeviceView) -> TreeModel
        decreases self,
    {
        match self {
            TreeModel::Empty => TreeModel::Branch {
                left: Box::new(TreeModel::Empty),
                dev: d,
                right: Box::new(TreeModel::Empty),
            },
            TreeModel::Branch { left, dev, right } => {
                if dev.numerical_id <= d.numerical_id {
                    TreeModel::Branch { left: Box::new(left.insert(d)), dev, right }
                } else {
                    TreeModel::Branch { left, dev, right: Box::new(right.insert(d)) }
                }
            },
        }
    }

    /// The first record with identifier `id` on the search path, which
    /// descends left where the sought identifier is greater than the node's
    /// and right where it is smaller.
    pub open spec fn find(self, id: u64) -> Option<DeviceView>
        decreases self,
    {
        match self {
            TreeModel::Empty => None,
            TreeModel::Branch { left, dev, right } => {
                if dev.numerical_id == id {
                    Some(dev)
                } else if dev.numerical_id < id {
                    left.find(id)
                } else {
                    right.find(id)
                }
            },
        }
    }

    /// Every node has only identifiers greater than or equal to its own on
    /// its left and only smaller ones on its right.
    pub open spec fn ordered(self) -> bool
        decreases self,
    {
        match self {
            TreeModel::Empty => true,
            TreeModel::Branch { left, dev, right } => {
                &&& forall|x: DeviceView| #[trigger]
                    left.contents().contains(x) ==> x.numerical_id >= dev.numerical_id
                &&& forall|x: DeviceView| #[trigger]
                    right.contents().contains(x) ==> x.numerical_id < dev.numerical_id
                &&& left.ordered()
                &&& right.ordered()
            },
        }
    }
}

/// The tree that inserting `records` one after another into an empty index
/// produces.
pub open spec fn built_from(records: Seq<DeviceView>) -> TreeModel
    decreases records.len(),
{
    if records.len() == 0 {
        TreeModel::Empty
    } else {
        built_from(records.drop_last()).insert(records.last())
    }
}

/// Placing a record adds exactly one to the size.
pub proof fn lemma_insert_size(t: TreeModel, d: DeviceView)
    ensures
        t.insert(d).size() == t.size() + 1,
    decreases t,
{
    if let TreeModel::Branch { left, dev, right } = t {
        lemma_insert_size(*left, d);
        lemma_insert_size(*right, d);
    }
}

/// Placing a record adds it to the contents and keeps everything else.
pub proof fn lemma_insert_contents(t: TreeModel, d: DeviceView)
    ensures
        t.insert(d).contents() =~= t.contents().insert(d),
    decreases t,
{
    if let TreeModel::Branch { left, dev, right } = t {
        lemma_insert_contents(*left, d);
        lemma_insert_contents(*right, d);
    }
}

/// Placing a record keeps a tree ordered.
pub proof fn lemma_insert_ordered(t: TreeModel, d: DeviceView)
    requires
        t.ordered(),
    ensures
        t.insert(d).ordered(),
    decreases t,
{
    if let TreeModel::Branch { left, dev, right } = t {
        lemma_insert_ordered(*left, d);
        lemma_insert_ordered(*right, d);
        lemma_insert_contents(*left, d);
        lemma_insert_contents(*right, d);
        if dev.numerical_id <= d.numerical_id {
            assert forall|x: DeviceView| #[trigger]
                left.insert(d).contents().contains(x) implies x.numerical_id >= dev.numerical_id by {
                assert(left.contents().contains(x) || x == d);
            }
        } else {
            assert forall|x: DeviceView| #[trigger]
                right.insert(d).contents().contains(x) implies x.numerical_id < dev.numerical_id by {
                assert(right.contents().contains(x) || x == d);
            }
        }
    }
}

/// A record that `find` returns has the sought identifier and is held.
pub proof fn lemma_find_sound(t: TreeModel, id: u64)
    ensures
        t.find(id) matches Some(d) ==> d.numerical_id == id && t.contents().contains(d),
    decreases t,
{
    if let TreeModel::Branch { left, dev, right } = t {
        lemma_find_sound(*left, id);
        lemma_find_sound(*right, id);
    }
}

/// In an ordered tree, `find` reaches some record with the identifier of any
/// record held.
pub proof fn lemma_find_complete(t: TreeModel, x: DeviceView)
    requires
        t.ordered(),
        t.contents().contains(x),
    ensures
        t.find(x.numerical_id) is Some,
    decreases t,
{
    if let TreeModel::Branch { left, dev, right } = t {
        if dev.numerical_id != x.numerical_id {
            assert(left.contents().contains(x) || right.contents().contains(x));
            if dev.numerical_id < x.numerical_id {
                lemma_find_complete(*left, x);
            } else {
                lemma_find_complete(*right, x);
            }
        }
    }
}

/// Where `find` reaches a record, it still reaches that record after any
/// insertion.
pub proof fn lemma_find_kept(t: TreeModel, id: u64, d: DeviceView)
    requires
        t.find(id) is Some,
    ensures
        t.insert(d).find(id) == t.find(id),
    decreases t,
{
    if let TreeModel::Branch { left, dev, right } = t {
        if dev.numerical_id != id {
            if dev.numerical_id < id {
                lemma_find_kept(*left, id, d);
            } else {
                lemma_find_kept(*right, id, d);
            }
        }
    }
}

/// Where `find` reaches no record with the identifier of `d`, it reaches `d`
/// once `d` is placed.
pub proof fn lemma_find_placed(t: TreeModel, d: DeviceView)
    requires
        t.find(d.numerical_id) is None,
    ensures
        t.insert(d).find(d.numerical_id) == Some(d),
    decreases t,
{
    if let TreeModel::Branch { left, dev, right } = t {
        if dev.numerical_id < d.numerical_id {
            lemma_find_placed(*left, d);
        } else {
            lemma_find_placed(*right, d);
        }
    }
}

/// The walk lists exactly the records held.
pub proof fn lemma_in_order_contents(t: TreeModel)
    ensures
        t.in_order().to_multiset() =~= t.contents(),
        t.in_order().len() == t.size(),
    decreases t,
{
    broadcast use vstd::seq_lib::group_to_multiset_ensures;

    if let TreeModel::Branch { left, dev, right } = t {
        lemma_in_order_contents(*left);
        lemma_in_order_contents(*right);
        vstd::seq_lib::lemma_multiset_commutative(left.in_order().push(dev), right.in_order());
    }
}

} // verus!
