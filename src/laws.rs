//! What holds of every index built by a sequence of insertions.

use crate::model::{
    built_from, lemma_find_complete, lemma_find_kept, lemma_find_placed, lemma_find_sound,
    lemma_in_order_contents, lemma_insert_contents, lemma_insert_ordered, lemma_insert_size,
    DeviceView, TreeModel,
};
use vstd::prelude::*;

verus! {

broadcast use vstd::seq_lib::group_to_multiset_ensures;

/// After any sequence of insertions, duplicates included, the size is the
/// number of records inserted.
pub proof fn size_counts_inserts(records: Seq<DeviceView>)
    ensures
        built_from(records).size() == records.len(),
    decreases records.len(),
{
    if records.len() > 0 {
        size_counts_inserts(records.drop_last());
        lemma_insert_size(built_from(records.drop_last()), records.last());
    }
}

/// Insertion keeps every node's larger-or-equal identifiers on its left and
/// its smaller ones on its right.
pub proof fn inserts_keep_order(records: Seq<DeviceView>)
    ensures
        built_from(records).ordered(),
    decreases records.len(),
{
    if records.len() > 0 {
        inserts_keep_order(records.drop_last());
        lemma_insert_ordered(built_from(records.drop_last()), records.last());
    }
}

/// The index holds exactly the records inserted, each as often as it was
/// inserted.
pub proof fn contents_are_inserts(records: Seq<DeviceView>)
    ensures
        built_from(records).contents() =~= records.to_multiset(),
    decreases records.len(),
{
    if records.len() > 0 {
        let rest = records.drop_last();
        contents_are_inserts(rest);
        lemma_insert_contents(built_from(rest), records.last());
        assert(records =~= rest.push(records.last()));
    }
}

/// For every inserted record, `find` on its identifier returns an inserted
/// record with that identifier.
pub proof fn inserted_is_found(records: Seq<DeviceView>, i: int)
    requires
        0 <= i < records.len(),
    ensures
        built_from(records).find(records[i].numerical_id) matches Some(d)
            && d.numerical_id == records[i].numerical_id
            && records.contains(d),
{
    let t = built_from(records);
    contents_are_inserts(records);
    inserts_keep_order(records);
    assert(records.contains(records[i]));
    lemma_find_complete(t, records[i]);
    lemma_find_sound(t, records[i].numerical_id);
}

/// `find` on an identifier that no inserted record has returns nothing.
pub proof fn never_inserted_not_found(records: Seq<DeviceView>, id: u64)
    requires
        forall|i: int| 0 <= i < records.len() ==> #[trigger] records[i].numerical_id != id,
    ensures
        built_from(records).find(id) is None,
{
    let t = built_from(records);
    contents_are_inserts(records);
    lemma_find_sound(t, id);
    if let Some(d) = t.find(id) {
        assert(records.contains(d));
        let k = choose|k: int| 0 <= k < records.len() && records[k] == d;
        assert(records[k].numerical_id != id);
    }
}

/// The walk lists each inserted record exactly once: as many entries as the
/// size, and each record as often as it was inserted.
pub proof fn walk_lists_each_insert_once(records: Seq<DeviceView>)
    ensures
        built_from(records).in_order().len() == built_from(records).size(),
        built_from(records).in_order().to_multiset() =~= records.to_multiset(),
{
    lemma_in_order_contents(built_from(records));
    contents_are_inserts(records);
}

/// In an ordered tree the walk goes from the largest identifier down.
pub proof fn walk_descends(t: TreeModel)
    requires
        t.ordered(),
    ensures
        forall|i: int, j: int|
            0 <= i < j < t.in_order().len() ==> #[trigger] t.in_order()[i].numerical_id
                >= #[trigger] t.in_order()[j].numerical_id,
    decreases t,
{
    if let TreeModel::Branch { left, dev, right } = t {
        walk_descends(*left);
        walk_descends(*right);
        lemma_in_order_contents(*left);
        lemma_in_order_contents(*right);
        let l = left.in_order();
        let r = right.in_order();
        assert(t.in_order() =~= l.push(dev) + r);
        assert forall|i: int, j: int|
            0 <= i < j < t.in_order().len() implies #[trigger] t.in_order()[i].numerical_id
                >= #[trigger] t.in_order()[j].numerical_id by {
            if i < l.len() {
                assert(l.contains(l[i]));
                assert(left.contents().contains(l[i]));
            }
            if j > l.len() {
                let jj = j - l.len() - 1;
                assert(r.contains(r[jj]));
                assert(right.contents().contains(r[jj]));
            }
        }
    }
}

/// Two insertions with one identifier add two to the size, and `find` on that
/// identifier returns a single record with it: the first of the two where no
/// earlier record had the identifier.
pub proof fn duplicates_both_kept(records: Seq<DeviceView>, a: DeviceView, b: DeviceView)
    requires
        a.numerical_id == b.numerical_id,
    ensures
        built_from(records.push(a).push(b)).size() == records.len() + 2,
        built_from(records.push(a).push(b)).find(a.numerical_id) matches Some(d)
            && d.numerical_id == a.numerical_id,
        (forall|i: int| 0 <= i < records.len() ==> #[trigger] records[i].numerical_id
            != a.numerical_id) ==> built_from(records.push(a).push(b)).find(a.numerical_id)
            == Some(a),
{
    let t = built_from(records);
    let both = records.push(a).push(b);
    size_counts_inserts(both);
    assert(both.drop_last() =~= records.push(a));
    assert(records.push(a).drop_last() =~= records);
    assert(built_from(records.push(a)) == t.insert(a));
    assert(built_from(both) == t.insert(a).insert(b));
    inserted_is_found(both, records.len() as int);
    if forall|i: int| 0 <= i < records.len() ==> #[trigger] records[i].numerical_id
        != a.numerical_id {
        never_inserted_not_found(records, a.numerical_id);
        lemma_find_placed(t, a);
        lemma_find_kept(t.insert(a), a.numerical_id, b);
    }
}

} // verus!
