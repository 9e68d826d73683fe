//! Listings: the entries of a directory, ordered by name.

use crate::text::{
    lemma_bytes_le_total, lemma_bytes_le_transitive, text_le, text_precedes,
};
use vstd::prelude::*;
use vstd::utf8::encode_utf8;

verus! {

/// One entry of a listing: its name, the URI under which it is retrieved, and
/// whether it is a directory.
#[derive(Clone, Debug, PartialEq, Eq)]
pub struct FileListItem {
    pub name: String,
    pub uri: String,
    pub dir: bool,
}

/// A listing: the category and the entries, ordered by name.
#[derive(Clone, Debug, PartialEq, Eq)]
pub struct FileList {
    pub filetype: String,
    pub items: Vec<FileListItem>,
}

/// An entry, as a value.
pub struct ItemView {
    pub name: Seq<char>,
    pub uri: Seq<char>,
    pub dir: bool,
}

/// A listing, as a value.
pub struct ListView {
    pub filetype: Seq<char>,
    pub items: Seq<ItemView>,
}

impl DeepView for FileListItem {
    type V = ItemView;

    open spec fn deep_view(&self) -> ItemView {
        ItemView { name: self.name@, uri: self.uri@, dir: self.dir }
    }
}

impl View for FileListItem {
    type V = ItemView;

    open spec fn view(&self) -> ItemView {
        self.deep_view()
    }
}

impl View for FileList {
    type V = ListView;

    open spec fn view(&self) -> ListView {
        ListView { filetype: self.filetype@, items: self.items.deep_view() }
    }
}

/// A sorted sequence with one more item: the item stands before the first
/// element whose name does not come before its own, so behind every element
/// with a smaller name and before every element with the same name.
pub open spec fn inserted(sorted: Seq<ItemView>, item: ItemView) -> Seq<ItemView>
    decreases sorted.len(),
{
    if sorted.len() == 0 {
        seq![item]
    } else if text_le(item.name, sorted[0].name) {
        seq![item] + sorted
    } else {
        seq![sorted[0]] + inserted(sorted.drop_first(), item)
    }
}

/// The items in ascending order of their names; items with the same name keep
/// their order.
pub open spec fn sorted_by_name(items: Seq<ItemView>) -> Seq<ItemView>
    decreases items.len(),
{
    if items.len() == 0 {
        Seq::empty()
    } else {
        inserted(sorted_by_name(items.drop_first()), items[0])
    }
}

/// Whether the names of a sequence ascend.
pub open spec fn ascending(items: Seq<ItemView>) -> bool {
    forall|i: int, j: int|
        0 <= i <= j < items.len() ==> text_le((#[trigger] items[i]).name, (#[trigger] items[j]).name)
}

/// Inserting at the first place whose name does not come before the item's
/// is what `inserted` does.
pub proof fn lemma_inserted_at(sorted: Seq<ItemView>, item: ItemView, at: int)
    requires
        0 <= at <= sorted.len(),
        forall|k: int| 0 <= k < at ==> !text_le(item.name, (#[trigger] sorted[k]).name),
        at < sorted.len() ==> text_le(item.name, sorted[at].name),
    ensures
        inserted(sorted, item) == sorted.insert(at, item),
    decreases sorted.len(),
{
    if sorted.len() == 0 {
        assert(sorted.insert(at, item) =~= seq![item]);
    } else if at == 0 {
        assert(sorted.insert(0, item) =~= seq![item] + sorted);
    } else {
        let rest = sorted.drop_first();
        assert(!text_le(item.name, sorted[0].name));
        assert forall|k: int| 0 <= k < at - 1 implies !text_le(
            item.name,
            (#[trigger] rest[k]).name,
        ) by {
            assert(rest[k] == sorted[k + 1]);
        }
        lemma_inserted_at(rest, item, at - 1);
        assert(sorted.insert(at, item) =~= seq![sorted[0]] + rest.insert(at - 1, item));
    }
}

/// Inserting keeps every item and adds the one.
pub proof fn lemma_inserted_keeps_items(sorted: Seq<ItemView>, item: ItemView)
    ensures
        inserted(sorted, item).to_multiset() == sorted.to_multiset().insert(item),
        inserted(sorted, item).len() == sorted.len() + 1,
    decreases sorted.len(),
{
    broadcast use vstd::seq_lib::group_to_multiset_ensures;

    if sorted.len() == 0 {
        assert(sorted =~= Seq::empty());
        assert(seq![item] =~= Seq::<ItemView>::empty().push(item));
    } else if text_le(item.name, sorted[0].name) {
        vstd::seq_lib::lemma_multiset_commutative(seq![item], sorted);
        assert(seq![item] =~= Seq::<ItemView>::empty().push(item));
        assert(seq![item].to_multiset().add(sorted.to_multiset()) =~= sorted.to_multiset().insert(
            item,
        ));
    } else {
        let rest = sorted.drop_first();
        lemma_inserted_keeps_items(rest, item);
        let head = seq![sorted[0]];
        assert(head =~= Seq::<ItemView>::empty().push(sorted[0]));
        vstd::seq_lib::lemma_multiset_commutative(head, inserted(rest, item));
        vstd::seq_lib::lemma_multiset_commutative(head, rest);
        assert(sorted =~= head + rest);
        assert(head.to_multiset().add(rest.to_multiset().insert(item)) =~= head.to_multiset().add(
            rest.to_multiset(),
        ).insert(item));
    }
}

/// Inserting into an ascending sequence gives an ascending sequence.
pub proof fn lemma_inserted_ascends(sorted: Seq<ItemView>, item: ItemView)
    requires
        ascending(sorted),
    ensures
        ascending(inserted(sorted, item)),
    decreases sorted.len(),
{
    let result = inserted(sorted, item);
    if sorted.len() == 0 {
        assert forall|i: int, j: int| 0 <= i <= j < result.len() implies text_le(
            (#[trigger] result[i]).name,
            (#[trigger] result[j]).name,
        ) by {
            lemma_bytes_le_total(encode_utf8(item.name), encode_utf8(item.name));
        }
    } else if text_le(item.name, sorted[0].name) {
        assert forall|i: int, j: int| 0 <= i <= j < result.len() implies text_le(
            (#[trigger] result[i]).name,
            (#[trigger] result[j]).name,
        ) by {
            if i == 0 && j == 0 {
                lemma_bytes_le_total(encode_utf8(item.name), encode_utf8(item.name));
            } else if i == 0 {
                assert(result[j] == sorted[j - 1]);
                assert(text_le(sorted[0].name, sorted[j - 1].name));
                lemma_bytes_le_transitive(
                    encode_utf8(item.name),
                    encode_utf8(sorted[0].name),
                    encode_utf8(sorted[j - 1].name),
                );
            } else {
                assert(result[i] == sorted[i - 1] && result[j] == sorted[j - 1]);
            }
        }
    } else {
        let rest = sorted.drop_first();
        assert forall|i: int, j: int| 0 <= i <= j < rest.len() implies text_le(
            (#[trigger] rest[i]).name,
            (#[trigger] rest[j]).name,
        ) by {
            assert(rest[i] == sorted[i + 1] && rest[j] == sorted[j + 1]);
        }
        lemma_inserted_ascends(rest, item);
        lemma_inserted_keeps_items(rest, item);
        let tail = inserted(rest, item);
        assert forall|i: int, j: int| 0 <= i <= j < result.len() implies text_le(
            (#[trigger] result[i]).name,
            (#[trigger] result[j]).name,
        ) by {
            if i == 0 && j == 0 {
                assert(text_le(sorted[0].name, sorted[0].name));
            } else if i == 0 {
                // The element at j is the item or an element of the rest.
                assert(result[j] == tail[j - 1]);
                assert(tail.to_multiset().count(tail[j - 1]) > 0) by {
                    broadcast use vstd::seq_lib::group_to_multiset_ensures;

                    assert(tail.contains(tail[j - 1]));
                }
                if tail[j - 1] == item {
                    lemma_bytes_le_total(encode_utf8(item.name), encode_utf8(sorted[0].name));
                } else {
                    assert(rest.to_multiset().count(tail[j - 1]) > 0);
                    assert(rest.contains(tail[j - 1])) by {
                        broadcast use vstd::seq_lib::group_to_multiset_ensures;

                    }
                    let k = choose|k: int| 0 <= k < rest.len() && rest[k] == tail[j - 1];
                    assert(rest[k] == sorted[k + 1]);
                    assert(text_le(sorted[0].name, sorted[k + 1].name));
                }
            } else {
                assert(result[i] == tail[i - 1] && result[j] == tail[j - 1]);
            }
        }
    }
}

/// Sorting by name gives an ascending sequence that holds each item as often
/// as the unsorted one.
pub proof fn lemma_sorted_by_name(items: Seq<ItemView>)
    ensures
        ascending(sorted_by_name(items)),
        sorted_by_name(items).to_multiset() == items.to_multiset(),
        sorted_by_name(items).len() == items.len(),
    decreases items.len(),
{
    broadcast use vstd::seq_lib::group_to_multiset_ensures;

    if items.len() > 0 {
        let rest = items.drop_first();
        lemma_sorted_by_name(rest);
        lemma_inserted_ascends(sorted_by_name(rest), items[0]);
        lemma_inserted_keeps_items(sorted_by_name(rest), items[0]);
        let head = seq![items[0]];
        assert(head =~= Seq::<ItemView>::empty().push(items[0]));
        assert(items =~= head + rest);
        vstd::seq_lib::lemma_multiset_commutative(head, rest);
        assert(head.to_multiset().add(rest.to_multiset()) =~= rest.to_multiset().insert(items[0]));
    } else {
        assert(items =~= Seq::empty());
    }
}

/// The first place in a sequence whose name does not come before `name`.
fn place_for(sorted: &Vec<FileListItem>, name: &str) -> (at: usize)
    ensures
        at <= sorted.len(),
        forall|k: int| 0 <= k < at ==> !text_le(name@, (#[trigger] sorted.deep_view()[k]).name),
        at < sorted.len() ==> text_le(name@, sorted.deep_view()[at as int].name),
{
    let mut at: usize = 0;
    while at < sorted.len()
        invariant
            at <= sorted.len(),
            forall|k: int| 0 <= k < at ==> !text_le(name@, (#[trigger] sorted.deep_view()[k]).name),
        decreases sorted.len() - at,
    {
        assert(sorted.deep_view()[at as int].name == sorted[at as int].name@);
        if text_precedes(name, sorted[at].name.as_str()) {
            return at;
        }
        at += 1;
    }
    at
}

impl FileList {
    /// A listing of `items` under `filetype`, in ascending order of their
    /// names. Names are ordered by the bytes of their UTF-8 encoding; items
    /// with the same name keep their order.
    pub fn new_sorted(filetype: &str, items: Vec<FileListItem>) -> (list: Self)
        ensures
            list@.filetype == filetype@,
            list@.items == sorted_by_name(items.deep_view()),
            ascending(list@.items),
            list@.items.to_multiset() == items.deep_view().to_multiset(),
    {
        let ghost all = items.deep_view();
        let mut rest = items;
        let mut sorted: Vec<FileListItem> = Vec::new();
        assert(all.skip(all.len() as int) =~= Seq::<ItemView>::empty());
        assert(sorted.deep_view() =~= Seq::<ItemView>::empty());
        while rest.len() > 0
            invariant
                rest.deep_view() == all.take(rest.len() as int),
                rest.len() <= all.len(),
                sorted.deep_view() == sorted_by_name(all.skip(rest.len() as int)),
            decreases rest.len(),
        {
            let ghost n = rest.len() as int;
            let ghost before_rest = rest.deep_view();
            let ghost before = sorted.deep_view();
            let item = rest.pop().unwrap();
            proof {
                assert(item.deep_view() == before_rest[n - 1]);
                assert(rest.deep_view() =~= all.take(n - 1));
                assert(all.skip(n - 1).drop_first() =~= all.skip(n));
                assert(all.skip(n - 1)[0] == item.deep_view());
            }
            let at = place_for(&sorted, item.name.as_str());
            proof {
                lemma_inserted_at(before, item.deep_view(), at as int);
            }
            let ghost view = item.deep_view();
            sorted.insert(at, item);
            assert(sorted.deep_view() =~= before.insert(at as int, view));
        }
        proof {
            assert(all.skip(0) =~= all);
            lemma_sorted_by_name(all);
        }
        FileList { filetype: String::from_str(filetype), items: sorted }
    }
}

} // verus!
