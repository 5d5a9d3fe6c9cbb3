//! Entries of a traversal mode as they are handed to callers: with the path
//! of the image.

use crate::commands::ImageHistoryItem;
use crate::entries::{lemma_visible_members, Entry};
use crate::folder::{lemma_ranked, ranked, Folder, FolderView};
use vstd::prelude::*;

verus! {

/// An entry with its path, as a mathematical value.
pub struct ItemView {
    pub image_id: i64,
    pub order_index: i64,
    pub path: Seq<char>,
}

impl View for ImageHistoryItem {
    type V = ItemView;

    open spec fn view(&self) -> ItemView {
        ItemView { image_id: self.image_id, order_index: self.order_index, path: self.path@ }
    }
}

/// The items of a list as mathematical values.
pub open spec fn item_views(items: Seq<ImageHistoryItem>) -> Seq<ItemView> {
    items.map_values(|item: ImageHistoryItem| item@)
}

impl FolderView {
    /// The entry `e` with the path of its image.
    pub open spec fn item_of(self, e: Entry) -> ItemView {
        ItemView { image_id: e.image_id, order_index: e.order_index, path: self.path_of(e.image_id) }
    }

    /// The entries of `list` with the paths of their images.
    pub open spec fn items_of(self, list: Seq<Entry>) -> Seq<ItemView> {
        Seq::new(list.len(), |i: int| self.item_of(list[i]))
    }

    /// Every entry of `list` shows an image of this folder.
    pub open spec fn all_images(self, list: Seq<Entry>) -> bool {
        forall|i: int| 0 <= i < list.len() ==> self.has_image((#[trigger] list[i]).image_id)
    }
}

/// Every entry of a visible list of ranked images, and of the visible replay
/// log, shows an image of the folder.
pub proof fn lemma_visible_lists_show_images(f: FolderView)
    requires
        f.wf(),
    ensures
        f.all_images(f.visible_normal()),
        f.all_images(f.visible_random()),
        f.all_images(f.visible_history()),
        f.all_images(f.undrawn()),
{
    lemma_ranked(f.images);
    lemma_visible_members(ranked(f.images), f.hidden_normal);
    lemma_visible_members(ranked(f.images), f.hidden_random);
    lemma_visible_members(f.history, f.hidden_random);
    lemma_visible_members(f.visible_random(), f.lap);
    assert forall|i: int| 0 <= i < f.visible_normal().len() implies f.has_image(
        (#[trigger] f.visible_normal()[i]).image_id,
    ) by {
        let e = f.visible_normal()[i];
        let k = choose|k: int| 0 <= k < ranked(f.images).len() && ranked(f.images)[k] == e;
        assert(f.images[k].id == e.image_id);
    }
    assert forall|i: int| 0 <= i < f.visible_random().len() implies f.has_image(
        (#[trigger] f.visible_random()[i]).image_id,
    ) by {
        let e = f.visible_random()[i];
        let k = choose|k: int| 0 <= k < ranked(f.images).len() && ranked(f.images)[k] == e;
        assert(f.images[k].id == e.image_id);
    }
    assert forall|i: int| 0 <= i < f.visible_history().len() implies f.has_image(
        (#[trigger] f.visible_history()[i]).image_id,
    ) by {
        let e = f.visible_history()[i];
        let k = choose|k: int| 0 <= k < f.history.len() && f.history[k] == e;
        assert(f.has_image(f.history[k].image_id));
    }
    assert forall|i: int| 0 <= i < f.undrawn().len() implies f.has_image(
        (#[trigger] f.undrawn()[i]).image_id,
    ) by {
        let e = f.undrawn()[i];
        let k = choose|k: int| 0 <= k < f.visible_random().len() && f.visible_random()[k] == e;
        assert(f.has_image(f.visible_random()[k].image_id));
    }
}

impl Folder {
    /// The entry `e` with the path of its image.
    pub(crate) fn item_for(&self, e: Entry) -> (item: ImageHistoryItem)
        requires
            self.wf(),
            self@.has_image(e.image_id),
        ensures
            item@ == self@.item_of(e),
    {
        let k = self.find_image(e.image_id).unwrap();
        ImageHistoryItem {
            image_id: e.image_id,
            order_index: e.order_index,
            path: self.images[k].path.clone(),
        }
    }

    /// The entries of `list` with the paths of their images.
    pub(crate) fn items_for(&self, list: &Vec<Entry>) -> (items: Vec<ImageHistoryItem>)
        requires
            self.wf(),
            self@.all_images(list@),
        ensures
            item_views(items@) == self@.items_of(list@),
    {
        let mut items: Vec<ImageHistoryItem> = Vec::new();
        let mut i: usize = 0;
        while i < list.len()
            invariant
                i <= list.len(),
                self.wf(),
                self@.all_images(list@),
                items@.len() == i,
                forall|j: int| 0 <= j < i ==> (#[trigger] items@[j])@ == self@.item_of(list@[j]),
            decreases list.len() - i,
        {
            let item = self.item_for(list[i]);
            items.push(item);
            i += 1;
        }
        assert(item_views(items@) =~= self@.items_of(list@));
        items
    }
}

} // verus!
