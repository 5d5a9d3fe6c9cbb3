//! Putting stored rows back into a folder, one row at a time, as a store is
//! read from where it was saved.

use crate::entries::{
    from_zero, lemma_repaired_cursor, lemma_visible_from_zero, repair_cursor, repaired_cursor,
    Entry, UNSET,
};
use crate::folder::{images_wf, Folder, FolderView, ImageEntry, ImageView, INDEX_LIMIT};
use crate::upkeep::{
    holds_path, lemma_cursor_survives_push, lemma_visible_ranks_from_zero,
    lemma_with_image_pushed,
};
use vstd::prelude::*;

verus! {

/// A cursor value as it is restored: what is below -1 counts as unset.
pub open spec fn floored(c: i64) -> i64 {
    if c < UNSET {
        UNSET
    } else {
        c
    }
}

impl FolderView {
    /// Whether the folder can take an image row: the identifier is positive
    /// and above those of all its images, and the path is new to it.
    pub open spec fn takes_image_row(self, id: i64, path: Seq<char>) -> bool {
        id >= 1 && self.ids_below(id as int) && !holds_path(self.images, path)
    }

    /// This folder with one more image at the end.
    pub open spec fn with_image_row(self, id: i64, path: Seq<char>) -> FolderView {
        FolderView { images: self.images.push(ImageView { id, path }), ..self }
    }

    /// This folder with the image `id` in its lap.
    pub open spec fn with_lap_row(self, id: i64) -> FolderView {
        FolderView { lap: self.lap.insert(id), ..self }
    }

    /// Whether the replay log can take an entry at its end: the image is one
    /// of the folder, and the order index lies in the index space and above
    /// the last one.
    pub open spec fn takes_history_row(self, order_index: i64, image_id: i64) -> bool {
        &&& self.has_image(image_id)
        &&& 0 <= order_index < INDEX_LIMIT
        &&& self.history.len() > 0 ==> self.history.last().order_index < order_index
    }

    /// This folder with one more entry at the end of its replay log.
    pub open spec fn with_history_row(self, order_index: i64, image_id: i64) -> FolderView {
        FolderView { history: self.history.push(Entry { order_index, image_id }), ..self }
    }

    /// This folder with both cursors restored: each is set to the given
    /// value and repaired against what its mode shows.
    pub open spec fn with_cursors(self, current_index: i64, current_random_index: i64) -> FolderView {
        FolderView {
            current_index: repaired_cursor(self.visible_normal(), floored(current_index)),
            current_random_index: repaired_cursor(
                self.visible_history(),
                floored(current_random_index),
            ),
            ..self
        }
    }
}

/// A folder with one more image row that it can take is well formed.
pub proof fn lemma_with_image_row(f: FolderView, id: i64, path: Seq<char>)
    requires
        f.wf(),
        f.takes_image_row(id, path),
    ensures
        f.with_image_row(id, path).wf(),
        images_wf(f.images.push(ImageView { id, path })),
{
    let im = ImageView { id, path };
    let grown = f.images.push(im);
    assert forall|i: int, j: int| 0 <= i < j < grown.len() implies (#[trigger] grown[i]).id < (
    #[trigger] grown[j]).id && grown[i].path != grown[j].path by {
        if j < f.images.len() {
            assert(grown[i] == f.images[i] && grown[j] == f.images[j]);
        } else {
            assert(grown[i] == f.images[i]);
        }
    }
    assert forall|i: int| 0 <= i < grown.len() implies (#[trigger] grown[i]).id >= 1 by {
        if i < f.images.len() {
            assert(grown[i] == f.images[i]);
        }
    }
    lemma_with_image_pushed(f, im);
}

/// A folder with one of its images put into the lap is well formed.
pub proof fn lemma_with_lap_row(f: FolderView, id: i64)
    requires
        f.wf(),
        f.has_image(id),
    ensures
        f.with_lap_row(id).wf(),
{
    let g = f.with_lap_row(id);
    assert(g.images == f.images);
    assert(g.visible_normal() == f.visible_normal());
    assert(g.visible_history() == f.visible_history());
}

/// A folder with one more log entry that it can take is well formed.
pub proof fn lemma_with_history_row(f: FolderView, order_index: i64, image_id: i64)
    requires
        f.wf(),
        f.takes_history_row(order_index, image_id),
    ensures
        f.with_history_row(order_index, image_id).wf(),
{
    let e = Entry { order_index, image_id };
    let g = f.with_history_row(order_index, image_id);
    assert(g.images == f.images);
    assert(g.visible_normal() == f.visible_normal());
    assert forall|i: int, j: int| 0 <= i < j < g.history.len() implies g.history[i].order_index
        < g.history[j].order_index by {
        if j < f.history.len() {
            assert(g.history[i] == f.history[i] && g.history[j] == f.history[j]);
        } else {
            assert(g.history[i] == f.history[i]);
            if i < f.history.len() - 1 {
                assert(f.history[i].order_index < f.history[f.history.len() - 1].order_index);
            }
        }
    }
    assert forall|k: int| 0 <= k < g.history.len() implies 0 <= (#[trigger] g.history[k]).order_index
        < INDEX_LIMIT && g.has_image(g.history[k].image_id) by {
        if k < f.history.len() {
            assert(g.history[k] == f.history[k]);
        }
    }
    assert(g.history.drop_last() =~= f.history);
    if !f.hidden_random.contains(image_id) {
        lemma_cursor_survives_push(f.visible_history(), e, f.current_random_index);
    }
}

/// A folder with restored cursors is well formed.
pub proof fn lemma_with_cursors(f: FolderView, current_index: i64, current_random_index: i64)
    requires
        f.wf(),
    ensures
        f.with_cursors(current_index, current_random_index).wf(),
{
    let g = f.with_cursors(current_index, current_random_index);
    assert(g.images == f.images);
    assert(g.visible_normal() == f.visible_normal());
    assert(g.visible_history() == f.visible_history());
    lemma_visible_ranks_from_zero(f.images, f.hidden_normal);
    assert(from_zero(f.history));
    lemma_visible_from_zero(f.history, f.hidden_random);
    lemma_repaired_cursor(f.visible_normal(), floored(current_index));
    lemma_repaired_cursor(f.visible_history(), floored(current_random_index));
}

impl Folder {
    /// Puts an image row at the end of the folder's images.
    pub(crate) fn push_image(&mut self, id: i64, path: String)
        requires
            old(self).wf(),
            old(self)@.takes_image_row(id, path@),
        ensures
            final(self).wf(),
            final(self)@ == old(self)@.with_image_row(id, path@),
    {
        proof {
            lemma_with_image_row(self@, id, path@);
        }
        self.images.push(ImageEntry { id, path });
        proof {
            assert(self@.images =~= old(self)@.images.push(ImageView { id, path: path@ }));
        }
    }

    /// Puts one of the folder's images into the lap.
    pub(crate) fn mark_drawn(&mut self, id: i64)
        requires
            old(self).wf(),
            old(self)@.has_image(id),
        ensures
            final(self).wf(),
            final(self)@ == old(self)@.with_lap_row(id),
    {
        proof {
            lemma_with_lap_row(self@, id);
        }
        self.lap.insert(id);
    }

    /// Whether the replay log can take this entry at its end.
    pub fn takes_history(&self, order_index: i64, image_id: i64) -> (yes: bool)
        requires
            self.wf(),
        ensures
            yes == self@.takes_history_row(order_index, image_id),
    {
        if self.find_image(image_id).is_none() {
            return false;
        }
        if order_index < 0 || order_index >= INDEX_LIMIT {
            return false;
        }
        let n = self.history.len();
        n == 0 || self.history[n - 1].order_index < order_index
    }

    /// Puts an entry at the end of the replay log.
    pub(crate) fn push_history(&mut self, order_index: i64, image_id: i64)
        requires
            old(self).wf(),
            old(self)@.takes_history_row(order_index, image_id),
        ensures
            final(self).wf(),
            final(self)@ == old(self)@.with_history_row(order_index, image_id),
    {
        proof {
            lemma_with_history_row(self@, order_index, image_id);
        }
        self.history.push(Entry { order_index, image_id });
    }

    /// Sets both cursors to the given values and repairs them.
    pub fn put_cursors(&mut self, current_index: i64, current_random_index: i64)
        requires
            old(self).wf(),
        ensures
            final(self).wf(),
            final(self)@ == old(self)@.with_cursors(current_index, current_random_index),
    {
        proof {
            lemma_with_cursors(self@, current_index, current_random_index);
        }
        let v = self.visible_normal_entries();
        let h = self.visible_history_entries();
        let ci = if current_index < UNSET {
            UNSET
        } else {
            current_index
        };
        let cri = if current_random_index < UNSET {
            UNSET
        } else {
            current_random_index
        };
        self.current_index = repair_cursor(&v, ci);
        self.current_random_index = repair_cursor(&h, cri);
    }
}

} // verus!
