//! Reading a saved store back: rows go in one at a time, each held to the
//! rules of the store, so that what is read is well formed or refused.
//! Folders go in first, then images by ascending identifier, then marks, lap
//! and log entries, then cursors and the session's values.

use crate::error::LoaderError;
use crate::folder::{holds_image, Folder};
use crate::img_loader::folders::{holds_folder_path, lemma_with_folder_row, place_for};
use crate::img_loader::{lemma_slot_changed, lemma_slot_grown, ImageLoader, LoaderView};
use crate::rows::lemma_with_image_row;
use crate::upkeep::holds_path;
use vstd::prelude::*;

verus! {

impl LoaderView {
    /// Whether the store can take a folder row: the identifier is positive,
    /// has a successor, and is new to the store, and so is the path.
    pub open spec fn takes_folder_row(self, id: i64, path: Seq<char>) -> bool {
        1 <= id < i64::MAX && !self.has_folder(id) && !holds_folder_path(self.folders, path)
    }

    /// Whether the folder at place `k` can take an image row: the identifier
    /// is free and has a successor, and the path is new to the folder.
    pub open spec fn takes_image_row(self, k: int, id: i64, path: Seq<char>) -> bool {
        self.next_image_id <= id < i64::MAX && !holds_path(self.folders[k].images, path)
    }
}

impl ImageLoader {
    /// Puts a folder row into the store, at its place in history order, with
    /// no images and unset cursors. A row that the store cannot take is
    /// refused.
    pub fn restore_folder(&mut self, id: i64, path: &str, added_at: i64) -> (r: Result<
        (),
        LoaderError,
    >)
        requires
            old(self).wf(),
        ensures
            final(self).wf(),
            if old(self)@.takes_folder_row(id, path@) {
                r is Ok && final(self)@ == old(self)@.with_folder_row(id, path@, added_at)
            } else {
                r matches Err(LoaderError::UniqueFailed) && final(self)@ == old(self)@
            },
    {
        if id < 1 || id == i64::MAX {
            return Err(LoaderError::UniqueFailed);
        }
        if self.find_folder(id).is_some() {
            return Err(LoaderError::UniqueFailed);
        }
        if self.find_folder_by_path(path).is_some() {
            return Err(LoaderError::UniqueFailed);
        }
        let folder = Folder::new(id, String::from_str(path), added_at);
        let ghost g = folder@;
        let mut p: usize = 0;
        while p < self.folders.len() && Self::stands_before(&self.folders[p], &folder)
            invariant
                p <= self.folders.len(),
                folder@ == g,
                place_for(self@.folders, g, 0) == place_for(self@.folders, g, p as int),
            decreases self.folders.len() - p,
        {
            p += 1;
        }
        proof {
            lemma_with_folder_row(self@, id, path@, added_at);
        }
        self.folders.insert(p, folder);
        if id >= self.next_folder_id {
            self.next_folder_id = id + 1;
        }
        proof {
            assert(self@.folders =~= old(self)@.folders.insert(p as int, g));
            assert forall|i: int| 0 <= i < self.folders@.len() implies (#[trigger] self.folders@[i]).wf() by {
                if i != p {
                    let a = if i < p {
                        i
                    } else {
                        i - 1
                    };
                    assert(self.folders@[i] == old(self).folders@[a]);
                }
            }
        }
        Ok(())
    }

    /// Puts an image row into the folder `folder_id`, behind its other
    /// images. Rows are taken by ascending identifier over the whole store. A
    /// row for a folder that the store does not hold, or that the folder
    /// cannot take, is refused.
    pub fn restore_image(&mut self, folder_id: i64, id: i64, path: &str) -> (r: Result<
        (),
        LoaderError,
    >)
        requires
            old(self).wf(),
        ensures
            final(self).wf(),
            match old(self)@.folder_position(folder_id) {
                None => r matches Err(LoaderError::ForeignKeyFailed) && final(self)@ == old(self)@,
                Some(k) => if old(self)@.takes_image_row(k, id, path@) {
                    r is Ok && final(self)@ == old(self)@.with_folder(
                        k,
                        old(self)@.folders[k].with_image_row(id, path@),
                    ).with_next_image_id((id + 1) as i64)
                } else {
                    r matches Err(LoaderError::UniqueFailed) && final(self)@ == old(self)@
                },
            },
    {
        let k = match self.find_folder(folder_id) {
            Some(k) => k,
            None => {
                return Err(LoaderError::ForeignKeyFailed);
            },
        };
        if id < self.next_image_id || id == i64::MAX {
            return Err(LoaderError::UniqueFailed);
        }
        let text = String::from_str(path);
        if self.folders[k].has_path(&text) {
            return Err(LoaderError::UniqueFailed);
        }
        let ghost f = self@.folders[k as int];
        proof {
            self.lemma_wf();
            assert(f.ids_below(self.next_image_id as int));
            lemma_with_image_row(f, id, path@);
        }
        self.folders[k].push_image(id, text);
        self.next_image_id = id + 1;
        proof {
            let g = self.folders@[k as int]@;
            assert forall|x: i64| holds_image(g.images, x) implies holds_image(f.images, x) || x
                >= old(self).next_image_id by {
                let i = choose|i: int| 0 <= i < g.images.len() && (#[trigger] g.images[i]).id == x;
                if i < f.images.len() {
                    assert(g.images[i] == f.images[i]);
                }
            }
            assert forall|i: int| 0 <= i < g.images.len() implies (#[trigger] g.images[i]).id < id
                + 1 by {
                if i < f.images.len() {
                    assert(g.images[i] == f.images[i]);
                }
            }
            lemma_slot_grown(*old(self), *self, k as int);
        }
        Ok(())
    }

    /// Puts a mark back that hides the image `image_id` of the folder
    /// `folder_id` from random mode, if `random` is set, or from sequential
    /// mode. A mark for a folder or an image that the store does not hold is
    /// refused.
    pub fn restore_hidden(&mut self, folder_id: i64, image_id: i64, random: bool) -> (r: Result<
        (),
        LoaderError,
    >)
        requires
            old(self).wf(),
        ensures
            final(self).wf(),
            match old(self)@.folder_position(folder_id) {
                Some(k) if old(self)@.folders[k].has_image(image_id) => r is Ok && final(self)@
                    == old(self)@.with_folder(
                    k,
                    if random {
                        old(self)@.folders[k].hidden_from_random(image_id)
                    } else {
                        old(self)@.folders[k].hidden_from_normal(image_id)
                    },
                ),
                _ => r matches Err(LoaderError::ForeignKeyFailed) && final(self)@ == old(self)@,
            },
    {
        let k = match self.find_folder(folder_id) {
            Some(k) => k,
            None => {
                return Err(LoaderError::ForeignKeyFailed);
            },
        };
        if self.folders[k].find_image(image_id).is_none() {
            return Err(LoaderError::ForeignKeyFailed);
        }
        if random {
            self.folders[k].hide_random(image_id);
        } else {
            self.folders[k].hide_normal(image_id);
        }
        proof {
            lemma_slot_changed(*old(self), *self, k as int);
        }
        Ok(())
    }

    /// Puts the image `image_id` of the folder `folder_id` back into the
    /// folder's lap. A row for a folder or an image that the store does not
    /// hold is refused.
    pub fn restore_lap(&mut self, folder_id: i64, image_id: i64) -> (r: Result<(), LoaderError>)
        requires
            old(self).wf(),
        ensures
            final(self).wf(),
            match old(self)@.folder_position(folder_id) {
                Some(k) if old(self)@.folders[k].has_image(image_id) => r is Ok && final(self)@
                    == old(self)@.with_folder(k, old(self)@.folders[k].with_lap_row(image_id)),
                _ => r matches Err(LoaderError::ForeignKeyFailed) && final(self)@ == old(self)@,
            },
    {
        let k = match self.find_folder(folder_id) {
            Some(k) => k,
            None => {
                return Err(LoaderError::ForeignKeyFailed);
            },
        };
        if self.folders[k].find_image(image_id).is_none() {
            return Err(LoaderError::ForeignKeyFailed);
        }
        self.folders[k].mark_drawn(image_id);
        proof {
            lemma_slot_changed(*old(self), *self, k as int);
        }
        Ok(())
    }

    /// Puts an entry back at the end of the replay log of the folder
    /// `folder_id`. Entries are taken by ascending order index. An entry for a
    /// folder or an image that the store does not hold is refused, and so is
    /// an order index outside the index space or not above the last one.
    pub fn restore_history(&mut self, folder_id: i64, order_index: i64, image_id: i64) -> (r:
        Result<(), LoaderError>)
        requires
            old(self).wf(),
        ensures
            final(self).wf(),
            match old(self)@.folder_position(folder_id) {
                Some(k) if old(self)@.folders[k].has_image(image_id) => if old(
                    self,
                )@.folders[k].takes_history_row(order_index, image_id) {
                    r is Ok && final(self)@ == old(self)@.with_folder(
                        k,
                        old(self)@.folders[k].with_history_row(order_index, image_id),
                    )
                } else {
                    r matches Err(LoaderError::UniqueFailed) && final(self)@ == old(self)@
                },
                _ => r matches Err(LoaderError::ForeignKeyFailed) && final(self)@ == old(self)@,
            },
    {
        let k = match self.find_folder(folder_id) {
            Some(k) => k,
            None => {
                return Err(LoaderError::ForeignKeyFailed);
            },
        };
        if self.folders[k].find_image(image_id).is_none() {
            return Err(LoaderError::ForeignKeyFailed);
        }
        if !self.folders[k].takes_history(order_index, image_id) {
            return Err(LoaderError::UniqueFailed);
        }
        self.folders[k].push_history(order_index, image_id);
        proof {
            lemma_slot_changed(*old(self), *self, k as int);
        }
        Ok(())
    }

    /// Puts both cursors of the folder `folder_id` back, repairing each
    /// against what its mode shows. A folder that the store does not hold is
    /// refused.
    pub fn restore_cursors(
        &mut self,
        folder_id: i64,
        current_index: i64,
        current_random_index: i64,
    ) -> (r: Result<(), LoaderError>)
        requires
            old(self).wf(),
        ensures
            final(self).wf(),
            match old(self)@.folder_position(folder_id) {
                Some(k) => r is Ok && final(self)@ == old(self)@.with_folder(
                    k,
                    old(self)@.folders[k].with_cursors(current_index, current_random_index),
                ),
                None => r matches Err(LoaderError::ForeignKeyFailed) && final(self)@ == old(self)@,
            },
    {
        let k = match self.find_folder(folder_id) {
            Some(k) => k,
            None => {
                return Err(LoaderError::ForeignKeyFailed);
            },
        };
        self.folders[k].put_cursors(current_index, current_random_index);
        proof {
            lemma_slot_changed(*old(self), *self, k as int);
        }
        Ok(())
    }

    /// Sets the image that was handed out last.
    pub fn set_last_image_id(&mut self, image_id: Option<i64>)
        requires
            old(self).wf(),
        ensures
            final(self).wf(),
            final(self)@ == old(self)@.with_last_image(image_id),
    {
        self.last_image_id = image_id;
    }
}

} // verus!
