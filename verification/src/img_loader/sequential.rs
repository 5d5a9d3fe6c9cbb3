//! Sequential mode on the selected folder.

use crate::commands::ImageHistoryItem;
use crate::entries::{find_position, lemma_position_from, pointer_of, Entry, UNSET};
use crate::error::LoaderError;
use crate::folder::FolderView;
use crate::img_loader::{lemma_slot_changed, ImageLoader, LoaderView};
use crate::items::{item_views, lemma_visible_lists_show_images};
use crate::navigation::lemma_normal_targets;
use vstd::prelude::*;

verus! {

/// What a move of one traversal mode to `target` does: with no folder
/// selected it fails and changes nothing; with no target it fails with
/// `exhausted` and changes nothing; otherwise the selected folder becomes
/// `moved` and the target is handed out with its path.
pub open spec fn moves(
    pre: LoaderView,
    target: Option<Entry>,
    moved: FolderView,
    exhausted: LoaderError,
    post: LoaderView,
    r: Result<ImageHistoryItem, LoaderError>,
) -> bool {
    match pre.current_folder() {
        None => r matches Err(LoaderError::NoFolderSelected) && post == pre,
        Some(f) => match target {
            None => r matches Err(x) && x == exhausted && post == pre,
            Some(e) => r matches Ok(item) && item@ == f.item_of(e) && post == pre.with_current(
                moved,
            ),
        },
    }
}

impl LoaderView {
    /// The entry one step forward of the selected folder's sequential cursor.
    pub open spec fn next_normal(self) -> Option<Entry> {
        match self.current_folder() {
            Some(f) => f.next_normal(),
            None => None,
        }
    }

    /// The entry one step backward of the selected folder's sequential cursor.
    pub open spec fn prev_normal(self) -> Option<Entry> {
        match self.current_folder() {
            Some(f) => f.prev_normal(),
            None => None,
        }
    }

    /// The entry that the selected folder's sequential cursor resumes at.
    pub open spec fn current_normal(self) -> Option<Entry> {
        match self.current_folder() {
            Some(f) => f.current_normal(),
            None => None,
        }
    }

    /// The selected folder's visible entry at list position `index`.
    pub open spec fn nth_normal(self, index: i64) -> Option<Entry> {
        match self.current_folder() {
            Some(f) => f.nth_normal(index),
            None => None,
        }
    }

    /// The selected folder after its sequential cursor moved to `target`.
    pub open spec fn moved_normal(self, target: Option<Entry>) -> FolderView
        recommends
            self.current_folder() is Some,
    {
        self.current_folder().unwrap().moved_normal(target)
    }
}

impl ImageLoader {
    /// Steps the sequential cursor of the selected folder forward, wrapping
    /// past the last visible image to the first, and hands out the image it
    /// arrives at.
    pub fn get_next_image(&mut self) -> (r: Result<ImageHistoryItem, LoaderError>)
        requires
            old(self).wf(),
        ensures
            final(self).wf(),
            moves(
                old(self)@,
                old(self)@.next_normal(),
                old(self)@.moved_normal(old(self)@.next_normal()),
                LoaderError::AllHiddenNormal,
                final(self)@,
                r,
            ),
    {
        let k = match self.current_slot() {
            Some(k) => k,
            None => {
                return Err(LoaderError::NoFolderSelected);
            },
        };
        let shown = self.folders[k].step_next();
        proof {
            lemma_slot_changed(*old(self), *self, k as int);
            lemma_normal_targets(old(self)@.folders[k as int], 0);
            if shown is None {
                assert(self@.folders =~= old(self)@.folders);
            }
        }
        self.hand_out(k, shown, LoaderError::AllHiddenNormal)
    }

    /// Steps the sequential cursor of the selected folder backward, wrapping
    /// past the first visible image to the last, and hands out the image it
    /// arrives at.
    pub fn get_prev_image(&mut self) -> (r: Result<ImageHistoryItem, LoaderError>)
        requires
            old(self).wf(),
        ensures
            final(self).wf(),
            moves(
                old(self)@,
                old(self)@.prev_normal(),
                old(self)@.moved_normal(old(self)@.prev_normal()),
                LoaderError::AllHiddenNormal,
                final(self)@,
                r,
            ),
    {
        let k = match self.current_slot() {
            Some(k) => k,
            None => {
                return Err(LoaderError::NoFolderSelected);
            },
        };
        let shown = self.folders[k].step_prev();
        proof {
            lemma_slot_changed(*old(self), *self, k as int);
            lemma_normal_targets(old(self)@.folders[k as int], 0);
            if shown is None {
                assert(self@.folders =~= old(self)@.folders);
            }
        }
        self.hand_out(k, shown, LoaderError::AllHiddenNormal)
    }

    /// Resumes sequential mode in the selected folder: hands out the image
    /// under the cursor, or the first visible image when the cursor is at
    /// none, and keeps the cursor on what it handed out.
    pub fn get_current_image_or_first(&mut self) -> (r: Result<ImageHistoryItem, LoaderError>)
        requires
            old(self).wf(),
        ensures
            final(self).wf(),
            moves(
                old(self)@,
                old(self)@.current_normal(),
                old(self)@.moved_normal(old(self)@.current_normal()),
                LoaderError::AllHiddenNormal,
                final(self)@,
                r,
            ),
    {
        let k = match self.current_slot() {
            Some(k) => k,
            None => {
                return Err(LoaderError::NoFolderSelected);
            },
        };
        let shown = self.folders[k].resume();
        proof {
            lemma_slot_changed(*old(self), *self, k as int);
            lemma_normal_targets(old(self)@.folders[k as int], 0);
            if shown is None {
                assert(self@.folders =~= old(self)@.folders);
            }
        }
        self.hand_out(k, shown, LoaderError::AllHiddenNormal)
    }

    /// Puts the sequential cursor of the selected folder on the visible image
    /// at list position `index`, brought into range, and hands that image out.
    pub fn set_normal_image_by_index(&mut self, index: i64) -> (r: Result<
        ImageHistoryItem,
        LoaderError,
    >)
        requires
            old(self).wf(),
        ensures
            final(self).wf(),
            moves(
                old(self)@,
                old(self)@.nth_normal(index),
                old(self)@.moved_normal(old(self)@.nth_normal(index)),
                LoaderError::AllHiddenNormal,
                final(self)@,
                r,
            ),
    {
        let k = match self.current_slot() {
            Some(k) => k,
            None => {
                return Err(LoaderError::NoFolderSelected);
            },
        };
        let shown = self.folders[k].jump_to(index);
        proof {
            lemma_slot_changed(*old(self), *self, k as int);
            lemma_normal_targets(old(self)@.folders[k as int], index);
            if shown is None {
                assert(self@.folders =~= old(self)@.folders);
            }
        }
        self.hand_out(k, shown, LoaderError::AllHiddenNormal)
    }

    /// The visible images of the selected folder in sequential order, and the
    /// list position of the cursor among them, or -1. Without a selected
    /// folder: nothing, and -1.
    pub fn get_normal_history(&self) -> (r: (Vec<ImageHistoryItem>, i64))
        requires
            self.wf(),
        ensures
            match self@.current_folder() {
                None => r.0@.len() == 0 && r.1 == UNSET,
                Some(f) => item_views(r.0@) == f.items_of(f.visible_normal()) && r.1 == pointer_of(
                    f.visible_normal(),
                    f.current_index,
                ),
            },
    {
        let k = match self.current_slot() {
            Some(k) => k,
            None => {
                return (Vec::new(), UNSET);
            },
        };
        let folder = &self.folders[k];
        let visible = folder.visible_normal_entries();
        proof {
            lemma_visible_lists_show_images(folder@);
            crate::entries::lemma_visible_members(
                crate::folder::ranked(folder@.images),
                folder@.hidden_normal,
            );
            crate::folder::lemma_ranked(folder@.images);
            lemma_position_from(visible@, folder.current_index, 0);
        }
        let pointer: i64 = match find_position(&visible, folder.current_index) {
            Some(p) => p as i64,
            None => UNSET,
        };
        (folder.items_for(&visible), pointer)
    }

    /// Unsets the sequential cursor of the selected folder, if one is
    /// selected.
    pub fn reset_normal_history(&mut self)
        requires
            old(self).wf(),
        ensures
            final(self).wf(),
            final(self)@ == match old(self)@.current_folder() {
                None => old(self)@,
                Some(f) => old(self)@.with_current(f.with_current_index(UNSET)),
            },
    {
        match self.current_slot() {
            None => {},
            Some(k) => {
                self.folders[k].reset_normal();
                proof {
                    lemma_slot_changed(*old(self), *self, k as int);
                }
            },
        }
    }

    /// Hides an image of the selected folder from sequential mode and repairs
    /// the sequential cursor. Fails, changing nothing, when no folder is
    /// selected or the folder has no such image; sets the mark and reports the
    /// exhaustion of sequential mode when no image is left visible.
    pub fn hide_normal_history_image(&mut self, image_id: i64) -> (r: Result<(), LoaderError>)
        requires
            old(self).wf(),
        ensures
            final(self).wf(),
            match old(self)@.current_folder() {
                None => r matches Err(LoaderError::NoFolderSelected) && final(self)@ == old(self)@,
                Some(f) => if !f.has_image(image_id) {
                    r matches Err(LoaderError::RowNotFound) && final(self)@ == old(self)@
                } else {
                    &&& final(self)@ == old(self)@.with_current(f.hidden_from_normal(image_id))
                    &&& if f.hidden_from_normal(image_id).visible_normal().len() == 0 {
                        r matches Err(LoaderError::AllHiddenNormal)
                    } else {
                        r is Ok
                    }
                },
            },
    {
        let k = match self.current_slot() {
            Some(k) => k,
            None => {
                return Err(LoaderError::NoFolderSelected);
            },
        };
        if self.folders[k].find_image(image_id).is_none() {
            return Err(LoaderError::RowNotFound);
        }
        self.folders[k].hide_normal(image_id);
        proof {
            lemma_slot_changed(*old(self), *self, k as int);
        }
        let left = self.folders[k].visible_normal_entries();
        if left.len() == 0 {
            Err(LoaderError::AllHiddenNormal)
        } else {
            Ok(())
        }
    }
}

} // verus!
