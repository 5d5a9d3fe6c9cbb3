//! Sequential mode: one cursor over a folder's visible images, by rank.

use crate::entries::{
    clamp_position, clamped_position, cursor_ok, find_position, from_zero, lemma_cursor_at_entry,
    lemma_position_from, lemma_visible_from_zero, next_position, prev_position,
    resume_position, Entry, UNSET,
};
use crate::folder::{lemma_ranked, ranked, Folder, FolderView};
use vstd::prelude::*;

verus! {

impl FolderView {
    /// This folder with the sequential cursor at `c`.
    pub open spec fn with_current_index(self, c: i64) -> FolderView {
        FolderView { current_index: c, ..self }
    }

    /// This folder after sequential mode moved to `target`, if there is one.
    pub open spec fn moved_normal(self, target: Option<Entry>) -> FolderView {
        match target {
            Some(e) => self.with_current_index(e.order_index),
            None => self,
        }
    }

    /// The entry one step forward of the sequential cursor, with wraparound;
    /// none when every image is hidden.
    pub open spec fn next_normal(self) -> Option<Entry> {
        let v = self.visible_normal();
        if v.len() == 0 {
            None
        } else {
            Some(v[next_position(v, self.current_index)])
        }
    }

    /// The entry one step backward of the sequential cursor, with wraparound;
    /// none when every image is hidden.
    pub open spec fn prev_normal(self) -> Option<Entry> {
        let v = self.visible_normal();
        if v.len() == 0 {
            None
        } else {
            Some(v[prev_position(v, self.current_index)])
        }
    }

    /// The entry that the sequential cursor resumes at: the one it points at,
    /// else the first; none when every image is hidden.
    pub open spec fn current_normal(self) -> Option<Entry> {
        let v = self.visible_normal();
        if v.len() == 0 {
            None
        } else {
            Some(v[resume_position(v, self.current_index)])
        }
    }

    /// The visible entry at list position `index`, brought into range; none
    /// when every image is hidden.
    pub open spec fn nth_normal(self, index: i64) -> Option<Entry> {
        let v = self.visible_normal();
        if v.len() == 0 {
            None
        } else {
            Some(v[clamped_position(index, v.len() as int)])
        }
    }
}

/// Sequential mode's visible entries have ranks from zero on.
pub proof fn lemma_visible_normal_from_zero(f: FolderView)
    requires
        f.wf(),
    ensures
        from_zero(f.visible_normal()),
        from_zero(f.visible_random()),
{
    lemma_ranked(f.images);
    assert(from_zero(ranked(f.images)));
    lemma_visible_from_zero(ranked(f.images), f.hidden_normal);
    lemma_visible_from_zero(ranked(f.images), f.hidden_random);
}

/// Whatever sequential mode moves to is an entry of the visible list and shows
/// an image of the folder.
pub proof fn lemma_normal_targets(f: FolderView, index: i64)
    requires
        f.wf(),
    ensures
        f.next_normal() matches Some(e) ==> f.visible_normal().contains(e) && f.has_image(
            e.image_id,
        ),
        f.prev_normal() matches Some(e) ==> f.visible_normal().contains(e) && f.has_image(
            e.image_id,
        ),
        f.current_normal() matches Some(e) ==> f.visible_normal().contains(e) && f.has_image(
            e.image_id,
        ),
        f.nth_normal(index) matches Some(e) ==> f.visible_normal().contains(e) && f.has_image(
            e.image_id,
        ),
{
    let v = f.visible_normal();
    lemma_position_from(v, f.current_index, 0);
    crate::items::lemma_visible_lists_show_images(f);
    if v.len() > 0 {
        assert(f.has_image(v[next_position(v, f.current_index)].image_id));
        assert(f.has_image(v[prev_position(v, f.current_index)].image_id));
        assert(f.has_image(v[resume_position(v, f.current_index)].image_id));
        assert(f.has_image(v[clamped_position(index, v.len() as int)].image_id));
    }
}

/// Moving the sequential cursor to an entry of the visible list, or unsetting
/// it, leaves the folder well formed.
pub proof fn lemma_with_current_index(f: FolderView, c: i64)
    requires
        f.wf(),
        c >= UNSET,
        cursor_ok(f.visible_normal(), c),
    ensures
        f.with_current_index(c).wf(),
{
    let g = f.with_current_index(c);
    assert(g.images == f.images);
    assert(g.visible_normal() == f.visible_normal());
    assert(g.visible_history() == f.visible_history());
}

impl Folder {
    /// Puts the sequential cursor on entry `p` of the visible list `v`.
    fn settle_normal(&mut self, v: &Vec<Entry>, p: usize) -> (e: Entry)
        requires
            old(self).wf(),
            v@ == old(self)@.visible_normal(),
            p < v.len(),
        ensures
            final(self).wf(),
            e == v@[p as int],
            final(self)@ == old(self)@.with_current_index(e.order_index),
    {
        let e = v[p];
        proof {
            lemma_cursor_at_entry(v@, p as int);
            lemma_visible_normal_from_zero(self@);
            lemma_with_current_index(self@, e.order_index);
        }
        self.current_index = e.order_index;
        e
    }

    /// Steps the sequential cursor forward, wrapping past the last visible
    /// image to the first.
    pub fn step_next(&mut self) -> (shown: Option<Entry>)
        requires
            old(self).wf(),
        ensures
            final(self).wf(),
            shown == old(self)@.next_normal(),
            final(self)@ == old(self)@.moved_normal(shown),
    {
        let v = self.visible_normal_entries();
        if v.len() == 0 {
            return None;
        }
        let p = match find_position(&v, self.current_index) {
            Some(p) => {
                proof {
                    lemma_position_from(v@, self.current_index, 0);
                }
                if p + 1 < v.len() {
                    p + 1
                } else {
                    0
                }
            },
            None => 0,
        };
        Some(self.settle_normal(&v, p))
    }

    /// Steps the sequential cursor backward, wrapping past the first visible
    /// image to the last.
    pub fn step_prev(&mut self) -> (shown: Option<Entry>)
        requires
            old(self).wf(),
        ensures
            final(self).wf(),
            shown == old(self)@.prev_normal(),
            final(self)@ == old(self)@.moved_normal(shown),
    {
        let v = self.visible_normal_entries();
        if v.len() == 0 {
            return None;
        }
        let p = match find_position(&v, self.current_index) {
            Some(p) => {
                proof {
                    lemma_position_from(v@, self.current_index, 0);
                }
                if p == 0 {
                    v.len() - 1
                } else {
                    p - 1
                }
            },
            None => v.len() - 1,
        };
        Some(self.settle_normal(&v, p))
    }

    /// Resumes the sequential cursor where it points, or at the first visible
    /// image, and keeps what it resolved to.
    pub fn resume(&mut self) -> (shown: Option<Entry>)
        requires
            old(self).wf(),
        ensures
            final(self).wf(),
            shown == old(self)@.current_normal(),
            final(self)@ == old(self)@.moved_normal(shown),
    {
        let v = self.visible_normal_entries();
        if v.len() == 0 {
            return None;
        }
        let p = match find_position(&v, self.current_index) {
            Some(p) => {
                proof {
                    lemma_position_from(v@, self.current_index, 0);
                }
                p
            },
            None => 0,
        };
        Some(self.settle_normal(&v, p))
    }

    /// Puts the sequential cursor on the visible image at list position
    /// `index`, brought into range.
    pub fn jump_to(&mut self, index: i64) -> (shown: Option<Entry>)
        requires
            old(self).wf(),
        ensures
            final(self).wf(),
            shown == old(self)@.nth_normal(index),
            final(self)@ == old(self)@.moved_normal(shown),
    {
        let v = self.visible_normal_entries();
        if v.len() == 0 {
            return None;
        }
        let p = clamp_position(index, v.len());
        Some(self.settle_normal(&v, p))
    }

    /// Unsets the sequential cursor.
    pub fn reset_normal(&mut self)
        requires
            old(self).wf(),
        ensures
            final(self).wf(),
            final(self)@ == old(self)@.with_current_index(UNSET),
    {
        self.current_index = UNSET;
        proof {
            lemma_with_current_index(old(self)@, UNSET);
        }
    }
}

} // verus!
