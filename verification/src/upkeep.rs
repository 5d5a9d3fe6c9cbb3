//! Changes to a folder's rows: hiding an image, removing an image whose file
//! is gone, emptying the folder for a new scan, and taking in scanned paths.
//! Each of them repairs the cursors it may have invalidated.

use crate::entries::{
    cursor_ok, from_zero, lemma_position_from, lemma_repaired_cursor, lemma_visible_ascending,
    lemma_visible_from_zero, lemma_visible_members, position_of, repair_cursor,
    repaired_cursor, visible, visible_entries, Entry, UNSET,
};
use crate::folder::{
    holds_image, image_position, images_wf, lemma_ranked, ranked, Folder, FolderView,
    ImageEntry, ImageView, INDEX_LIMIT,
};
use std::collections::HashSet;
use vstd::prelude::*;

verus! {

/// Whether one of `images` has the path `p`.
pub open spec fn holds_path(images: Seq<ImageView>, p: Seq<char>) -> bool {
    exists|i: int| 0 <= i < images.len() && (#[trigger] images[i]).path == p
}

/// The paths of a list of texts, as mathematical values.
pub open spec fn texts(paths: Seq<String>) -> Seq<Seq<char>> {
    paths.map_values(|p: String| p@)
}

/// The images after the paths of a scan were taken in, in their order: a path
/// that is already there is passed over, each other path becomes a new image
/// under the next free identifier, counted from `next_id`.
pub open spec fn images_added(images: Seq<ImageView>, paths: Seq<Seq<char>>, next_id: int) -> Seq<
    ImageView,
>
    decreases paths.len(),
{
    if paths.len() == 0 {
        images
    } else {
        let sofar = images_added(images, paths.drop_last(), next_id);
        if holds_path(sofar, paths.last()) {
            sofar
        } else {
            sofar.push(
                ImageView {
                    id: (next_id + sofar.len() - images.len()) as i64,
                    path: paths.last(),
                },
            )
        }
    }
}

impl FolderView {
    /// This folder after the image `id` was hidden from sequential mode: the
    /// mark is set and the sequential cursor repaired.
    pub open spec fn hidden_from_normal(self, id: i64) -> FolderView {
        let marked = FolderView { hidden_normal: self.hidden_normal.insert(id), ..self };
        FolderView {
            current_index: repaired_cursor(marked.visible_normal(), self.current_index),
            ..marked
        }
    }

    /// This folder after the image `id` was hidden from random mode: the mark
    /// is set and the random cursor repaired.
    pub open spec fn hidden_from_random(self, id: i64) -> FolderView {
        let marked = FolderView { hidden_random: self.hidden_random.insert(id), ..self };
        FolderView {
            current_random_index: repaired_cursor(
                marked.visible_history(),
                self.current_random_index,
            ),
            ..marked
        }
    }

    /// This folder after the row of the image `id` was removed: the image, its
    /// marks, its lap membership and its log entries are gone, and both
    /// cursors are repaired. A folder without that image stays as it is.
    pub open spec fn without_image(self, id: i64) -> FolderView {
        match image_position(self.images, id) {
            None => self,
            Some(k) => {
                let bare = FolderView {
                    images: self.images.remove(k),
                    hidden_normal: self.hidden_normal.remove(id),
                    hidden_random: self.hidden_random.remove(id),
                    lap: self.lap.remove(id),
                    history: visible(self.history, set![id]),
                    ..self
                };
                FolderView {
                    current_index: repaired_cursor(bare.visible_normal(), self.current_index),
                    current_random_index: repaired_cursor(
                        bare.visible_history(),
                        self.current_random_index,
                    ),
                    ..bare
                }
            },
        }
    }

    /// This folder with no images, no marks, no lap, no log, and both cursors
    /// unset.
    pub open spec fn emptied(self) -> FolderView {
        FolderView {
            current_index: UNSET,
            current_random_index: UNSET,
            images: Seq::empty(),
            hidden_normal: Set::empty(),
            hidden_random: Set::empty(),
            lap: Set::empty(),
            history: Seq::empty(),
            ..self
        }
    }

    /// This folder after the paths of a scan were taken in.
    pub open spec fn with_scanned(self, paths: Seq<Seq<char>>, next_id: int) -> FolderView {
        FolderView { images: images_added(self.images, paths, next_id), ..self }
    }

    /// Every image identifier of this folder is below `bound`.
    pub open spec fn ids_below(self, bound: int) -> bool {
        forall|i: int| 0 <= i < self.images.len() ==> (#[trigger] self.images[i]).id < bound
    }
}

/// The visible lists of a folder whose images are well formed have order
/// indices from zero on, in both modes.
pub proof fn lemma_visible_ranks_from_zero(images: Seq<ImageView>, hidden: Set<i64>)
    requires
        images_wf(images),
    ensures
        from_zero(visible(ranked(images), hidden)),
{
    lemma_ranked(images);
    assert(from_zero(ranked(images)));
    lemma_visible_from_zero(ranked(images), hidden);
}

/// Hiding an image of the folder from sequential mode leaves it well formed.
pub proof fn lemma_hidden_from_normal(f: FolderView, id: i64)
    requires
        f.wf(),
        f.has_image(id),
    ensures
        f.hidden_from_normal(id).wf(),
{
    let marked = FolderView { hidden_normal: f.hidden_normal.insert(id), ..f };
    let g = f.hidden_from_normal(id);
    assert(g.images == f.images);
    assert(g.visible_normal() == marked.visible_normal());
    assert(g.visible_history() == f.visible_history());
    lemma_visible_ranks_from_zero(f.images, marked.hidden_normal);
    lemma_repaired_cursor(marked.visible_normal(), f.current_index);
}

/// Hiding an image of the folder from random mode leaves it well formed.
pub proof fn lemma_hidden_from_random(f: FolderView, id: i64)
    requires
        f.wf(),
        f.has_image(id),
    ensures
        f.hidden_from_random(id).wf(),
{
    let marked = FolderView { hidden_random: f.hidden_random.insert(id), ..f };
    let g = f.hidden_from_random(id);
    assert(g.images == f.images);
    assert(g.visible_normal() == f.visible_normal());
    assert(g.visible_history() == marked.visible_history());
    assert(from_zero(f.history));
    lemma_visible_from_zero(f.history, marked.hidden_random);
    lemma_repaired_cursor(marked.visible_history(), f.current_random_index);
}

/// Taking one image out of a well-formed list leaves a well-formed list that
/// holds the other images and no others.
pub proof fn lemma_images_remove(images: Seq<ImageView>, k: int)
    requires
        images_wf(images),
        0 <= k < images.len(),
    ensures
        images_wf(images.remove(k)),
        forall|id: i64|
            holds_image(images.remove(k), id) <==> holds_image(images, id) && id != images[k].id,
{
    let r = images.remove(k);
    assert forall|i: int| 0 <= i < r.len() implies #[trigger] r[i] == images[if i < k {
        i
    } else {
        i + 1
    }] by {}
    assert forall|i: int, j: int| 0 <= i < j < r.len() implies (#[trigger] r[i]).id < (
    #[trigger] r[j]).id && r[i].path != r[j].path by {
        let a = if i < k {
            i
        } else {
            i + 1
        };
        let b = if j < k {
            j
        } else {
            j + 1
        };
        assert(r[i] == images[a] && r[j] == images[b]);
    }
    assert forall|i: int| 0 <= i < r.len() implies (#[trigger] r[i]).id >= 1 by {
        let a = if i < k {
            i
        } else {
            i + 1
        };
        assert(r[i] == images[a]);
    }
    assert forall|id: i64| holds_image(r, id) <==> holds_image(images, id) && id != images[k].id by {
        if holds_image(r, id) {
            let i = choose|i: int| 0 <= i < r.len() && (#[trigger] r[i]).id == id;
            let a = if i < k {
                i
            } else {
                i + 1
            };
            assert(images[a].id == id);
            if a < k {
                assert(images[a].id < images[k].id);
            } else {
                assert(images[k].id < images[a].id);
            }
        }
        if holds_image(images, id) && id != images[k].id {
            let a = choose|a: int| 0 <= a < images.len() && (#[trigger] images[a]).id == id;
            let i = if a < k {
                a
            } else {
                a - 1
            };
            assert(r[i] == images[a]);
        }
    }
}

/// Removing an image's row leaves the folder well formed.
pub proof fn lemma_without_image(f: FolderView, id: i64)
    requires
        f.wf(),
    ensures
        f.without_image(id).wf(),
        !f.without_image(id).has_image(id),
        forall|other: i64|
            other != id ==> (f.without_image(id).has_image(other) <==> f.has_image(other)),
{
    match image_position(f.images, id) {
        None => {},
        Some(k) => {
            let bare = FolderView {
                images: f.images.remove(k),
                hidden_normal: f.hidden_normal.remove(id),
                hidden_random: f.hidden_random.remove(id),
                lap: f.lap.remove(id),
                history: visible(f.history, set![id]),
                ..f
            };
            let g = f.without_image(id);
            lemma_images_remove(f.images, k);
            assert(g.images == bare.images);
            assert(g.visible_normal() == bare.visible_normal());
            assert(g.visible_history() == bare.visible_history());
            lemma_visible_ascending(f.history, set![id]);
            lemma_visible_members(f.history, set![id]);
            assert forall|j: int| 0 <= j < bare.history.len() implies 0 <= (
            #[trigger] bare.history[j]).order_index < INDEX_LIMIT && bare.has_image(
                bare.history[j].image_id,
            ) by {
                let e = bare.history[j];
                assert(f.history.contains(e));
                let i = choose|i: int| 0 <= i < f.history.len() && f.history[i] == e;
                assert(f.has_image(f.history[i].image_id));
                assert(!set![id].contains(e.image_id));
            }
            assert(from_zero(bare.history));
            lemma_visible_from_zero(bare.history, bare.hidden_random);
            lemma_visible_ranks_from_zero(bare.images, bare.hidden_normal);
            lemma_repaired_cursor(bare.visible_normal(), f.current_index);
            lemma_repaired_cursor(bare.visible_history(), f.current_random_index);
        },
    }
}

/// An emptied folder is well formed.
pub proof fn lemma_emptied(f: FolderView)
    requires
        f.wf(),
    ensures
        f.emptied().wf(),
{
}

/// A cursor that points at an entry of a list still does so after the list
/// grew at its end.
pub proof fn lemma_cursor_survives_push(s: Seq<Entry>, e: Entry, c: i64)
    requires
        cursor_ok(s, c),
    ensures
        cursor_ok(s.push(e), c),
{
    if c != UNSET {
        lemma_position_from(s, c, 0);
        let p = position_of(s, c).unwrap();
        assert(s.push(e)[p].order_index == c);
        lemma_position_from(s.push(e), c, 0);
    }
}

/// What taking in scanned paths does to the images: the old ones stay in
/// front, the list stays well formed, and identifiers stay below the next
/// free one.
pub proof fn lemma_images_added(images: Seq<ImageView>, paths: Seq<Seq<char>>, next_id: int)
    requires
        images_wf(images),
        next_id >= 1,
        next_id + paths.len() <= i64::MAX,
        forall|i: int| 0 <= i < images.len() ==> (#[trigger] images[i]).id < next_id,
    ensures
        images_wf(images_added(images, paths, next_id)),
        images.len() <= images_added(images, paths, next_id).len() <= images.len() + paths.len(),
        images_added(images, paths, next_id).take(images.len() as int) == images,
        forall|i: int|
            0 <= i < images_added(images, paths, next_id).len() ==> (#[trigger] images_added(
                images,
                paths,
                next_id,
            )[i]).id < next_id + images_added(images, paths, next_id).len() - images.len(),
        forall|i: int|
            images.len() <= i < images_added(images, paths, next_id).len() ==> (
            #[trigger] images_added(images, paths, next_id)[i]).id == next_id + i - images.len(),
        forall|k: int|
            0 <= k < paths.len() ==> holds_path(
                images_added(images, paths, next_id),
                #[trigger] paths[k],
            ),
    decreases paths.len(),
{
    let out = images_added(images, paths, next_id);
    if paths.len() == 0 {
        assert(out.take(images.len() as int) =~= images);
    } else {
        let front = paths.drop_last();
        let sofar = images_added(images, front, next_id);
        lemma_images_added(images, front, next_id);
        assert(out.take(images.len() as int) =~= sofar.take(images.len() as int));
        assert forall|k: int| 0 <= k < paths.len() implies holds_path(out, #[trigger] paths[k]) by {
            if k < front.len() {
                assert(front[k] == paths[k]);
                let i = choose|i: int| 0 <= i < sofar.len() && (#[trigger] sofar[i]).path == front[k];
                assert(out[i].path == paths[k]);
            } else if holds_path(sofar, paths.last()) {
            } else {
                assert(out[out.len() - 1].path == paths[k]);
            }
        }
        if !holds_path(sofar, paths.last()) {
            let n = sofar.len() as int;
            assert(out[n].id == next_id + n - images.len());
            assert forall|i: int, j: int| 0 <= i < j < out.len() implies (#[trigger] out[i]).id < (
            #[trigger] out[j]).id && out[i].path != out[j].path by {
                if j < n {
                    assert(out[i] == sofar[i] && out[j] == sofar[j]);
                } else {
                    assert(out[i] == sofar[i]);
                    assert(sofar[i].id < next_id + sofar.len() - images.len());
                }
            }
            assert forall|i: int| 0 <= i < out.len() implies (#[trigger] out[i]).id >= 1 by {
                if i < n {
                    assert(out[i] == sofar[i]);
                }
            }
            assert forall|i: int| 0 <= i < out.len() implies (#[trigger] out[i]).id < next_id
                + out.len() - images.len() by {
                if i < n {
                    assert(out[i] == sofar[i]);
                }
            }
            assert forall|i: int| images.len() <= i < out.len() implies (#[trigger] out[i]).id
                == next_id + i - images.len() by {
                if i < n {
                    assert(out[i] == sofar[i]);
                }
            }
        }
    }
}

/// Appending an image to the folder's images appends its entry to the ranked
/// list, and to a visible list unless the image is hidden there.
pub proof fn lemma_visible_grows(images: Seq<ImageView>, im: ImageView, hidden: Set<i64>)
    requires
        images.len() < i64::MAX,
    ensures
        visible(ranked(images.push(im)), hidden) == if hidden.contains(im.id) {
            visible(ranked(images), hidden)
        } else {
            visible(ranked(images), hidden).push(
                Entry { order_index: images.len() as i64, image_id: im.id },
            )
        },
{
    assert(ranked(images.push(im)).drop_last() =~= ranked(images));
}

/// A folder that grew by one image which nothing hides or mentions is well
/// formed if it was before.
pub proof fn lemma_with_image_pushed(f: FolderView, im: ImageView)
    requires
        f.wf(),
        images_wf(f.images.push(im)),
    ensures
        (FolderView { images: f.images.push(im), ..f }).wf(),
{
    let g = FolderView { images: f.images.push(im), ..f };
    lemma_ranked(g.images);
    assert forall|id: i64| f.has_image(id) implies g.has_image(id) by {
        let i = choose|i: int| 0 <= i < f.images.len() && (#[trigger] f.images[i]).id == id;
        assert(g.images[i].id == id);
    }
    assert(!f.has_image(im.id)) by {
        if f.has_image(im.id) {
            let i = choose|i: int| 0 <= i < f.images.len() && (#[trigger] f.images[i]).id == im.id;
            assert(g.images[i].id < g.images[f.images.len() as int].id);
        }
    }
    lemma_visible_grows(f.images, im, f.hidden_normal);
    lemma_cursor_survives_push(
        f.visible_normal(),
        Entry { order_index: f.images.len() as i64, image_id: im.id },
        f.current_index,
    );
}

/// Taking in scanned paths leaves the folder well formed.
pub proof fn lemma_with_scanned(f: FolderView, paths: Seq<Seq<char>>, next_id: int)
    requires
        f.wf(),
        next_id >= 1,
        next_id + paths.len() <= i64::MAX,
        f.ids_below(next_id),
    ensures
        f.with_scanned(paths, next_id).wf(),
    decreases paths.len(),
{
    lemma_images_added(f.images, paths, next_id);
    if paths.len() == 0 {
        assert(f.with_scanned(paths, next_id) == f);
    } else {
        let front = paths.drop_last();
        lemma_with_scanned(f, front, next_id);
        lemma_images_added(f.images, front, next_id);
        let sofar = images_added(f.images, front, next_id);
        if !holds_path(sofar, paths.last()) {
            let im = ImageView {
                id: (next_id + sofar.len() - f.images.len()) as i64,
                path: paths.last(),
            };
            lemma_with_image_pushed(f.with_scanned(front, next_id), im);
        }
    }
}

impl Folder {
    /// Hides the image `id` of this folder from sequential mode.
    pub(crate) fn hide_normal(&mut self, id: i64)
        requires
            old(self).wf(),
            old(self)@.has_image(id),
        ensures
            final(self).wf(),
            final(self)@ == old(self)@.hidden_from_normal(id),
    {
        proof {
            lemma_hidden_from_normal(self@, id);
        }
        self.hidden_normal.insert(id);
        let v = self.visible_normal_entries();
        self.current_index = repair_cursor(&v, self.current_index);
    }

    /// Hides the image `id` of this folder from random mode.
    pub(crate) fn hide_random(&mut self, id: i64)
        requires
            old(self).wf(),
            old(self)@.has_image(id),
        ensures
            final(self).wf(),
            final(self)@ == old(self)@.hidden_from_random(id),
    {
        proof {
            lemma_hidden_from_random(self@, id);
        }
        self.hidden_random.insert(id);
        let v = self.visible_history_entries();
        self.current_random_index = repair_cursor(&v, self.current_random_index);
    }

    /// Removes the row of the image `id` and all that refers to it; says
    /// whether there was such an image.
    pub fn remove_image(&mut self, id: i64) -> (removed: bool)
        requires
            old(self).wf(),
        ensures
            final(self).wf(),
            removed == old(self)@.has_image(id),
            final(self)@ == old(self)@.without_image(id),
    {
        proof {
            lemma_without_image(self@, id);
        }
        match self.find_image(id) {
            None => false,
            Some(k) => {
                self.images.remove(k);
                proof {
                    assert(self@.images =~= old(self)@.images.remove(k as int));
                    lemma_images_remove(old(self)@.images, k as int);
                }
                self.hidden_normal.remove(&id);
                self.hidden_random.remove(&id);
                self.lap.remove(&id);
                let mut gone: HashSet<i64> = HashSet::new();
                gone.insert(id);
                proof {
                    assert(gone@ =~= set![id]);
                }
                self.history = visible_entries(&self.history, &gone);
                let v = self.visible_normal_entries();
                self.current_index = repair_cursor(&v, self.current_index);
                let h = self.visible_history_entries();
                self.current_random_index = repair_cursor(&h, self.current_random_index);
                true
            },
        }
    }

    /// Forgets every image of the folder, with marks, lap and log, and unsets
    /// both cursors.
    pub fn clear(&mut self)
        requires
            old(self).wf(),
        ensures
            final(self).wf(),
            final(self)@ == old(self)@.emptied(),
    {
        proof {
            lemma_emptied(self@);
        }
        self.images = Vec::new();
        self.hidden_normal.clear();
        self.hidden_random.clear();
        self.lap.clear();
        self.history = Vec::new();
        self.current_index = UNSET;
        self.current_random_index = UNSET;
        proof {
            assert(self@.images =~= Seq::<ImageView>::empty());
        }
    }

    /// Whether one of the folder's images has the path `p`.
    pub fn has_path(&self, p: &String) -> (found: bool)
        ensures
            found == holds_path(self@.images, p@),
    {
        let mut i: usize = 0;
        while i < self.images.len()
            invariant
                i <= self.images.len(),
                forall|j: int| 0 <= j < i ==> (#[trigger] self@.images[j]).path != p@,
            decreases self.images.len() - i,
        {
            if self.images[i].path == *p {
                assert(self@.images[i as int].path == p@);
                return true;
            }
            i += 1;
        }
        false
    }

    /// Takes in the paths of a scan, in their order, passing over each path
    /// that the folder already has; new images count their identifiers from
    /// `next_id`. Returns how many images were added.
    pub(crate) fn add_images(&mut self, paths: &Vec<String>, next_id: i64) -> (added: usize)
        requires
            old(self).wf(),
            next_id >= 1,
            next_id + paths.len() <= i64::MAX,
            old(self)@.ids_below(next_id as int),
        ensures
            final(self).wf(),
            final(self)@ == old(self)@.with_scanned(texts(paths@), next_id as int),
            added == final(self)@.images.len() - old(self)@.images.len(),
            added <= paths.len(),
            final(self)@.ids_below(next_id + added),
    {
        let ghost start = self@;
        let ghost all = texts(paths@);
        let before = self.images.len();
        let mut i: usize = 0;
        proof {
            assert(all.take(0) =~= Seq::<Seq<char>>::empty());
        }
        while i < paths.len()
            invariant
                i <= paths.len(),
                start.wf(),
                all == texts(paths@),
                next_id >= 1,
                next_id + paths.len() <= i64::MAX,
                start.ids_below(next_id as int),
                before == start.images.len(),
                self@ == start.with_scanned(all.take(i as int), next_id as int),
            decreases paths.len() - i,
        {
            proof {
                assert(all.take(i + 1).drop_last() =~= all.take(i as int));
                assert(all.take(i + 1).last() == paths@[i as int]@);
                lemma_images_added(start.images, all.take(i as int), next_id as int);
            }
            if !self.has_path(&paths[i]) {
                let id = next_id + ((self.images.len() - before) as i64);
                self.images.push(ImageEntry { id, path: paths[i].clone() });
                proof {
                    assert(self@.images =~= images_added(
                        start.images,
                        all.take(i as int),
                        next_id as int,
                    ).push(ImageView { id, path: paths@[i as int]@ }));
                }
            }
            i += 1;
        }
        proof {
            assert(all.take(i as int) =~= all);
            lemma_with_scanned(start, all, next_id as int);
            lemma_images_added(start.images, all, next_id as int);
        }
        self.images.len() - before
    }
}

} // verus!
