//! One folder of the store: its images, the marks that hide them, the lap of
//! the running shuffle cycle, the replay log of random mode and both cursors.

use crate::entries::{ascending, cursor_ok, shows, visible, visible_entries, Entry, UNSET};
use std::collections::HashSet;
use vstd::prelude::*;

verus! {

/// Order indices of the replay log stay below this bound, so that shifting
/// the whole log by one never leaves the index space.
pub const INDEX_LIMIT: i64 = 1_000_000_000;

/// An image row: its identifier and the absolute path of its file.
#[derive(Clone, Debug, PartialEq, Eq)]
pub struct ImageEntry {
    pub id: i64,
    pub path: String,
}

/// An image row as a mathematical value.
pub struct ImageView {
    pub id: i64,
    pub path: Seq<char>,
}

impl View for ImageEntry {
    type V = ImageView;

    open spec fn view(&self) -> ImageView {
        ImageView { id: self.id, path: self.path@ }
    }
}

/// A folder row together with everything the store holds for it.
#[derive(Debug)]
pub struct Folder {
    pub id: i64,
    /// Canonical absolute path.
    pub path: String,
    /// Creation time, in microseconds since the Unix epoch.
    pub added_at: i64,
    /// Sequential cursor: the rank of the current image, or -1.
    pub current_index: i64,
    /// Random cursor: an order index of the replay log, or -1.
    pub current_random_index: i64,
    /// The images, by ascending identifier.
    pub images: Vec<ImageEntry>,
    /// Images hidden from sequential mode.
    pub hidden_normal: HashSet<i64>,
    /// Images hidden from random mode.
    pub hidden_random: HashSet<i64>,
    /// Images drawn in the running shuffle cycle.
    pub lap: HashSet<i64>,
    /// The replay log of random mode, by ascending order index.
    pub history: Vec<Entry>,
}

/// A folder as a mathematical value.
pub struct FolderView {
    pub id: i64,
    pub path: Seq<char>,
    pub added_at: i64,
    pub current_index: i64,
    pub current_random_index: i64,
    pub images: Seq<ImageView>,
    pub hidden_normal: Set<i64>,
    pub hidden_random: Set<i64>,
    pub lap: Set<i64>,
    pub history: Seq<Entry>,
}

impl View for Folder {
    type V = FolderView;

    open spec fn view(&self) -> FolderView {
        FolderView {
            id: self.id,
            path: self.path@,
            added_at: self.added_at,
            current_index: self.current_index,
            current_random_index: self.current_random_index,
            images: self.images@.map_values(|im: ImageEntry| im@),
            hidden_normal: self.hidden_normal@,
            hidden_random: self.hidden_random@,
            lap: self.lap@,
            history: self.history@,
        }
    }
}

/// Identifiers are positive and ascend, and no path occurs twice.
pub open spec fn images_wf(images: Seq<ImageView>) -> bool {
    &&& forall|i: int| 0 <= i < images.len() ==> (#[trigger] images[i]).id >= 1
    &&& forall|i: int, j: int|
        0 <= i < j < images.len() ==> (#[trigger] images[i]).id < (#[trigger] images[j]).id
    &&& forall|i: int, j: int|
        0 <= i < j < images.len() ==> (#[trigger] images[i]).path != (#[trigger] images[j]).path
}

/// The images under their ranks.
pub open spec fn ranked(images: Seq<ImageView>) -> Seq<Entry> {
    Seq::new(images.len(), |i: int| Entry { order_index: i as i64, image_id: images[i].id })
}

/// Whether `id` names one of `images`.
pub open spec fn holds_image(images: Seq<ImageView>, id: i64) -> bool {
    exists|i: int| 0 <= i < images.len() && (#[trigger] images[i]).id == id
}

/// The position of the image `id` among `images`, if it is one of them.
pub open spec fn image_position(images: Seq<ImageView>, id: i64) -> Option<int> {
    if holds_image(images, id) {
        Some(choose|i: int| 0 <= i < images.len() && (#[trigger] images[i]).id == id)
    } else {
        None
    }
}

impl FolderView {
    /// Whether `id` names an image of this folder.
    pub open spec fn has_image(self, id: i64) -> bool {
        holds_image(self.images, id)
    }

    /// The path of the image `id`.
    pub open spec fn path_of(self, id: i64) -> Seq<char>
        recommends
            self.has_image(id),
    {
        self.images[image_position(self.images, id).unwrap()].path
    }

    /// Sequential mode's visible set: the images under their ranks, without
    /// those hidden from sequential mode.
    pub open spec fn visible_normal(self) -> Seq<Entry> {
        visible(ranked(self.images), self.hidden_normal)
    }

    /// Random mode's visible set: the images under their ranks, without those
    /// hidden from random mode.
    pub open spec fn visible_random(self) -> Seq<Entry> {
        visible(ranked(self.images), self.hidden_random)
    }

    /// The part of the replay log whose images random mode still shows.
    pub open spec fn visible_history(self) -> Seq<Entry> {
        visible(self.history, self.hidden_random)
    }

    /// The visible images that the running lap has not drawn yet.
    pub open spec fn undrawn(self) -> Seq<Entry> {
        visible(self.visible_random(), self.lap)
    }

    /// The lap covers random mode's whole visible set.
    pub open spec fn lap_complete(self) -> bool {
        self.undrawn().len() == 0
    }

    /// The size of the lap has reached the number of images that random mode
    /// shows.
    pub open spec fn lap_full(self) -> bool {
        self.lap.len() >= self.visible_random().len()
    }

    /// Whether the lap is spent where a draw proposes an image: at the start
    /// of a draw when its size has reached the visible count; on a later
    /// attempt when it covers the whole visible set.
    pub open spec fn lap_spent(self, first: bool) -> bool {
        if first {
            self.lap_full()
        } else {
            self.lap_complete()
        }
    }

    /// What must hold of every folder in the store.
    pub open spec fn wf(self) -> bool {
        &&& self.id >= 1
        &&& images_wf(self.images)
        &&& forall|id: i64| #[trigger] self.hidden_normal.contains(id) ==> self.has_image(id)
        &&& forall|id: i64| #[trigger] self.hidden_random.contains(id) ==> self.has_image(id)
        &&& forall|id: i64| #[trigger] self.lap.contains(id) ==> self.has_image(id)
        &&& ascending(self.history)
        &&& forall|k: int|
            0 <= k < self.history.len() ==> 0 <= (#[trigger] self.history[k]).order_index
                < INDEX_LIMIT && self.has_image(self.history[k].image_id)
        &&& self.current_index >= UNSET
        &&& self.current_random_index >= UNSET
        &&& cursor_ok(self.visible_normal(), self.current_index)
        &&& cursor_ok(self.visible_history(), self.current_random_index)
    }
}

/// Ranks ascend, every rank fits its type, and the ranked list shows exactly
/// the folder's images.
pub proof fn lemma_ranked(images: Seq<ImageView>)
    requires
        images_wf(images),
    ensures
        images.len() <= i64::MAX,
        ascending(ranked(images)),
        forall|i: int|
            0 <= i < images.len() ==> (#[trigger] ranked(images)[i]).order_index == i && ranked(
                images,
            )[i].image_id == images[i].id,
        forall|id: i64| shows(ranked(images), id) <==> holds_image(images, id),
{
    lemma_ids_grow(images, images.len() as int);
    assert forall|id: i64| shows(ranked(images), id) <==> holds_image(images, id) by {
        if shows(ranked(images), id) {
            let i = choose|i: int|
                0 <= i < ranked(images).len() && (#[trigger] ranked(images)[i]).image_id == id;
            assert(images[i].id == id);
        }
        if holds_image(images, id) {
            let i = choose|i: int| 0 <= i < images.len() && (#[trigger] images[i]).id == id;
            assert(ranked(images)[i].image_id == id);
        }
    }
}

/// Positive ascending identifiers leave room: the first `n` images have
/// identifiers of at least their rank plus one.
pub proof fn lemma_ids_grow(images: Seq<ImageView>, n: int)
    requires
        images_wf(images),
        0 <= n <= images.len(),
    ensures
        forall|i: int| 0 <= i < n ==> (#[trigger] images[i]).id >= i + 1,
        n <= i64::MAX,
    decreases n,
{
    if n > 0 {
        lemma_ids_grow(images, n - 1);
        if n > 1 {
            assert(images[n - 2].id < images[n - 1].id);
        }
    }
}

impl Folder {
    /// The folder's values are well formed.
    pub open spec fn wf(&self) -> bool {
        self@.wf()
    }

    /// A folder that was just created: no images, nothing hidden, nothing
    /// drawn, both cursors unset.
    pub(crate) fn new(id: i64, path: String, added_at: i64) -> (f: Folder)
        requires
            id >= 1,
        ensures
            f.wf(),
            f@ == (FolderView {
                id,
                path: path@,
                added_at,
                current_index: UNSET,
                current_random_index: UNSET,
                images: Seq::<ImageView>::empty(),
                hidden_normal: Set::<i64>::empty(),
                hidden_random: Set::<i64>::empty(),
                lap: Set::<i64>::empty(),
                history: Seq::<Entry>::empty(),
            }),
    {
        let f = Folder {
            id,
            path,
            added_at,
            current_index: UNSET,
            current_random_index: UNSET,
            images: Vec::new(),
            hidden_normal: HashSet::new(),
            hidden_random: HashSet::new(),
            lap: HashSet::new(),
            history: Vec::new(),
        };
        assert(f@.images =~= Seq::<ImageView>::empty());
        f
    }

    /// The images under their ranks.
    pub fn ranked_entries(&self) -> (out: Vec<Entry>)
        requires
            images_wf(self@.images),
        ensures
            out@ == ranked(self@.images),
    {
        let mut out: Vec<Entry> = Vec::new();
        let mut i: usize = 0;
        proof {
            lemma_ranked(self@.images);
        }
        while i < self.images.len()
            invariant
                i <= self.images.len(),
                self.images.len() <= i64::MAX,
                out@.len() == i,
                forall|k: int| 0 <= k < i ==> out@[k] == ranked(self@.images)[k],
            decreases self.images.len() - i,
        {
            out.push(Entry { order_index: i as i64, image_id: self.images[i].id });
            i += 1;
        }
        assert(out@ =~= ranked(self@.images));
        out
    }

    /// Sequential mode's visible set.
    pub fn visible_normal_entries(&self) -> (out: Vec<Entry>)
        requires
            images_wf(self@.images),
        ensures
            out@ == self@.visible_normal(),
    {
        let all = self.ranked_entries();
        visible_entries(&all, &self.hidden_normal)
    }

    /// Random mode's visible set.
    pub fn visible_random_entries(&self) -> (out: Vec<Entry>)
        requires
            images_wf(self@.images),
        ensures
            out@ == self@.visible_random(),
    {
        let all = self.ranked_entries();
        visible_entries(&all, &self.hidden_random)
    }

    /// The part of the replay log that random mode still shows.
    pub fn visible_history_entries(&self) -> (out: Vec<Entry>)
        ensures
            out@ == self@.visible_history(),
    {
        visible_entries(&self.history, &self.hidden_random)
    }

    /// The position of the image `id` among the folder's images.
    pub fn find_image(&self, id: i64) -> (found: Option<usize>)
        requires
            images_wf(self@.images),
        ensures
            match found {
                Some(k) => image_position(self@.images, id) == Some(k as int) && k
                    < self.images.len() && self.images@[k as int].id == id,
                None => !self@.has_image(id),
            },
    {
        let mut lo: usize = 0;
        let mut hi: usize = self.images.len();
        while lo < hi
            invariant
                lo <= hi <= self.images.len(),
                images_wf(self@.images),
                forall|j: int| 0 <= j < lo ==> (#[trigger] self@.images[j]).id < id,
                forall|j: int| hi <= j < self.images.len() ==> (#[trigger] self@.images[j]).id > id,
            decreases hi - lo,
        {
            let mid = lo + (hi - lo) / 2;
            let at = self.images[mid].id;
            proof {
                assert(self@.images[mid as int].id == at);
            }
            if at == id {
                proof {
                    let k = image_position(self@.images, id).unwrap();
                    if k < mid {
                        assert(self@.images[k].id < self@.images[mid as int].id);
                    } else if k > mid {
                        assert(self@.images[mid as int].id < self@.images[k].id);
                    }
                }
                return Some(mid);
            }
            if at < id {
                proof {
                    assert forall|j: int| 0 <= j < mid + 1 implies (#[trigger] self@.images[j]).id
                        < id by {
                        if j < mid {
                            assert(self@.images[j].id < self@.images[mid as int].id);
                        }
                    }
                }
                lo = mid + 1;
            } else {
                proof {
                    assert forall|j: int| mid <= j < self.images.len() implies (
                    #[trigger] self@.images[j]).id > id by {
                        if j > mid {
                            assert(self@.images[mid as int].id < self@.images[j].id);
                        }
                    }
                }
                hi = mid;
            }
        }
        None
    }
}

} // verus!
