//! The engine: every folder of the store, the session's selected folder and
//! last shown image, and the display preferences.

use crate::commands::{ImageHistoryItem, ImageState, ImageStateView};
use crate::entries::Entry;
use crate::error::LoaderError;
use crate::folder::{holds_image, Folder, FolderView};
use vstd::prelude::*;

pub mod folders;
pub mod indexing;
pub mod lifecycle;
pub mod plan;
pub mod random;
pub mod restore;
pub mod sequential;
pub mod session;

verus! {

/// The navigation and history engine over the whole store.
#[derive(Debug)]
pub struct ImageLoader {
    /// The folders in history order: most recently added first.
    folders: Vec<Folder>,
    current_folder_id: Option<i64>,
    last_image_id: Option<i64>,
    state: ImageState,
    /// The identifier that the next new folder receives.
    next_folder_id: i64,
    /// The identifier that the next new image receives.
    next_image_id: i64,
}

/// The store as a mathematical value.
pub struct LoaderView {
    /// The folders in history order: most recently added first.
    pub folders: Seq<FolderView>,
    pub current_folder_id: Option<i64>,
    pub last_image_id: Option<i64>,
    pub state: ImageStateView,
    pub next_folder_id: i64,
    pub next_image_id: i64,
}

/// The folders of a list as mathematical values.
pub open spec fn folder_views(folders: Seq<Folder>) -> Seq<FolderView> {
    folders.map_values(|f: Folder| f@)
}

/// Folder `a` stands before folder `b` in the folder history: it was added
/// later, or at the same time under a lower identifier.
pub open spec fn comes_before(a: FolderView, b: FolderView) -> bool {
    a.added_at > b.added_at || (a.added_at == b.added_at && a.id < b.id)
}

/// Whether one of `folders` has the identifier `id`.
pub open spec fn holds_folder(folders: Seq<FolderView>, id: i64) -> bool {
    exists|k: int| 0 <= k < folders.len() && (#[trigger] folders[k]).id == id
}

impl LoaderView {
    /// The store before anything was added to it.
    pub open spec fn empty() -> LoaderView {
        LoaderView {
            folders: Seq::empty(),
            current_folder_id: None,
            last_image_id: None,
            state: ImageStateView::initial(),
            next_folder_id: 1,
            next_image_id: 1,
        }
    }

    /// Whether the store holds a folder `id`.
    pub open spec fn has_folder(self, id: i64) -> bool {
        holds_folder(self.folders, id)
    }

    /// The place of the folder `id` in the folder history.
    pub open spec fn folder_position(self, id: i64) -> Option<int> {
        if self.has_folder(id) {
            Some(choose|k: int| 0 <= k < self.folders.len() && (#[trigger] self.folders[k]).id == id)
        } else {
            None
        }
    }

    /// The place of the selected folder in the folder history.
    pub open spec fn current_position(self) -> Option<int> {
        match self.current_folder_id {
            Some(id) => self.folder_position(id),
            None => None,
        }
    }

    /// The selected folder.
    pub open spec fn current_folder(self) -> Option<FolderView> {
        match self.current_position() {
            Some(k) => Some(self.folders[k]),
            None => None,
        }
    }

    /// This store with `f` in place of the folder at position `k`.
    pub open spec fn with_folder(self, k: int, f: FolderView) -> LoaderView {
        LoaderView { folders: self.folders.update(k, f), ..self }
    }

    /// This store with `next` as the identifier of the next new image.
    pub open spec fn with_next_image_id(self, next: i64) -> LoaderView {
        LoaderView { next_image_id: next, ..self }
    }

    /// This store with `id` as the image that was handed out last.
    pub open spec fn with_last_image(self, id: Option<i64>) -> LoaderView {
        LoaderView { last_image_id: id, ..self }
    }

    /// This store with `f` in place of the selected folder.
    pub open spec fn with_current(self, f: FolderView) -> LoaderView
        recommends
            self.current_position() is Some,
    {
        self.with_folder(self.current_position().unwrap(), f)
    }

    /// What must hold of the store at all times: every folder is well formed;
    /// folder identifiers, folder paths and image identifiers occur once in
    /// the whole store and lie below the next free ones; the folders stand in
    /// history order; and a selected folder is one of the store.
    pub open spec fn wf(self) -> bool {
        &&& self.next_folder_id >= 1
        &&& self.next_image_id >= 1
        &&& forall|k: int|
            0 <= k < self.folders.len() ==> (#[trigger] self.folders[k]).wf() && self.folders[k].id
                < self.next_folder_id && self.folders[k].ids_below(self.next_image_id as int)
        &&& forall|i: int, j: int|
            0 <= i < j < self.folders.len() ==> comes_before(
                #[trigger] self.folders[i],
                #[trigger] self.folders[j],
            )
        &&& forall|i: int, j: int|
            0 <= i < j < self.folders.len() ==> (#[trigger] self.folders[i]).path != (
            #[trigger] self.folders[j]).path && self.folders[i].id != self.folders[j].id
        &&& forall|i: int, j: int, id: i64|
            0 <= i < self.folders.len() && 0 <= j < self.folders.len() && i != j && #[trigger] holds_image(
                self.folders[i].images,
                id,
            ) ==> !#[trigger] holds_image(self.folders[j].images, id)
        &&& match self.current_folder_id {
            Some(id) => self.has_folder(id),
            None => true,
        }
    }
}

impl View for ImageLoader {
    type V = LoaderView;

    closed spec fn view(&self) -> LoaderView {
        LoaderView {
            folders: folder_views(self.folders@),
            current_folder_id: self.current_folder_id,
            last_image_id: self.last_image_id,
            state: self.state@,
            next_folder_id: self.next_folder_id,
            next_image_id: self.next_image_id,
        }
    }
}

/// In a well-formed store a folder identifier names one place only.
pub proof fn lemma_folder_position(s: LoaderView, k: int)
    requires
        s.wf(),
        0 <= k < s.folders.len(),
    ensures
        s.folder_position(s.folders[k].id) == Some(k),
{
    let id = s.folders[k].id;
    let p = s.folder_position(id).unwrap();
    if p < k {
        assert(s.folders[p].id != s.folders[k].id);
    } else if p > k {
        assert(s.folders[k].id != s.folders[p].id);
    }
}

/// Replacing a folder by a well-formed one of the same identity, none of
/// whose images is new, leaves the store well formed and every folder at its
/// place.
pub proof fn lemma_folder_changed(s: LoaderView, k: int, g: FolderView)
    requires
        s.wf(),
        0 <= k < s.folders.len(),
        g.wf(),
        g.id == s.folders[k].id,
        g.path == s.folders[k].path,
        g.added_at == s.folders[k].added_at,
        forall|id: i64| holds_image(g.images, id) ==> holds_image(s.folders[k].images, id),
    ensures
        s.with_folder(k, g).wf(),
        forall|id: i64| s.with_folder(k, g).folder_position(id) == s.folder_position(id),
        s.with_folder(k, g).current_position() == s.current_position(),
{
    assert forall|i: int| 0 <= i < g.images.len() implies (#[trigger] g.images[i]).id
        < s.next_image_id by {
        assert(holds_image(g.images, g.images[i].id));
        let j = choose|j: int|
            0 <= j < s.folders[k].images.len() && (#[trigger] s.folders[k].images[j]).id
                == g.images[i].id;
        assert(s.folders[k].images[j].id < s.next_image_id);
    }
    lemma_folder_grown(s, k, g, s.next_image_id);
    assert(s.with_folder(k, g) == s.with_folder(k, g).with_next_image_id(s.next_image_id));
}

/// Replacing a folder by a well-formed one of the same identity, each of
/// whose images is an old one or has an identifier that was free, and moving
/// the next free identifier past all of them, leaves the store well formed and
/// every folder at its place.
pub proof fn lemma_folder_grown(s: LoaderView, k: int, g: FolderView, next: i64)
    requires
        s.wf(),
        0 <= k < s.folders.len(),
        g.wf(),
        g.id == s.folders[k].id,
        g.path == s.folders[k].path,
        g.added_at == s.folders[k].added_at,
        next >= s.next_image_id,
        g.ids_below(next as int),
        forall|id: i64|
            holds_image(g.images, id) ==> holds_image(s.folders[k].images, id) || id
                >= s.next_image_id,
    ensures
        s.with_folder(k, g).with_next_image_id(next).wf(),
        forall|id: i64|
            s.with_folder(k, g).with_next_image_id(next).folder_position(id) == s.folder_position(
                id,
            ),
        s.with_folder(k, g).with_next_image_id(next).current_position() == s.current_position(),
{
    let t = s.with_folder(k, g).with_next_image_id(next);
    assert forall|i: int| 0 <= i < t.folders.len() implies (#[trigger] t.folders[i]).wf()
        && t.folders[i].id < t.next_folder_id && t.folders[i].ids_below(t.next_image_id as int) by {
        if i != k {
            assert(t.folders[i] == s.folders[i]);
            assert(s.folders[i].ids_below(s.next_image_id as int));
        }
    }
    assert forall|i: int| 0 <= i < t.folders.len() implies (#[trigger] t.folders[i]).id
        == s.folders[i].id && t.folders[i].path == s.folders[i].path && t.folders[i].added_at
        == s.folders[i].added_at by {}
    assert forall|i: int, j: int| 0 <= i < j < t.folders.len() implies comes_before(
        #[trigger] t.folders[i],
        #[trigger] t.folders[j],
    ) by {
        assert(comes_before(s.folders[i], s.folders[j]));
    }
    assert forall|i: int, j: int| 0 <= i < j < t.folders.len() implies (#[trigger] t.folders[i]).path
        != (#[trigger] t.folders[j]).path && t.folders[i].id != t.folders[j].id by {
        assert(s.folders[i].path != s.folders[j].path);
    }
    assert forall|i: int, j: int, id: i64|
        0 <= i < t.folders.len() && 0 <= j < t.folders.len() && i != j && #[trigger] holds_image(
            t.folders[i].images,
            id,
        ) implies !#[trigger] holds_image(t.folders[j].images, id) by {
        if holds_image(t.folders[j].images, id) {
            if i == k {
                assert(t.folders[j] == s.folders[j]);
                if id >= s.next_image_id {
                    let a = choose|a: int|
                        0 <= a < s.folders[j].images.len() && (#[trigger] s.folders[j].images[a]).id
                            == id;
                    assert(s.folders[j].ids_below(s.next_image_id as int));
                } else {
                    assert(holds_image(s.folders[i].images, id));
                }
            } else if j == k {
                assert(t.folders[i] == s.folders[i]);
                if id >= s.next_image_id {
                    let a = choose|a: int|
                        0 <= a < s.folders[i].images.len() && (#[trigger] s.folders[i].images[a]).id
                            == id;
                    assert(s.folders[i].ids_below(s.next_image_id as int));
                } else {
                    assert(holds_image(s.folders[j].images, id));
                }
            } else {
                assert(t.folders[i] == s.folders[i] && t.folders[j] == s.folders[j]);
                assert(holds_image(s.folders[i].images, id));
            }
        }
    }
    assert forall|id: i64| t.has_folder(id) <==> s.has_folder(id) by {
        if t.has_folder(id) {
            let p = choose|p: int| 0 <= p < t.folders.len() && (#[trigger] t.folders[p]).id == id;
            assert(s.folders[p].id == id);
        }
        if s.has_folder(id) {
            let p = choose|p: int| 0 <= p < s.folders.len() && (#[trigger] s.folders[p]).id == id;
            assert(t.folders[p].id == id);
        }
    }
    assert forall|id: i64| t.folder_position(id) == s.folder_position(id) by {
        if s.has_folder(id) {
            let p = s.folder_position(id).unwrap();
            lemma_folder_position(s, p);
            assert(t.folders[p].id == id);
            lemma_folder_position(t, p);
        }
    }
}

/// An engine whose folder at place `k` was changed in place, to a well-formed
/// folder of the same identity none of whose images is new, is well formed,
/// and its value is the old one with that folder replaced.
proof fn lemma_slot_changed(pre: ImageLoader, post: ImageLoader, k: int)
    requires
        pre.wf(),
        0 <= k < pre.folders@.len(),
        post.folders@ == pre.folders@.update(k, post.folders@[k]),
        post.folders@[k].wf(),
        post.folders@[k].id == pre.folders@[k].id,
        post.folders@[k].path@ == pre.folders@[k].path@,
        post.folders@[k].added_at == pre.folders@[k].added_at,
        forall|id: i64|
            holds_image(post.folders@[k]@.images, id) ==> holds_image(pre.folders@[k]@.images, id),
        post.current_folder_id == pre.current_folder_id,
        post.last_image_id == pre.last_image_id,
        post.state@ == pre.state@,
        post.next_folder_id == pre.next_folder_id,
        post.next_image_id == pre.next_image_id,
    ensures
        post.wf(),
        post@ == pre@.with_folder(k, post.folders@[k]@),
        post@.current_position() == pre@.current_position(),
        forall|id: i64| post@.folder_position(id) == pre@.folder_position(id),
{
    assert(post@.folders =~= pre@.folders.update(k, post.folders@[k]@));
    lemma_folder_changed(pre@, k, post.folders@[k]@);
}

/// An engine whose folder at place `k` took in new images under identifiers
/// that were free, and whose next free identifier moved past them, is well
/// formed, and its value is the old one with that folder replaced.
proof fn lemma_slot_grown(pre: ImageLoader, post: ImageLoader, k: int)
    requires
        pre.wf(),
        0 <= k < pre.folders@.len(),
        post.folders@ == pre.folders@.update(k, post.folders@[k]),
        post.folders@[k].wf(),
        post.folders@[k].id == pre.folders@[k].id,
        post.folders@[k].path@ == pre.folders@[k].path@,
        post.folders@[k].added_at == pre.folders@[k].added_at,
        post.next_image_id >= pre.next_image_id,
        post.folders@[k]@.ids_below(post.next_image_id as int),
        forall|id: i64|
            holds_image(post.folders@[k]@.images, id) ==> holds_image(pre.folders@[k]@.images, id)
                || id >= pre.next_image_id,
        post.current_folder_id == pre.current_folder_id,
        post.last_image_id == pre.last_image_id,
        post.state@ == pre.state@,
        post.next_folder_id == pre.next_folder_id,
    ensures
        post.wf(),
        post@ == pre@.with_folder(k, post.folders@[k]@).with_next_image_id(post.next_image_id),
        post@.current_position() == pre@.current_position(),
        forall|id: i64| post@.folder_position(id) == pre@.folder_position(id),
{
    assert(post@.folders =~= pre@.folders.update(k, post.folders@[k]@));
    lemma_folder_grown(pre@, k, post.folders@[k]@, post.next_image_id);
}

impl ImageLoader {
    /// The store's values are well formed, and so is every folder's
    /// representation.
    pub closed spec fn wf(&self) -> bool {
        &&& self@.wf()
        &&& forall|k: int| 0 <= k < self.folders@.len() ==> (#[trigger] self.folders@[k]).wf()
    }

    /// A well-formed engine has a well-formed value.
    pub proof fn lemma_wf(&self)
        requires
            self.wf(),
        ensures
            self@.wf(),
    {
    }

    /// Selects the folder at place `k`.
    fn select_slot(&mut self, k: usize) -> (id: i64)
        requires
            old(self).wf(),
            k < old(self)@.folders.len(),
        ensures
            final(self).wf(),
            id == old(self)@.folders[k as int].id,
            final(self)@ == (LoaderView { current_folder_id: Some(id), ..old(self)@ }),
            final(self)@.current_position() == Some(k as int),
    {
        let id = self.folders[k].id;
        self.current_folder_id = Some(id);
        proof {
            assert(self@.folders[k as int].id == id);
            lemma_folder_position(self@, k as int);
        }
        id
    }

    /// Selects no folder.
    fn deselect(&mut self)
        requires
            old(self).wf(),
        ensures
            final(self).wf(),
            final(self)@ == (LoaderView { current_folder_id: None, ..old(self)@ }),
    {
        self.current_folder_id = None;
    }

    /// Hands out the entry that a move of the folder at place `k` arrived at,
    /// with its path, or the failure `exhausted` when it arrived nowhere.
    fn hand_out(&self, k: usize, shown: Option<Entry>, exhausted: LoaderError) -> (r:
        Result<ImageHistoryItem, LoaderError>)
        requires
            self.wf(),
            k < self@.folders.len(),
            shown matches Some(e) ==> self@.folders[k as int].has_image(e.image_id),
        ensures
            match shown {
                None => r matches Err(x) && x == exhausted,
                Some(e) => r matches Ok(item) && item@ == self@.folders[k as int].item_of(e),
            },
    {
        match shown {
            None => Err(exhausted),
            Some(e) => Ok(self.folders[k].item_for(e)),
        }
    }

    /// An engine over an empty store with the initial display preferences.
    pub fn new() -> (loader: ImageLoader)
        ensures
            loader.wf(),
            loader@ == LoaderView::empty(),
    {
        let loader = ImageLoader {
            folders: Vec::new(),
            current_folder_id: None,
            last_image_id: None,
            state: ImageState::initial(),
            next_folder_id: 1,
            next_image_id: 1,
        };
        assert(loader@.folders =~= Seq::<FolderView>::empty());
        loader
    }

    /// The folders with all that the store holds for them, in history order.
    pub fn folders(&self) -> (all: &Vec<Folder>)
        ensures
            folder_views(all@) == self@.folders,
            self.wf() ==> forall|k: int| 0 <= k < all@.len() ==> (#[trigger] all@[k]).wf(),
    {
        &self.folders
    }

    /// The image that was handed out last, if any.
    pub fn get_last_image_id(&self) -> (id: Option<i64>)
        ensures
            id == self@.last_image_id,
    {
        self.last_image_id
    }

    /// The identifier that the next new image receives.
    pub fn next_image_id(&self) -> (id: i64)
        ensures
            id == self@.next_image_id,
    {
        self.next_image_id
    }

    /// The identifier of the selected folder, if one is selected.
    pub fn get_current_folder_id(&self) -> (id: Option<i64>)
        ensures
            id == self@.current_folder_id,
    {
        self.current_folder_id
    }

    /// The place of the folder `id` in the folder history.
    pub fn find_folder(&self, id: i64) -> (found: Option<usize>)
        requires
            self.wf(),
        ensures
            match found {
                Some(k) => self@.folder_position(id) == Some(k as int) && k < self@.folders.len()
                    && self@.folders[k as int].id == id,
                None => !self@.has_folder(id),
            },
    {
        let mut i: usize = 0;
        while i < self.folders.len()
            invariant
                i <= self.folders.len(),
                self.wf(),
                forall|j: int| 0 <= j < i ==> (#[trigger] self@.folders[j]).id != id,
            decreases self.folders.len() - i,
        {
            if self.folders[i].id == id {
                proof {
                    assert(self@.folders[i as int].id == id);
                    lemma_folder_position(self@, i as int);
                }
                return Some(i);
            }
            i += 1;
        }
        None
    }

    /// The place of the selected folder in the folder history.
    pub fn current_slot(&self) -> (found: Option<usize>)
        requires
            self.wf(),
        ensures
            match found {
                Some(k) => self@.current_position() == Some(k as int) && k < self@.folders.len()
                    && self@.current_folder_id == Some(self@.folders[k as int].id),
                None => self@.current_folder_id is None && self@.current_position() is None,
            },
    {
        match self.current_folder_id {
            Some(id) => self.find_folder(id),
            None => None,
        }
    }

    /// The selected folder by identifier and path.
    pub fn get_current_folder_id_and_path(&self) -> (current: Option<(i64, String)>)
        requires
            self.wf(),
        ensures
            match current {
                Some((id, path)) => self@.current_folder() matches Some(f) && f.id == id && f.path
                    == path@,
                None => self@.current_folder() is None && self@.current_folder_id is None,
            },
    {
        match self.current_slot() {
            Some(k) => Some((self.folders[k].id, self.folders[k].path.clone())),
            None => None,
        }
    }

    /// The display preferences, the timer flow mode read as one of its two
    /// values.
    pub fn get_image_state(&self) -> (state: ImageState)
        ensures
            state@ == self@.state.normalized(),
    {
        let mut state = self.state.copy();
        let normal = String::from_str("normal");
        if state.timer_flow_mode == normal {
            state.timer_flow_mode = normal;
        } else {
            state.timer_flow_mode = String::from_str("random");
        }
        state
    }

    /// Replaces the display preferences.
    pub fn set_image_state(&mut self, state: &ImageState)
        requires
            old(self).wf(),
        ensures
            final(self).wf(),
            final(self)@ == (LoaderView { state: state@, ..old(self)@ }),
    {
        self.state = state.copy();
    }
}

} // verus!
