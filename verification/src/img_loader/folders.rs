//! Folder selection and the folder history.

use crate::entries::{Entry, UNSET};
use crate::error::LoaderError;
use crate::folder::{holds_image, Folder, FolderView, ImageView};
use crate::img_loader::{comes_before, lemma_folder_position, ImageLoader, LoaderView};
use vstd::prelude::*;

verus! {

/// Whether one of `folders` has the path `p`.
pub open spec fn holds_folder_path(folders: Seq<FolderView>, p: Seq<char>) -> bool {
    exists|k: int| 0 <= k < folders.len() && (#[trigger] folders[k]).path == p
}

/// The place among `folders`, at or after `from`, where the folder `g` belongs
/// in history order: behind every folder that comes before it.
pub open spec fn place_for(folders: Seq<FolderView>, g: FolderView, from: int) -> int
    decreases folders.len() - from,
{
    if from < 0 || from >= folders.len() || !comes_before(folders[from], g) {
        from
    } else {
        place_for(folders, g, from + 1)
    }
}

/// A folder that was just created.
pub open spec fn fresh_folder(id: i64, path: Seq<char>, added_at: i64) -> FolderView {
    FolderView {
        id,
        path,
        added_at,
        current_index: UNSET,
        current_random_index: UNSET,
        images: Seq::<ImageView>::empty(),
        hidden_normal: Set::<i64>::empty(),
        hidden_random: Set::<i64>::empty(),
        lap: Set::<i64>::empty(),
        history: Seq::<Entry>::empty(),
    }
}

impl LoaderView {
    /// The folder with the path `p`, if the store holds one.
    pub open spec fn folder_by_path(self, p: Seq<char>) -> Option<FolderView> {
        if holds_folder_path(self.folders, p) {
            Some(
                self.folders[choose|k: int|
                    0 <= k < self.folders.len() && (#[trigger] self.folders[k]).path == p],
            )
        } else {
            None
        }
    }

    /// This store with a new folder for `path`, created at `added_at`, under
    /// the next free identifier and at its place in history order.
    pub open spec fn with_new_folder(self, path: Seq<char>, added_at: i64) -> LoaderView {
        self.with_folder_row(self.next_folder_id, path, added_at)
    }

    /// This store with a new folder for `path`, created at `added_at`, under
    /// the identifier `id` and at its place in history order; the next free
    /// identifier moves past `id`.
    pub open spec fn with_folder_row(self, id: i64, path: Seq<char>, added_at: i64) -> LoaderView {
        let g = fresh_folder(id, path, added_at);
        LoaderView {
            folders: self.folders.insert(place_for(self.folders, g, 0), g),
            next_folder_id: if id >= self.next_folder_id {
                (id + 1) as i64
            } else {
                self.next_folder_id
            },
            ..self
        }
    }

    /// The folder that takes over when the folder at place `k` is deleted
    /// while selected: the next one in history order, the first one after the
    /// last, none when no other folder is left.
    pub open spec fn fallback_after(self, k: int) -> Option<i64> {
        if self.folders.len() <= 1 {
            None
        } else if k + 1 < self.folders.len() {
            Some(self.folders[k + 1].id)
        } else {
            Some(self.folders[0].id)
        }
    }

    /// This store without the folder `id` and all that it held; the selection
    /// passes to the fallback if that folder was selected. A store without
    /// such a folder stays as it is.
    pub open spec fn without_folder(self, id: i64) -> LoaderView {
        match self.folder_position(id) {
            None => self,
            Some(k) => LoaderView {
                folders: self.folders.remove(k),
                current_folder_id: if self.current_folder_id == Some(id) {
                    self.fallback_after(k)
                } else {
                    self.current_folder_id
                },
                ..self
            },
        }
    }

    /// This store after a full wipe: no folders, nothing selected, no last
    /// image; the display preferences and the identifier counts stay.
    pub open spec fn wiped(self) -> LoaderView {
        LoaderView {
            folders: Seq::empty(),
            current_folder_id: None,
            last_image_id: None,
            ..self
        }
    }
}

/// What selecting a folder by its canonical path does: a path that the store
/// knows has its folder selected; a new path gets a folder created at
/// `added_at`, which is selected; when the identifiers are used up, the call
/// fails and changes nothing. The call gives the folder's identifier and the
/// path.
pub open spec fn selects(
    pre: LoaderView,
    path: Seq<char>,
    added_at: i64,
    post: LoaderView,
    r: Result<(i64, String), LoaderError>,
) -> bool {
    &&& post == pre.with_selected(path, added_at)
    &&& match pre.selection(path) {
        Ok(folder_id) => r matches Ok((id, p)) && id == folder_id && p@ == path,
        Err(e) => r matches Err(x) && x == e,
    }
}

impl LoaderView {
    /// The folder that selecting by the canonical path `path` arrives at: the
    /// one with that path, else a new one under the next free identifier,
    /// unless the identifiers are used up.
    pub open spec fn selection(self, path: Seq<char>) -> Result<i64, LoaderError> {
        match self.folder_by_path(path) {
            Some(f) => Ok(f.id),
            None => if self.next_folder_id == i64::MAX {
                Err(LoaderError::StoreFull)
            } else {
                Ok(self.next_folder_id)
            },
        }
    }

    /// This store after selecting by the canonical path `path` at the time
    /// `added_at`.
    pub open spec fn with_selected(self, path: Seq<char>, added_at: i64) -> LoaderView {
        match self.folder_by_path(path) {
            Some(f) => LoaderView { current_folder_id: Some(f.id), ..self },
            None => if self.next_folder_id == i64::MAX {
                self
            } else {
                LoaderView {
                    current_folder_id: Some(self.next_folder_id),
                    ..self.with_new_folder(path, added_at)
                }
            },
        }
    }
}

/// Calls `chrono::Utc::now` and `DateTime::timestamp_micros`: the present time
/// in microseconds since the Unix epoch. Trusted: nothing is claimed of the
/// value. The call fails only on a machine whose clock stands before 1970.
#[verifier::external_body]
pub(crate) fn now_micros() -> i64 {
    chrono::Utc::now().timestamp_micros()
}

/// The place that `place_for` finds: every folder before it comes before `g`,
/// the folder at it does not.
pub proof fn lemma_place_for(folders: Seq<FolderView>, g: FolderView, from: int)
    requires
        0 <= from <= folders.len(),
    ensures
        from <= place_for(folders, g, from) <= folders.len(),
        forall|i: int|
            from <= i < place_for(folders, g, from) ==> comes_before(#[trigger] folders[i], g),
        place_for(folders, g, from) < folders.len() ==> !comes_before(
            folders[place_for(folders, g, from)],
            g,
        ),
    decreases folders.len() - from,
{
    if from < folders.len() && comes_before(folders[from], g) {
        lemma_place_for(folders, g, from + 1);
    }
}

/// Taking a folder that is not selected out of a well-formed store leaves a
/// well-formed store.
pub proof fn lemma_folder_removed(s: LoaderView, k: int)
    requires
        s.wf(),
        0 <= k < s.folders.len(),
        s.current_folder_id != Some(s.folders[k].id),
    ensures
        (LoaderView { folders: s.folders.remove(k), ..s }).wf(),
{
    let t = LoaderView { folders: s.folders.remove(k), ..s };
    assert forall|i: int| 0 <= i < t.folders.len() implies #[trigger] t.folders[i] == s.folders[if i
        < k {
        i
    } else {
        i + 1
    }] by {}
    assert forall|i: int, j: int| 0 <= i < j < t.folders.len() implies comes_before(
        #[trigger] t.folders[i],
        #[trigger] t.folders[j],
    ) && t.folders[i].path != t.folders[j].path && t.folders[i].id != t.folders[j].id by {
        let a = if i < k {
            i
        } else {
            i + 1
        };
        let b = if j < k {
            j
        } else {
            j + 1
        };
        assert(t.folders[i] == s.folders[a] && t.folders[j] == s.folders[b]);
        assert(comes_before(s.folders[a], s.folders[b]));
    }
    assert forall|i: int, j: int, id: i64|
        0 <= i < t.folders.len() && 0 <= j < t.folders.len() && i != j && #[trigger] holds_image(
            t.folders[i].images,
            id,
        ) implies !#[trigger] holds_image(t.folders[j].images, id) by {
        let a = if i < k {
            i
        } else {
            i + 1
        };
        let b = if j < k {
            j
        } else {
            j + 1
        };
        assert(t.folders[i] == s.folders[a] && t.folders[j] == s.folders[b]);
        assert(holds_image(s.folders[a].images, id));
    }
    match s.current_folder_id {
        Some(id) => {
            let p = choose|p: int| 0 <= p < s.folders.len() && (#[trigger] s.folders[p]).id == id;
            let q = if p < k {
                p
            } else {
                p - 1
            };
            assert(t.folders[q] == s.folders[p]);
        },
        None => {},
    }
}

/// Deleting a folder from a well-formed store leaves a well-formed store.
pub proof fn lemma_without_folder(s: LoaderView, id: i64)
    requires
        s.wf(),
    ensures
        s.without_folder(id).wf(),
        !s.without_folder(id).has_folder(id),
{
    match s.folder_position(id) {
        None => {},
        Some(k) => {
            let cleared = LoaderView {
                current_folder_id: if s.current_folder_id == Some(id) {
                    None
                } else {
                    s.current_folder_id
                },
                ..s
            };
            lemma_folder_removed(cleared, k);
            let t = s.without_folder(id);
            if s.current_folder_id == Some(id) && s.folders.len() > 1 {
                if k + 1 < s.folders.len() {
                    assert(t.folders[k] == s.folders[k + 1]);
                } else {
                    assert(t.folders[0] == s.folders[0]);
                }
            }
            if t.has_folder(id) {
                let q = choose|q: int| 0 <= q < t.folders.len() && (#[trigger] t.folders[q]).id == id;
                let p = if q < k {
                    q
                } else {
                    q + 1
                };
                assert(t.folders[q] == s.folders[p]);
                lemma_folder_position(s, p);
            }
        },
    }
}

/// Adding a fresh folder with a new path to a well-formed store that has an
/// identifier to spare leaves a well-formed store.
pub proof fn lemma_with_new_folder(s: LoaderView, path: Seq<char>, added_at: i64)
    requires
        s.wf(),
        !holds_folder_path(s.folders, path),
        s.next_folder_id < i64::MAX,
    ensures
        s.with_new_folder(path, added_at).wf(),
        s.with_new_folder(path, added_at).has_folder(s.next_folder_id),
{
    if s.has_folder(s.next_folder_id) {
        let q = choose|q: int|
            0 <= q < s.folders.len() && (#[trigger] s.folders[q]).id == s.next_folder_id;
        assert(s.folders[q].id < s.next_folder_id);
    }
    lemma_with_folder_row(s, s.next_folder_id, path, added_at);
}

/// Adding a fresh folder under an identifier and a path that the store does
/// not hold leaves a well-formed store.
pub proof fn lemma_with_folder_row(s: LoaderView, id: i64, path: Seq<char>, added_at: i64)
    requires
        s.wf(),
        1 <= id < i64::MAX,
        !s.has_folder(id),
        !holds_folder_path(s.folders, path),
    ensures
        s.with_folder_row(id, path, added_at).wf(),
        s.with_folder_row(id, path, added_at).has_folder(id),
{
    let g = fresh_folder(id, path, added_at);
    let p = place_for(s.folders, g, 0);
    lemma_place_for(s.folders, g, 0);
    let t = s.with_folder_row(id, path, added_at);
    assert(t.folders[p] == g);
    assert forall|j: int| 0 <= j < s.folders.len() implies (#[trigger] s.folders[j]).id != id by {}
    assert forall|i: int| 0 <= i < t.folders.len() && i != p implies #[trigger] t.folders[i]
        == s.folders[if i < p {
        i
    } else {
        i - 1
    }] by {}
    assert forall|j: int| p <= j < s.folders.len() implies comes_before(
        g,
        #[trigger] s.folders[j],
    ) by {
        assert(s.folders[p].id != g.id);
        if j > p {
            assert(comes_before(s.folders[p], s.folders[j]));
        }
    }
    assert(g.wf());
    assert forall|i: int| 0 <= i < t.folders.len() implies (#[trigger] t.folders[i]).wf()
        && t.folders[i].id < t.next_folder_id && t.folders[i].ids_below(t.next_image_id as int) by {
        if i != p {
            let a = if i < p {
                i
            } else {
                i - 1
            };
            assert(t.folders[i] == s.folders[a]);
        }
    }
    assert forall|i: int, j: int| 0 <= i < j < t.folders.len() implies comes_before(
        #[trigger] t.folders[i],
        #[trigger] t.folders[j],
    ) && t.folders[i].path != t.folders[j].path && t.folders[i].id != t.folders[j].id by {
        let a = if i < p {
            i
        } else {
            i - 1
        };
        let b = if j < p {
            j
        } else {
            j - 1
        };
        if i == p {
            assert(t.folders[j] == s.folders[b]);
            assert(comes_before(g, s.folders[b]));
            assert(s.folders[b].id != id);
        } else if j == p {
            assert(t.folders[i] == s.folders[a]);
            assert(comes_before(s.folders[a], g));
            assert(s.folders[a].id != id);
        } else {
            assert(t.folders[i] == s.folders[a] && t.folders[j] == s.folders[b]);
            assert(comes_before(s.folders[a], s.folders[b]));
        }
    }
    assert forall|i: int, j: int, id: i64|
        0 <= i < t.folders.len() && 0 <= j < t.folders.len() && i != j && #[trigger] holds_image(
            t.folders[i].images,
            id,
        ) implies !#[trigger] holds_image(t.folders[j].images, id) by {
        let a = if i < p {
            i
        } else {
            i - 1
        };
        let b = if j < p {
            j
        } else {
            j - 1
        };
        if i != p && j != p {
            assert(t.folders[i] == s.folders[a] && t.folders[j] == s.folders[b]);
            assert(holds_image(s.folders[a].images, id));
        }
    }
    match s.current_folder_id {
        Some(id) => {
            let q = choose|q: int| 0 <= q < s.folders.len() && (#[trigger] s.folders[q]).id == id;
            let r = if q < p {
                q
            } else {
                q + 1
            };
            assert(t.folders[r] == s.folders[q]);
        },
        None => {},
    }
}

impl ImageLoader {
    /// Takes the folder at place `k`, which is not the selected one, out of
    /// the store.
    pub(super) fn drop_folder_at(&mut self, k: usize)
        requires
            old(self).wf(),
            k < old(self)@.folders.len(),
            old(self)@.current_folder_id != Some(old(self)@.folders[k as int].id),
        ensures
            final(self).wf(),
            final(self)@ == (LoaderView {
                folders: old(self)@.folders.remove(k as int),
                ..old(self)@
            }),
    {
        proof {
            lemma_folder_removed(self@, k as int);
        }
        self.folders.remove(k);
        proof {
            assert(self@.folders =~= old(self)@.folders.remove(k as int));
            assert forall|i: int| 0 <= i < self.folders@.len() implies (#[trigger] self.folders@[i]).wf() by {
                let a = if i < k {
                    i
                } else {
                    i + 1
                };
                assert(self.folders@[i] == old(self).folders@[a]);
            }
        }
    }

    /// The folder with the path `p`, by its place in the folder history.
    pub fn find_folder_by_path(&self, p: &str) -> (found: Option<usize>)
        requires
            self.wf(),
        ensures
            match found {
                Some(k) => k < self@.folders.len() && self@.folders[k as int].path == p@
                    && self@.folder_by_path(p@) == Some(self@.folders[k as int]),
                None => !holds_folder_path(self@.folders, p@),
            },
    {
        let wanted = String::from_str(p);
        let mut i: usize = 0;
        while i < self.folders.len()
            invariant
                i <= self.folders.len(),
                self.wf(),
                wanted@ == p@,
                forall|j: int| 0 <= j < i ==> (#[trigger] self@.folders[j]).path != p@,
            decreases self.folders.len() - i,
        {
            if self.folders[i].path == wanted {
                proof {
                    assert(self@.folders[i as int].path == p@);
                    let q = choose|q: int|
                        0 <= q < self@.folders.len() && (#[trigger] self@.folders[q]).path == p@;
                    if q < i {
                    } else if q > i {
                        assert(self@.folders[i as int].path != self@.folders[q].path);
                    }
                }
                return Some(i);
            }
            i += 1;
        }
        None
    }

    /// Makes sure the store has a folder for `path` and gives its identifier.
    /// A path that the store knows keeps its folder as it is; a new path gets
    /// a new folder, created at `added_at`, unless the identifiers are used
    /// up.
    pub fn insert_folder(&mut self, path: &str, added_at: i64) -> (r: Result<i64, LoaderError>)
        requires
            old(self).wf(),
        ensures
            final(self).wf(),
            match old(self)@.folder_by_path(path@) {
                Some(f) => r == Ok::<i64, LoaderError>(f.id) && final(self)@ == old(self)@,
                None => if old(self)@.next_folder_id == i64::MAX {
                    r matches Err(LoaderError::StoreFull) && final(self)@ == old(self)@
                } else {
                    r == Ok::<i64, LoaderError>(old(self)@.next_folder_id) && final(self)@ == old(
                        self,
                    )@.with_new_folder(path@, added_at)
                },
            },
    {
        match self.find_folder_by_path(path) {
            Some(k) => {
                return Ok(self.folders[k].id);
            },
            None => {},
        }
        if self.next_folder_id == i64::MAX {
            return Err(LoaderError::StoreFull);
        }
        let id = self.next_folder_id;
        let folder = Folder::new(id, String::from_str(path), added_at);
        let ghost g = folder@;
        let mut p: usize = 0;
        while p < self.folders.len() && Self::stands_before(&self.folders[p], &folder)
            invariant
                p <= self.folders.len(),
                folder@ == g,
                place_for(self@.folders, g, 0) == place_for(self@.folders, g, p as int),
            decreases self.folders.len() - p,
        {
            p += 1;
        }
        proof {
            lemma_with_new_folder(self@, path@, added_at);
        }
        self.folders.insert(p, folder);
        self.next_folder_id = id + 1;
        proof {
            assert(self@.folders =~= old(self)@.folders.insert(p as int, g));
            assert forall|i: int| 0 <= i < self.folders@.len() implies (#[trigger] self.folders@[i]).wf() by {
                if i != p {
                    let a = if i < p {
                        i
                    } else {
                        i - 1
                    };
                    assert(self.folders@[i] == old(self).folders@[a]);
                }
            }
        }
        Ok(id)
    }

    /// Selects the folder with the canonical path `path`, creating it at the
    /// time `added_at` if the store does not know the path yet.
    pub fn select_folder(&mut self, path: &str, added_at: i64) -> (r: Result<
        (i64, String),
        LoaderError,
    >)
        requires
            old(self).wf(),
        ensures
            final(self).wf(),
            selects(old(self)@, path@, added_at, final(self)@, r),
    {
        let id = match self.insert_folder(path, added_at) {
            Ok(id) => id,
            Err(e) => {
                return Err(e);
            },
        };
        proof {
            if old(self)@.folder_by_path(path@) is None {
                lemma_with_new_folder(old(self)@, path@, added_at);
            }
        }
        self.current_folder_id = Some(id);
        Ok((id, String::from_str(path)))
    }

    /// Selects the folder with the canonical path `path`, creating it at the
    /// present time if the store does not know the path yet.
    pub fn set_current_folder_by_path(&mut self, path: &str) -> (r: Result<
        (i64, String),
        LoaderError,
    >)
        requires
            old(self).wf(),
        ensures
            final(self).wf(),
            exists|added_at: i64| selects(old(self)@, path@, added_at, final(self)@, r),
    {
        let added_at = now_micros();
        self.select_folder(path, added_at)
    }

    /// Whether folder `a` stands before folder `b` in history order.
    pub(super) fn stands_before(a: &Folder, b: &Folder) -> (yes: bool)
        ensures
            yes == comes_before(a@, b@),
    {
        a.added_at > b.added_at || (a.added_at == b.added_at && a.id < b.id)
    }

    /// Selects the folder `folder_id`, or none. An identifier that names no
    /// folder of the store is refused.
    pub fn set_current_folder_id(&mut self, folder_id: Option<i64>) -> (r: Result<(), LoaderError>)
        requires
            old(self).wf(),
        ensures
            final(self).wf(),
            match folder_id {
                Some(id) if !old(self)@.has_folder(id) => r matches Err(LoaderError::RowNotFound)
                    && final(self)@ == old(self)@,
                _ => r is Ok && final(self)@ == (LoaderView {
                    current_folder_id: folder_id,
                    ..old(self)@
                }),
            },
    {
        match folder_id {
            Some(id) => {
                if self.find_folder(id).is_none() {
                    return Err(LoaderError::RowNotFound);
                }
            },
            None => {},
        }
        self.current_folder_id = folder_id;
        Ok(())
    }

    /// Deletes the folder `folder_id` with its images, marks, lap and log.
    /// If it was the selected folder, the selection passes to the next folder
    /// in history order, to the first after the last, or to none when no
    /// other folder is left.
    pub fn delete_folder_by_id(&mut self, folder_id: i64)
        requires
            old(self).wf(),
        ensures
            final(self).wf(),
            final(self)@ == old(self)@.without_folder(folder_id),
    {
        proof {
            lemma_without_folder(self@, folder_id);
        }
        match self.find_folder(folder_id) {
            None => {},
            Some(k) => {
                let n = self.folders.len();
                if self.current_folder_id == Some(folder_id) {
                    self.current_folder_id = if n <= 1 {
                        None
                    } else if k + 1 < n {
                        Some(self.folders[k + 1].id)
                    } else {
                        Some(self.folders[0].id)
                    };
                }
                self.folders.remove(k);
                proof {
                    assert(self@.folders =~= old(self)@.folders.remove(k as int));
                    assert forall|i: int| 0 <= i < self.folders@.len() implies (
                    #[trigger] self.folders@[i]).wf() by {
                        let a = if i < k {
                            i
                        } else {
                            i + 1
                        };
                        assert(self.folders@[i] == old(self).folders@[a]);
                    }
                }
            },
        }
    }

    /// The folder history, most recently added first: identifier, path,
    /// creation time and number of images of each folder.
    pub fn get_folder_history(&self) -> (rows: Vec<(i64, String, i64, i64)>)
        requires
            self.wf(),
        ensures
            rows@.len() == self@.folders.len(),
            forall|k: int|
                0 <= k < rows@.len() ==> {
                    let row = #[trigger] rows@[k];
                    let f = self@.folders[k];
                    row.0 == f.id && row.1@ == f.path && row.2 == f.added_at && row.3
                        == f.images.len()
                },
    {
        let mut rows: Vec<(i64, String, i64, i64)> = Vec::new();
        let mut i: usize = 0;
        while i < self.folders.len()
            invariant
                i <= self.folders.len(),
                self.wf(),
                rows@.len() == i,
                forall|k: int|
                    0 <= k < i ==> {
                        let row = #[trigger] rows@[k];
                        let f = self@.folders[k];
                        row.0 == f.id && row.1@ == f.path && row.2 == f.added_at && row.3
                            == f.images.len()
                    },
            decreases self.folders.len() - i,
        {
            let f = &self.folders[i];
            proof {
                crate::folder::lemma_ranked(self@.folders[i as int].images);
            }
            rows.push((f.id, f.path.clone(), f.added_at, f.images.len() as i64));
            i += 1;
        }
        rows
    }

    /// Forgets every folder with all it held, the selection and the last
    /// image. The display preferences stay as they are.
    pub fn full_wipe(&mut self)
        requires
            old(self).wf(),
        ensures
            final(self).wf(),
            final(self)@ == old(self)@.wiped(),
    {
        self.folders = Vec::new();
        self.current_folder_id = None;
        self.last_image_id = None;
        proof {
            assert(self@.folders =~= Seq::<FolderView>::empty());
        }
    }
}

} // verus!
