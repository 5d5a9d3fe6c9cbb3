//! Taking in what a scan found, emptying a folder for a new scan, and
//! settling the outcome of reading an image's file.

use crate::entries::list_has;
use crate::error::LoaderError;
use crate::folder::holds_image;
use crate::img_loader::{lemma_slot_changed, lemma_slot_grown, ImageLoader, LoaderView};
use crate::scanner::{progress_views, scan_report, Progress, ProgressView};
use crate::upkeep::{lemma_images_added, lemma_without_image, texts};
use vstd::prelude::*;

verus! {

/// What the caller found when it read an image's file.
#[derive(Clone, Debug, PartialEq, Eq)]
pub enum FileRead {
    /// The bytes of the file.
    Data(Vec<u8>),
    /// There is no such file.
    NotFound,
    /// The file could not be read, for the reason given.
    Failed(String),
}

impl LoaderView {
    /// The place of the folder that holds the image `id`, if the store holds
    /// that image.
    pub open spec fn image_owner(self, id: i64) -> Option<int> {
        if exists|k: int|
            0 <= k < self.folders.len() && #[trigger] holds_image(self.folders[k].images, id) {
            Some(
                choose|k: int|
                    0 <= k < self.folders.len() && #[trigger] holds_image(
                        self.folders[k].images,
                        id,
                    ),
            )
        } else {
            None
        }
    }

    /// This store after the folder at place `k` took in the paths of a scan.
    pub open spec fn with_scanned(self, k: int, paths: Seq<Seq<char>>) -> LoaderView {
        let g = self.folders[k].with_scanned(paths, self.next_image_id as int);
        self.with_folder(k, g).with_next_image_id(
            (self.next_image_id + g.images.len() - self.folders[k].images.len()) as i64,
        )
    }
}

/// What settling the outcome of reading an image's file does. An image that
/// the store does not hold is refused and nothing changes. Otherwise the
/// image becomes the last one handed out; bytes pass through as they are; a
/// file that is not there has its image's row removed, with all that refers
/// to it; any other failure leaves the row in place.
pub open spec fn loads(
    pre: LoaderView,
    image_id: i64,
    read: FileRead,
    post: LoaderView,
    r: Result<Vec<u8>, LoaderError>,
) -> bool {
    match pre.image_owner(image_id) {
        None => r matches Err(LoaderError::RowNotFound) && post == pre,
        Some(k) => match read {
            FileRead::Data(bytes) => r matches Ok(data) && data@ == bytes@ && post
                == pre.with_last_image(Some(image_id)),
            FileRead::NotFound => {
                &&& r matches Err(LoaderError::ImageFileMissing { path }) && path@
                    == pre.folders[k].path_of(image_id)
                &&& post == pre.with_folder(
                    k,
                    pre.folders[k].without_image(image_id),
                ).with_last_image(Some(image_id))
            },
            FileRead::Failed(detail) => r matches Err(LoaderError::ImageReadFailed { detail: text })
                && text@ == detail@ && post == pre.with_last_image(Some(image_id)),
        },
    }
}

impl ImageLoader {
    /// The place of the folder that holds the image `id`.
    pub fn find_image_owner(&self, id: i64) -> (found: Option<usize>)
        requires
            self.wf(),
        ensures
            match found {
                Some(k) => self@.image_owner(id) == Some(k as int) && k < self@.folders.len()
                    && self@.folders[k as int].has_image(id),
                None => self@.image_owner(id) is None,
            },
    {
        let mut i: usize = 0;
        while i < self.folders.len()
            invariant
                i <= self.folders.len(),
                self.wf(),
                forall|j: int| 0 <= j < i ==> !#[trigger] holds_image(self@.folders[j].images, id),
            decreases self.folders.len() - i,
        {
            if self.folders[i].find_image(id).is_some() {
                proof {
                    assert(holds_image(self@.folders[i as int].images, id));
                    let k = self@.image_owner(id).unwrap();
                    if k != i {
                        assert(holds_image(self@.folders[k].images, id));
                    }
                }
                return Some(i);
            }
            i += 1;
        }
        None
    }

    /// The path of the image `id`.
    pub fn image_path(&self, id: i64) -> (r: Result<String, LoaderError>)
        requires
            self.wf(),
        ensures
            match self@.image_owner(id) {
                Some(k) => r matches Ok(path) && path@ == self@.folders[k].path_of(id),
                None => r matches Err(LoaderError::RowNotFound),
            },
    {
        match self.find_image_owner(id) {
            Some(k) => {
                let at = self.folders[k].find_image(id).unwrap();
                Ok(self.folders[k].images[at].path.clone())
            },
            None => Err(LoaderError::RowNotFound),
        }
    }

    /// Settles the outcome of reading the file of the image `image_id`. An
    /// image that the store does not hold is refused and nothing changes.
    /// Otherwise the image becomes the last one handed out; bytes pass through
    /// as they are; a file that is not there has its image's row removed; any
    /// other failure leaves the row in place.
    pub fn load_by_image_id(&mut self, image_id: i64, read: FileRead) -> (r: Result<
        Vec<u8>,
        LoaderError,
    >)
        requires
            old(self).wf(),
        ensures
            final(self).wf(),
            loads(old(self)@, image_id, read, final(self)@, r),
            old(self)@.image_owner(image_id) is Some && read is NotFound
                ==> final(self)@.image_owner(image_id) is None,
    {
        let k = match self.find_image_owner(image_id) {
            Some(k) => k,
            None => {
                return Err(LoaderError::RowNotFound);
            },
        };
        self.last_image_id = Some(image_id);
        match read {
            FileRead::Data(bytes) => Ok(bytes),
            FileRead::Failed(detail) => Err(LoaderError::ImageReadFailed { detail }),
            FileRead::NotFound => {
                let at = self.folders[k].find_image(image_id).unwrap();
                let path = self.folders[k].images[at].path.clone();
                let ghost mid = *self;
                proof {
                    mid.lemma_wf();
                    lemma_without_image(mid@.folders[k as int], image_id);
                }
                self.folders[k].remove_image(image_id);
                proof {
                    lemma_slot_changed(mid, *self, k as int);
                    assert(self@.image_owner(image_id) is None) by {
                        if self@.image_owner(image_id) is Some {
                            let j = self@.image_owner(image_id).unwrap();
                            assert(holds_image(self@.folders[j].images, image_id));
                            if j != k {
                                assert(self@.folders[j] == mid@.folders[j]);
                                assert(holds_image(mid@.folders[k as int].images, image_id));
                            }
                        }
                    }
                }
                Err(LoaderError::ImageFileMissing { path })
            },
        }
    }

    /// Whether the folder `folder_id` is to be scanned, and where: a folder
    /// that has images is passed over unless the scan is forced. Gives the
    /// folder's path for a scan that is due, with the notes that open it.
    pub fn scan_request(&self, folder_id: i64, force_rescan: bool) -> (r: (
        Result<Option<String>, LoaderError>,
        Vec<Progress>,
    ))
        requires
            self.wf(),
        ensures
            match self@.folder_position(folder_id) {
                None => r.0 matches Err(LoaderError::RowNotFound) && r.1@.len() == 0,
                Some(k) => {
                    let f = self@.folders[k];
                    if f.images.len() > 0 && !force_rescan {
                        &&& r.0 matches Ok(None)
                        &&& progress_views(r.1@) == seq![
                            ProgressView::ScanStart { path: f.path },
                            ProgressView::ScanSkip { count: f.images.len() as u64 },
                        ]
                    } else {
                        &&& r.0 matches Ok(Some(path)) && path@ == f.path
                        &&& progress_views(r.1@) == seq![ProgressView::ScanStart { path: f.path }]
                    }
                },
            },
    {
        let mut notes: Vec<Progress> = Vec::new();
        let k = match self.find_folder(folder_id) {
            Some(k) => k,
            None => {
                return (Err(LoaderError::RowNotFound), notes);
            },
        };
        let folder = &self.folders[k];
        notes.push(Progress::ScanStart { path: folder.path.clone() });
        let count = folder.images.len();
        if count > 0 && !force_rescan {
            notes.push(Progress::ScanSkip { count: count as u64 });
            proof {
                assert(progress_views(notes@) =~= seq![
                    ProgressView::ScanStart { path: folder@.path },
                    ProgressView::ScanSkip { count: count as u64 },
                ]);
            }
            return (Ok(None), notes);
        }
        proof {
            assert(progress_views(notes@) =~= seq![ProgressView::ScanStart { path: folder@.path }]);
        }
        (Ok(Some(folder.path.clone())), notes)
    }

    /// Takes the paths that a scan of the folder `folder_id` found into the
    /// store, in their order, passing over each path that the folder already
    /// has. Fails, changing nothing, for a folder that the store does not
    /// hold and when the identifiers do not suffice; fails after the paths
    /// were taken in when the folder is left without an image. Gives the
    /// number of the folder's images, and the notes of the scan from the end
    /// of its walk on.
    pub fn index_folder_with_progress(&mut self, folder_id: i64, paths: &Vec<String>) -> (r: (
        Result<i64, LoaderError>,
        Vec<Progress>,
    ))
        requires
            old(self).wf(),
        ensures
            final(self).wf(),
            match old(self)@.folder_position(folder_id) {
                None => r.0 matches Err(LoaderError::RowNotFound) && final(self)@ == old(self)@
                    && r.1@.len() == 0,
                Some(k) => if old(self)@.next_image_id + paths@.len() > i64::MAX {
                    r.0 matches Err(LoaderError::StoreFull) && final(self)@ == old(self)@
                        && r.1@.len() == 0
                } else {
                    let after = old(self)@.with_scanned(k, texts(paths@));
                    &&& final(self)@ == after
                    &&& progress_views(r.1@) == scan_report(
                        texts(paths@),
                        after.folders[k].images.len(),
                    )
                    &&& if after.folders[k].images.len() == 0 {
                        r.0 matches Err(LoaderError::NoImagesFound)
                    } else {
                        r.0 == Ok::<i64, LoaderError>(after.folders[k].images.len() as i64)
                    }
                },
            },
    {
        let mut notes: Vec<Progress> = Vec::new();
        let k = match self.find_folder(folder_id) {
            Some(k) => k,
            None => {
                return (Err(LoaderError::RowNotFound), notes);
            },
        };
        let total = paths.len();
        proof {
            self.lemma_wf();
        }
        if (total as u64) > (i64::MAX - self.next_image_id) as u64 {
            return (Err(LoaderError::StoreFull), notes);
        }
        let ghost f = self@.folders[k as int];
        proof {
            lemma_images_added(f.images, texts(paths@), self.next_image_id as int);
        }
        let added = self.folders[k].add_images(paths, self.next_image_id);
        self.next_image_id = self.next_image_id + added as i64;
        proof {
            let g = self.folders@[k as int]@;
            assert forall|id: i64| holds_image(g.images, id) implies holds_image(f.images, id) || id
                >= old(self).next_image_id by {
                let i = choose|i: int| 0 <= i < g.images.len() && (#[trigger] g.images[i]).id == id;
                if i < f.images.len() {
                    assert(g.images.take(f.images.len() as int)[i] == f.images[i]);
                }
            }
            lemma_slot_grown(*old(self), *self, k as int);
            crate::folder::lemma_ranked(g.images);
        }
        notes.push(Progress::ScanDone { total: total as u64 });
        let ghost found = progress_views(notes@);
        proof {
            assert(found =~= seq![ProgressView::ScanDone { total: total as u64 }]);
        }
        if total > 0 {
            let mut taken = Progress::indexed(paths);
            let ghost taken_views = progress_views(taken@);
            notes.append(&mut taken);
            notes.push(Progress::IndexDone);
            proof {
                assert(progress_views(notes@) =~= found + taken_views.push(ProgressView::IndexDone));
            }
        } else {
            proof {
                assert(progress_views(notes@) =~= found + Seq::<ProgressView>::empty());
            }
        }
        let ghost sofar = progress_views(notes@);
        let count = self.folders[k].images.len();
        if count == 0 {
            notes.push(Progress::IndexError);
            proof {
                assert(progress_views(notes@) =~= sofar.push(ProgressView::IndexError));
            }
            (Err(LoaderError::NoImagesFound), notes)
        } else {
            notes.push(Progress::IndexReady { count: count as u64 });
            proof {
                assert(progress_views(notes@) =~= sofar.push(
                    ProgressView::IndexReady { count: count as u64 },
                ));
            }
            (Ok(count as i64), notes)
        }
    }

    /// Empties the selected folder for a new scan: its images, marks, lap and
    /// log go, and both cursors are unset. A selected folder that is reported
    /// missing is deleted instead, and the call fails. Gives the folder to
    /// scan.
    pub fn reindex_current_folder(&mut self, missing: &Vec<i64>) -> (r: Result<
        (i64, String),
        LoaderError,
    >)
        requires
            old(self).wf(),
        ensures
            final(self).wf(),
            match old(self)@.current_folder() {
                None => r matches Err(LoaderError::NoFolderSelected) && final(self)@ == old(self)@,
                Some(f) => if missing@.contains(f.id) {
                    &&& r matches Err(LoaderError::FolderGone { path }) && path@ == f.path
                    &&& final(self)@ == old(self)@.without_folder(f.id)
                } else {
                    &&& r matches Ok((id, path)) && id == f.id && path@ == f.path
                    &&& final(self)@ == old(self)@.with_current(f.emptied())
                },
            },
    {
        let k = match self.current_slot() {
            Some(k) => k,
            None => {
                return Err(LoaderError::NoFolderSelected);
            },
        };
        let id = self.folders[k].id;
        let path = self.folders[k].path.clone();
        if list_has(missing, id) {
            self.delete_folder_by_id(id);
            return Err(LoaderError::FolderGone { path });
        }
        self.folders[k].clear();
        proof {
            lemma_slot_changed(*old(self), *self, k as int);
        }
        Ok((id, path))
    }
}

} // verus!
