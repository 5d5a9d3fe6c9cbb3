//! What has to happen before an image can be handed out: the selection is
//! checked against the disk, and the selected folder is scanned if it has no
//! images yet. The engine decides; the caller walks the directory tree and
//! hands what it found to `index_folder_with_progress`.

use crate::error::LoaderError;
use crate::img_loader::folders::now_micros;
use crate::img_loader::{lemma_folder_position, ImageLoader, LoaderView};
use crate::scanner::{progress_views, Progress, ProgressView};
use vstd::prelude::*;

verus! {

/// The folder that images will come from, whether the engine had to fall back
/// to it, and the path to scan if a scan is due.
#[derive(Clone, Debug, PartialEq, Eq)]
pub struct IndexPlan {
    pub folder_id: i64,
    pub auto_switched: bool,
    pub scan: Option<String>,
}

impl LoaderView {
    /// Whether `plan` is the plan for the selected folder: a scan of its path
    /// is due when it has no images or the scan is forced.
    pub open spec fn plans(self, auto_switched: bool, force_rescan: bool, plan: IndexPlan) -> bool {
        match self.current_folder() {
            Some(f) => {
                &&& plan.folder_id == f.id
                &&& plan.auto_switched == auto_switched
                &&& if f.images.len() > 0 && !force_rescan {
                    plan.scan is None
                } else {
                    plan.scan matches Some(path) && path@ == f.path
                }
            },
            None => false,
        }
    }

    /// The notes that open the scan of the selected folder: its start, and
    /// that it is passed over when the folder has images and the scan is not
    /// forced.
    pub open spec fn opening_notes(self, force_rescan: bool) -> Seq<ProgressView> {
        match self.current_folder() {
            Some(f) => if f.images.len() > 0 && !force_rescan {
                seq![
                    ProgressView::ScanStart { path: f.path },
                    ProgressView::ScanSkip { count: f.images.len() as u64 },
                ]
            } else {
                seq![ProgressView::ScanStart { path: f.path }]
            },
            None => Seq::empty(),
        }
    }
}

impl ImageLoader {
    /// The plan for the selected folder, with the notes that open its scan.
    fn plan_current(&self, auto_switched: bool, force_rescan: bool) -> (r: (IndexPlan, Vec<Progress>))
        requires
            self.wf(),
            self@.current_folder() is Some,
        ensures
            self@.plans(auto_switched, force_rescan, r.0),
            progress_views(r.1@) == self@.opening_notes(force_rescan),
    {
        let k = self.current_slot().unwrap();
        let folder_id = self.folders[k].id;
        proof {
            self.lemma_wf();
            lemma_folder_position(self@, k as int);
        }
        let (request, notes) = self.scan_request(folder_id, force_rescan);
        let scan = match request {
            Ok(scan) => scan,
            Err(_) => None,
        };
        (IndexPlan { folder_id, auto_switched, scan }, notes)
    }

    /// Checks the selection against the disk, falling back where the selected
    /// folder is gone, and plans the scan of the folder it arrives at.
    pub fn ensure_images_indexed_with_progress(
        &mut self,
        missing: &Vec<i64>,
        force_rescan: bool,
    ) -> (r: (Result<IndexPlan, LoaderError>, Vec<Progress>))
        requires
            old(self).wf(),
        ensures
            final(self).wf(),
            final(self)@ == old(self)@.revalidated(missing@),
            match old(self)@.validation(missing@) {
                Ok((id, auto_switched)) => {
                    &&& r.0 matches Ok(plan) && final(self)@.plans(
                        auto_switched,
                        force_rescan,
                        plan,
                    ) && plan.folder_id == id
                    &&& progress_views(r.1@) == old(self)@.validation_notes(missing@)
                        + final(self)@.opening_notes(force_rescan)
                },
                Err(e) => r.0 == Err::<IndexPlan, LoaderError>(e) && progress_views(r.1@) == old(
                    self,
                )@.validation_notes(missing@),
            },
    {
        let mut notes = self.validation_notes(missing);
        match self.ensure_valid_current_folder(missing) {
            Err(e) => (Err(e), notes),
            Ok((_, auto_switched)) => {
                let (plan, mut opening) = self.plan_current(auto_switched, force_rescan);
                let ghost first = progress_views(notes@);
                let ghost second = progress_views(opening@);
                notes.append(&mut opening);
                proof {
                    assert(progress_views(notes@) =~= first + second);
                }
                (Ok(plan), notes)
            },
        }
    }

    /// Checks the selection against the disk, falling back where the selected
    /// folder is gone, and plans the scan of the folder it arrives at, which
    /// is due only if that folder has no images.
    pub fn ensure_images_indexed(&mut self, missing: &Vec<i64>) -> (r: Result<
        IndexPlan,
        LoaderError,
    >)
        requires
            old(self).wf(),
        ensures
            final(self).wf(),
            final(self)@ == old(self)@.revalidated(missing@),
            match old(self)@.validation(missing@) {
                Ok((id, auto_switched)) => r matches Ok(plan) && final(self)@.plans(
                    auto_switched,
                    false,
                    plan,
                ) && plan.folder_id == id,
                Err(e) => r == Err::<IndexPlan, LoaderError>(e),
            },
    {
        self.ensure_images_indexed_with_progress(missing, false).0
    }

    /// Selects the folder with the canonical path `path`, created at
    /// `added_at` if it is new, and plans its scan.
    pub fn select_folder_and_plan(&mut self, path: &str, added_at: i64) -> (r: (
        Result<IndexPlan, LoaderError>,
        Vec<Progress>,
    ))
        requires
            old(self).wf(),
        ensures
            final(self).wf(),
            final(self)@ == old(self)@.with_selected(path@, added_at),
            match old(self)@.selection(path@) {
                Ok(id) => {
                    &&& r.0 matches Ok(plan) && plan.folder_id == id && final(self)@.plans(
                        false,
                        false,
                        plan,
                    )
                    &&& progress_views(r.1@) == final(self)@.opening_notes(false)
                },
                Err(e) => r.0 == Err::<IndexPlan, LoaderError>(e) && r.1@.len() == 0,
            },
    {
        match self.select_folder(path, added_at) {
            Err(e) => (Err(e), Vec::new()),
            Ok((id, _)) => {
                proof {
                    self.lemma_wf();
                    let k = self@.folder_position(id).unwrap();
                    lemma_folder_position(self@, k);
                }
                let (plan, notes) = self.plan_current(false, false);
                (Ok(plan), notes)
            },
        }
    }

    /// Selects the folder with the canonical path `path`, created at the
    /// present time if it is new, and plans its scan.
    pub fn set_current_folder_and_index_with_progress(&mut self, path: &str) -> (r: (
        Result<IndexPlan, LoaderError>,
        Vec<Progress>,
    ))
        requires
            old(self).wf(),
        ensures
            final(self).wf(),
            exists|added_at: i64| final(self)@ == old(self)@.with_selected(path@, added_at),
            match old(self)@.selection(path@) {
                Ok(id) => {
                    &&& r.0 matches Ok(plan) && plan.folder_id == id && final(self)@.plans(
                        false,
                        false,
                        plan,
                    )
                    &&& progress_views(r.1@) == final(self)@.opening_notes(false)
                },
                Err(e) => r.0 == Err::<IndexPlan, LoaderError>(e) && r.1@.len() == 0,
            },
    {
        let added_at = now_micros();
        self.select_folder_and_plan(path, added_at)
    }

    /// Selects the folder with the canonical path `path`, created at the
    /// present time if it is new, and plans its scan.
    pub fn set_current_folder_and_index(&mut self, path: &str) -> (r: Result<
        IndexPlan,
        LoaderError,
    >)
        requires
            old(self).wf(),
        ensures
            final(self).wf(),
            exists|added_at: i64| final(self)@ == old(self)@.with_selected(path@, added_at),
            match old(self)@.selection(path@) {
                Ok(id) => r matches Ok(plan) && plan.folder_id == id && final(self)@.plans(
                    false,
                    false,
                    plan,
                ),
                Err(e) => r == Err::<IndexPlan, LoaderError>(e),
            },
    {
        self.set_current_folder_and_index_with_progress(path).0
    }

    /// Empties the selected folder for a new scan, as `reindex_current_folder`
    /// does, and plans that scan, which is always due.
    pub fn reindex_current_folder_with_progress(&mut self, missing: &Vec<i64>) -> (r: (
        Result<IndexPlan, LoaderError>,
        Vec<Progress>,
    ))
        requires
            old(self).wf(),
        ensures
            final(self).wf(),
            match old(self)@.current_folder() {
                None => r.0 matches Err(LoaderError::NoFolderSelected) && final(self)@ == old(
                    self,
                )@ && r.1@.len() == 0,
                Some(f) => if missing@.contains(f.id) {
                    &&& r.0 matches Err(LoaderError::FolderGone { path }) && path@ == f.path
                    &&& final(self)@ == old(self)@.without_folder(f.id)
                    &&& r.1@.len() == 0
                } else {
                    &&& r.0 matches Ok(plan) && plan.folder_id == f.id && !plan.auto_switched && (
                    plan.scan matches Some(path) && path@ == f.path)
                    &&& final(self)@ == old(self)@.with_current(f.emptied())
                    &&& progress_views(r.1@) == seq![ProgressView::ScanStart { path: f.path }]
                },
            },
    {
        match self.reindex_current_folder(missing) {
            Err(e) => (Err(e), Vec::new()),
            Ok((id, _)) => {
                proof {
                    old(self).lemma_wf();
                    let k = old(self)@.current_position().unwrap();
                    crate::upkeep::lemma_emptied(old(self)@.folders[k]);
                    crate::img_loader::lemma_folder_changed(
                        old(self)@,
                        k,
                        old(self)@.folders[k].emptied(),
                    );
                    assert(self@.folders[k] == old(self)@.folders[k].emptied());
                }
                let (plan, notes) = self.plan_current(false, true);
                (Ok(plan), notes)
            },
        }
    }
}

} // verus!
