//! Recovery when folders have left the disk: falling back from a selected
//! folder that is gone, cycling through the folder history past stale
//! entries, and sweeping stale entries out. Which folders are gone is the
//! caller's report: the identifiers of the folders whose path is not on disk.

use crate::entries::{clamp_position, clamped_position, list_has};
use crate::error::LoaderError;
use crate::folder::FolderView;
use crate::img_loader::{ImageLoader, LoaderView};
use crate::scanner::{progress_views, Progress, ProgressView};
use vstd::prelude::*;

verus! {

/// The first place at or after `from` whose folder is not reported missing;
/// the length of the list if there is none.
pub open spec fn first_present(folders: Seq<FolderView>, missing: Seq<i64>, from: int) -> int
    decreases folders.len() - from,
{
    if from < 0 || from >= folders.len() || !missing.contains(folders[from].id) {
        from
    } else {
        first_present(folders, missing, from + 1)
    }
}

impl LoaderView {
    /// Whether a folder is selected that is not reported missing.
    pub open spec fn current_is_present(self, missing: Seq<i64>) -> bool {
        self.current_folder() matches Some(f) && !missing.contains(f.id)
    }

    /// The folder history without the selected folder.
    pub open spec fn others(self) -> Seq<FolderView> {
        match self.current_position() {
            Some(k) => self.folders.remove(k),
            None => self.folders,
        }
    }

    /// This store after its selection was checked against the disk. A
    /// selected folder that is there stays. Otherwise the selected folder is
    /// deleted, the folder history is walked from its front, every stale entry
    /// on the way is deleted, and the first folder that is there is selected;
    /// if there is none, nothing is selected.
    pub open spec fn revalidated(self, missing: Seq<i64>) -> LoaderView {
        if self.current_is_present(missing) {
            self
        } else {
            let rest = self.others();
            let j = first_present(rest, missing, 0);
            LoaderView {
                folders: rest.skip(j),
                current_folder_id: if j < rest.len() {
                    Some(rest[j].id)
                } else {
                    None
                },
                ..self
            }
        }
    }

    /// What checking the selection against the disk reports: the selected
    /// folder unswitched where it is there; otherwise the folder that the walk
    /// through the history found, switched; a failure where no other folder is
    /// known, and another where none of the others is there.
    pub open spec fn validation(self, missing: Seq<i64>) -> Result<(i64, bool), LoaderError> {
        if self.current_is_present(missing) {
            Ok((self.current_folder_id.unwrap(), false))
        } else {
            let rest = self.others();
            let j = first_present(rest, missing, 0);
            if rest.len() == 0 {
                Err(LoaderError::NoFoldersAvailable)
            } else if j >= rest.len() {
                Err(LoaderError::AllFoldersDeleted)
            } else {
                Ok((rest[j].id, true))
            }
        }
    }

    /// The notes that checking the selection against the disk sends: none
    /// where the selected folder is there; otherwise that the selected folder
    /// was deleted, if one was selected, then one note for each stale folder
    /// that the walk through the history passed over, then the folder that
    /// the walk arrived at, if it arrived anywhere.
    pub open spec fn validation_notes(self, missing: Seq<i64>) -> Seq<ProgressView> {
        if self.current_is_present(missing) {
            Seq::empty()
        } else {
            let rest = self.others();
            let j = first_present(rest, missing, 0);
            let gone = match self.current_folder() {
                Some(f) => seq![ProgressView::FolderDeleted { path: f.path }],
                None => Seq::empty(),
            };
            let found = if j < rest.len() {
                seq![ProgressView::FolderSwitched { path: rest[j].path }]
            } else {
                Seq::empty()
            };
            gone + cleaned(rest, j) + found
        }
    }

    /// Where cycling to the next folder starts: one place before the selected
    /// folder, wrapping to the last; the last place when nothing is selected.
    pub open spec fn next_start(self) -> int {
        match self.current_position() {
            Some(i) => if i == 0 {
                self.folders.len() - 1
            } else {
                i - 1
            },
            None => self.folders.len() - 1,
        }
    }

    /// Where cycling to the previous folder starts: one place after the
    /// selected folder, wrapping to the first; the first place when nothing is
    /// selected.
    pub open spec fn prev_start(self) -> int {
        match self.current_position() {
            Some(i) => if i + 1 >= self.folders.len() {
                0
            } else {
                i + 1
            },
            None => 0,
        }
    }

    /// Where a walk through the folder history stops that starts at place
    /// `start`, goes on to the end and then from the front up to `start`: at
    /// the first folder on that way which is not reported missing.
    pub open spec fn cycle_stop(self, missing: Seq<i64>, start: int) -> Option<int> {
        let a = first_present(self.folders, missing, start);
        if a < self.folders.len() {
            Some(a)
        } else {
            let b = first_present(self.folders.take(start), missing, 0);
            if b < start {
                Some(b)
            } else {
                None
            }
        }
    }

    /// Where a walk through the folder history stops that starts at place
    /// `start`, goes back to the front and then from the end down to `start`:
    /// at the first folder on that way which is not reported missing.
    pub open spec fn cycle_back_stop(self, missing: Seq<i64>, start: int) -> Option<int> {
        let a = last_present(self.folders, missing, start + 1);
        if a >= 0 {
            Some(a)
        } else {
            let behind = self.folders.skip(start + 1);
            let b = last_present(behind, missing, behind.len() as int);
            if b >= 0 {
                Some(start + 1 + b)
            } else {
                None
            }
        }
    }

    /// This store after cycling backward through the folder history from
    /// place `start`: every stale folder that the walk passes over is deleted
    /// and the folder it stops at is selected; if it stops nowhere, every
    /// folder is gone and nothing is selected.
    pub open spec fn cycled_back(self, missing: Seq<i64>, start: int) -> LoaderView {
        match self.cycle_back_stop(missing, start) {
            Some(p) => LoaderView {
                folders: if p <= start {
                    self.folders.take(p + 1) + self.folders.skip(start + 1)
                } else {
                    self.folders.subrange(start + 1, p + 1)
                },
                current_folder_id: Some(self.folders[p].id),
                ..self
            },
            None => LoaderView { folders: Seq::empty(), current_folder_id: None, ..self },
        }
    }

    /// This store after cycling through the folder history from place `start`
    /// on: every stale folder that the walk passes over is deleted and the
    /// folder it stops at is selected; if it stops nowhere, every folder is
    /// gone and nothing is selected.
    pub open spec fn cycled(self, missing: Seq<i64>, start: int) -> LoaderView {
        match self.cycle_stop(missing, start) {
            Some(p) => LoaderView {
                folders: if p >= start {
                    self.folders.take(start) + self.folders.skip(p)
                } else {
                    self.folders.subrange(p, start)
                },
                current_folder_id: Some(self.folders[p].id),
                ..self
            },
            None => LoaderView { folders: Seq::empty(), current_folder_id: None, ..self },
        }
    }
}

/// The notes on the first `upto` folders of a list, each passed over as stale.
pub open spec fn cleaned(folders: Seq<FolderView>, upto: int) -> Seq<ProgressView> {
    Seq::new(upto as nat, |i: int| ProgressView::FolderCleaned { path: folders[i].path })
}

/// The folders that are not reported missing, in their order.
pub open spec fn present_only(folders: Seq<FolderView>, missing: Seq<i64>) -> Seq<FolderView>
    decreases folders.len(),
{
    if folders.len() == 0 {
        Seq::empty()
    } else {
        let front = present_only(folders.drop_last(), missing);
        if missing.contains(folders.last().id) {
            front
        } else {
            front.push(folders.last())
        }
    }
}

/// The paths of the folders that are reported missing, in their order.
pub open spec fn missing_paths(folders: Seq<FolderView>, missing: Seq<i64>) -> Seq<Seq<char>>
    decreases folders.len(),
{
    if folders.len() == 0 {
        Seq::empty()
    } else {
        let front = missing_paths(folders.drop_last(), missing);
        if missing.contains(folders.last().id) {
            front.push(folders.last().path)
        } else {
            front
        }
    }
}

impl LoaderView {
    /// The selection after every stale folder was deleted: a selected folder
    /// that is there stays selected; one that is stale hands the selection to
    /// the first folder behind it, read in a circle, that is there, or to none.
    pub open spec fn swept_selection(self, missing: Seq<i64>) -> Option<i64> {
        match self.current_position() {
            Some(k) => if missing.contains(self.folders[k].id) {
                match self.cycle_stop(missing, k + 1) {
                    Some(p) => Some(self.folders[p].id),
                    None => None,
                }
            } else {
                self.current_folder_id
            },
            None => None,
        }
    }

    /// This store after every stale folder was deleted.
    pub open spec fn swept(self, missing: Seq<i64>) -> LoaderView {
        LoaderView {
            folders: present_only(self.folders, missing),
            current_folder_id: self.swept_selection(missing),
            ..self
        }
    }
}

/// The last place before `upto` whose folder is not reported missing; -1 if
/// there is none.
pub open spec fn last_present(folders: Seq<FolderView>, missing: Seq<i64>, upto: int) -> int
    decreases upto,
{
    if upto <= 0 || upto > folders.len() {
        -1
    } else if !missing.contains(folders[upto - 1].id) {
        upto - 1
    } else {
        last_present(folders, missing, upto - 1)
    }
}

/// What `first_present` finds: every folder passed over is reported missing,
/// the folder arrived at is not.
pub proof fn lemma_first_present(folders: Seq<FolderView>, missing: Seq<i64>, from: int)
    requires
        0 <= from <= folders.len(),
    ensures
        from <= first_present(folders, missing, from) <= folders.len(),
        forall|i: int|
            from <= i < first_present(folders, missing, from) ==> missing.contains(
                (#[trigger] folders[i]).id,
            ),
        first_present(folders, missing, from) < folders.len() ==> !missing.contains(
            folders[first_present(folders, missing, from)].id,
        ),
    decreases folders.len() - from,
{
    if from < folders.len() && missing.contains(folders[from].id) {
        lemma_first_present(folders, missing, from + 1);
    }
}

impl ImageLoader {
    /// Deletes the folders from place `at` on that are reported missing, up to
    /// the first one that is not. Nothing is selected meanwhile.
    pub(super) fn sweep_at(&mut self, at: usize, missing: &Vec<i64>)
        requires
            old(self).wf(),
            old(self)@.current_folder_id is None,
            at <= old(self)@.folders.len(),
        ensures
            final(self).wf(),
            final(self)@ == (LoaderView {
                folders: old(self)@.folders.take(at as int) + old(self)@.folders.skip(
                    first_present(old(self)@.folders, missing@, at as int),
                ),
                ..old(self)@
            }),
    {
        let ghost all = self@.folders;
        let ghost mut p: int = at as int;
        proof {
            assert(all.take(at as int) + all.skip(at as int) =~= all);
        }
        while at < self.folders.len() && list_has(missing, self.folders[at].id)
            invariant
                self.wf(),
                all == old(self)@.folders,
                at <= p <= all.len(),
                self@ == (LoaderView {
                    folders: all.take(at as int) + all.skip(p),
                    ..old(self)@
                }),
                self@.current_folder_id is None,
                first_present(all, missing@, at as int) == first_present(all, missing@, p),
            decreases self@.folders.len(),
        {
            proof {
                assert(self@.folders[at as int] == all[p]);
                assert((all.take(at as int) + all.skip(p)).remove(at as int) =~= all.take(at as int)
                    + all.skip(p + 1));
            }
            self.drop_folder_at(at);
            proof {
                p = p + 1;
            }
        }
        proof {
            if at < self@.folders.len() {
                assert(self@.folders[at as int] == all[p]);
            }
        }
    }

    /// The notes that checking the selection against the disk will send.
    pub fn validation_notes(&self, missing: &Vec<i64>) -> (notes: Vec<Progress>)
        requires
            self.wf(),
        ensures
            progress_views(notes@) == self@.validation_notes(missing@),
    {
        let mut notes: Vec<Progress> = Vec::new();
        let slot = self.current_slot();
        let n = self.folders.len();
        let skip: usize = match slot {
            Some(k) => {
                if !list_has(missing, self.folders[k].id) {
                    return notes;
                }
                notes.push(Progress::FolderDeleted { path: self.folders[k].path.clone() });
                k
            },
            None => n,
        };
        let ghost rest = self@.others();
        let ghost gone = progress_views(notes@);
        proof {
            match slot {
                Some(k) => {
                    assert(gone =~= seq![
                        ProgressView::FolderDeleted { path: self@.folders[k as int].path },
                    ]);
                },
                None => {
                    assert(gone =~= Seq::<ProgressView>::empty());
                },
            }
            assert(gone + cleaned(rest, 0) =~= gone);
            assert forall|t: int| 0 <= t < rest.len() implies #[trigger] rest[t]
                == self@.folders[if t < skip {
                t
            } else {
                t + 1
            }] by {}
        }
        let mut i: usize = 0;
        let ghost mut r: int = 0;
        while i < n
            invariant
                i <= n,
                n == self@.folders.len(),
                self.wf(),
                skip <= n,
                rest == self@.others(),
                !self@.current_is_present(missing@),
                gone == match self@.current_folder() {
                    Some(f) => seq![ProgressView::FolderDeleted { path: f.path }],
                    None => Seq::<ProgressView>::empty(),
                },
                rest.len() == if skip < n {
                    n - 1
                } else {
                    n as int
                },
                forall|t: int|
                    0 <= t < rest.len() ==> #[trigger] rest[t] == self@.folders[if t < skip {
                        t
                    } else {
                        t + 1
                    }],
                r == if i > skip {
                    i - 1
                } else {
                    i as int
                },
                first_present(rest, missing@, 0) == first_present(rest, missing@, r),
                0 <= r <= rest.len(),
                progress_views(notes@) == gone + cleaned(rest, r),
            decreases n - i,
        {
            if i != skip {
                proof {
                    assert(rest[r] == self@.folders[i as int]);
                }
                let ghost before = progress_views(notes@);
                if list_has(missing, self.folders[i].id) {
                    notes.push(Progress::FolderCleaned { path: self.folders[i].path.clone() });
                    proof {
                        assert(progress_views(notes@) =~= before.push(
                            ProgressView::FolderCleaned { path: rest[r].path },
                        ));
                        assert(cleaned(rest, r + 1) =~= cleaned(rest, r).push(
                            ProgressView::FolderCleaned { path: rest[r].path },
                        ));
                        assert(gone + cleaned(rest, r + 1) =~= (gone + cleaned(rest, r)).push(
                            ProgressView::FolderCleaned { path: rest[r].path },
                        ));
                        r = r + 1;
                    }
                } else {
                    notes.push(Progress::FolderSwitched { path: self.folders[i].path.clone() });
                    proof {
                        assert(progress_views(notes@) =~= gone + cleaned(rest, r) + seq![
                            ProgressView::FolderSwitched { path: rest[r].path },
                        ]);
                        assert(first_present(rest, missing@, 0) == r);
                        assert(rest == self@.others());
                    }
                    return notes;
                }
            }
            i += 1;
        }
        proof {
            assert(r == rest.len());
            assert(first_present(rest, missing@, 0) == rest.len());
            assert(gone + cleaned(rest, r) + Seq::<ProgressView>::empty() =~= gone + cleaned(
                rest,
                r,
            ));
        }
        notes
    }

    /// Checks the selection against the disk and falls back where the
    /// selected folder is gone. Gives the selected folder and whether it had
    /// to be switched.
    pub fn ensure_valid_current_folder(&mut self, missing: &Vec<i64>) -> (r: Result<
        (i64, bool),
        LoaderError,
    >)
        requires
            old(self).wf(),
        ensures
            final(self).wf(),
            final(self)@ == old(self)@.revalidated(missing@),
            r == old(self)@.validation(missing@),
            r matches Ok((id, _)) ==> final(self)@.current_folder_id == Some(id),
    {
        let slot = self.current_slot();
        match slot {
            Some(k) => {
                let id = self.folders[k].id;
                if !list_has(missing, id) {
                    return Ok((id, false));
                }
            },
            None => {},
        }
        self.deselect();
        match slot {
            Some(k) => {
                self.drop_folder_at(k);
            },
            None => {},
        }
        let ghost rest = self@.folders;
        proof {
            assert(rest == old(self)@.others());
            lemma_first_present(rest, missing@, 0);
            assert(rest.take(0) + rest.skip(first_present(rest, missing@, 0)) =~= rest.skip(
                first_present(rest, missing@, 0),
            ));
        }
        if self.folders.len() == 0 {
            assert(rest.skip(0) =~= rest);
            return Err(LoaderError::NoFoldersAvailable);
        }
        self.sweep_at(0, missing);
        if self.folders.len() == 0 {
            return Err(LoaderError::AllFoldersDeleted);
        }
        let id = self.select_slot(0);
        Ok((id, true))
    }

    /// Walks through the folder history from place `start` to the end and
    /// then from the front up to `start`, deleting every stale folder passed
    /// over, and selects the folder it stops at.
    fn cycle_from(&mut self, start: usize, missing: &Vec<i64>) -> (r: Result<
        Option<(i64, String)>,
        LoaderError,
    >)
        requires
            old(self).wf(),
            start < old(self)@.folders.len(),
        ensures
            final(self).wf(),
            final(self)@ == old(self)@.cycled(missing@, start as int),
            match old(self)@.cycle_stop(missing@, start as int) {
                Some(p) => r matches Ok(Some((id, path))) && id == old(self)@.folders[p].id && path@
                    == old(self)@.folders[p].path,
                None => r matches Err(LoaderError::AllFoldersGone),
            },
    {
        let ghost all = self@.folders;
        self.deselect();
        proof {
            lemma_first_present(all, missing@, start as int);
            lemma_first_present(all.take(start as int), missing@, 0);
        }
        self.sweep_at(start, missing);
        if start < self.folders.len() {
            let path = self.folders[start].path.clone();
            let id = self.select_slot(start);
            return Ok(Some((id, path)));
        }
        proof {
            assert(self@.folders =~= all.take(start as int));
        }
        self.sweep_at(0, missing);
        proof {
            let b = first_present(all.take(start as int), missing@, 0);
            assert(self@.folders =~= all.subrange(b, start as int));
        }
        if self.folders.len() > 0 {
            let path = self.folders[0].path.clone();
            let id = self.select_slot(0);
            return Ok(Some((id, path)));
        }
        proof {
            assert(self@.folders =~= Seq::<FolderView>::empty());
        }
        Err(LoaderError::AllFoldersGone)
    }

    /// Whether a folder stands just below place `q` and is reported missing.
    fn stale_below(&self, q: usize, missing: &Vec<i64>) -> (stale: bool)
        requires
            self.wf(),
            q <= self@.folders.len(),
        ensures
            stale == (q > 0 && missing@.contains(self@.folders[q - 1].id)),
    {
        q > 0 && list_has(missing, self.folders[q - 1].id)
    }

    /// Deletes the folders below place `upto`, from the highest down, that
    /// are reported missing, down to the first one that is not. Nothing is
    /// selected meanwhile.
    fn sweep_down(&mut self, upto: usize, missing: &Vec<i64>) -> (kept: usize)
        requires
            old(self).wf(),
            old(self)@.current_folder_id is None,
            upto <= old(self)@.folders.len(),
        ensures
            final(self).wf(),
            kept == last_present(old(self)@.folders, missing@, upto as int) + 1,
            kept <= upto,
            final(self)@ == (LoaderView {
                folders: old(self)@.folders.take(kept as int) + old(self)@.folders.skip(
                    upto as int,
                ),
                ..old(self)@
            }),
    {
        let ghost all = self@.folders;
        let mut q: usize = upto;
        proof {
            assert(all.take(upto as int) + all.skip(upto as int) =~= all);
        }
        while self.stale_below(q, missing)
            invariant
                self.wf(),
                all == old(self)@.folders,
                q <= upto <= all.len(),
                q <= self@.folders.len(),
                self@ == (LoaderView {
                    folders: all.take(q as int) + all.skip(upto as int),
                    ..old(self)@
                }),
                self@.current_folder_id is None,
                last_present(all, missing@, upto as int) == last_present(all, missing@, q as int),
            decreases q,
        {
            proof {
                assert(self@.folders[q - 1] == all[q - 1]);
                assert((all.take(q as int) + all.skip(upto as int)).remove(q - 1) =~= all.take(
                    q - 1,
                ) + all.skip(upto as int));
            }
            self.drop_folder_at(q - 1);
            q -= 1;
        }
        proof {
            if q > 0 {
                assert(self@.folders[q - 1] == all[q - 1]);
            }
        }
        q
    }

    /// Walks backward through the folder history from place `start` to the
    /// front and then from the end down to `start`, deleting every stale
    /// folder passed over, and selects the folder it stops at.
    fn cycle_back_from(&mut self, start: usize, missing: &Vec<i64>) -> (r: Result<
        Option<(i64, String)>,
        LoaderError,
    >)
        requires
            old(self).wf(),
            start < old(self)@.folders.len(),
        ensures
            final(self).wf(),
            final(self)@ == old(self)@.cycled_back(missing@, start as int),
            match old(self)@.cycle_back_stop(missing@, start as int) {
                Some(p) => r matches Ok(Some((id, path))) && id == old(self)@.folders[p].id && path@
                    == old(self)@.folders[p].path,
                None => r matches Err(LoaderError::AllFoldersGone),
            },
    {
        let ghost all = self@.folders;
        let ghost behind = all.skip(start + 1);
        let n = self.folders.len();
        assert(start < n);
        self.deselect();
        let kept = self.sweep_down(start + 1, missing);
        if kept > 0 {
            proof {
                assert(old(self)@.cycle_back_stop(missing@, start as int) == Some(kept - 1));
                assert(self@.folders[kept - 1] == all[kept - 1]);
            }
            return self.stop_at(kept - 1);
        }
        proof {
            assert(self@.folders =~= behind);
        }
        self.finish_back(Ghost(all), Ghost(start as int), missing)
    }

    /// The second leg of a walk backward: from the end of what is left of the
    /// folder history, which is what stood behind the place where the walk
    /// began.
    fn finish_back(
        &mut self,
        Ghost(all): Ghost<Seq<FolderView>>,
        Ghost(start): Ghost<int>,
        missing: &Vec<i64>,
    ) -> (r: Result<Option<(i64, String)>, LoaderError>)
        requires
            old(self).wf(),
            old(self)@.current_folder_id is None,
            0 <= start < all.len(),
            old(self)@.folders == all.skip(start + 1),
        ensures
            final(self).wf(),
            ({
                let behind = all.skip(start + 1);
                let b = last_present(behind, missing@, behind.len() as int);
                if b >= 0 {
                    &&& final(self)@ == (LoaderView {
                        folders: all.subrange(start + 1, start + 1 + b + 1),
                        current_folder_id: Some(all[start + 1 + b].id),
                        ..old(self)@
                    })
                    &&& r matches Ok(Some((id, path))) && id == all[start + 1 + b].id && path@
                        == all[start + 1 + b].path
                } else {
                    &&& final(self)@ == (LoaderView { folders: Seq::empty(), ..old(self)@ })
                    &&& r matches Err(LoaderError::AllFoldersGone)
                }
            }),
    {
        let left = self.folders.len();
        let last = self.sweep_down(left, missing);
        proof {
            assert(self@.folders =~= all.subrange(start + 1, start + 1 + last));
        }
        if last > 0 {
            proof {
                assert(self@.folders[last - 1] == all[start + last]);
            }
            return self.stop_at(last - 1);
        }
        proof {
            assert(self@.folders =~= Seq::<FolderView>::empty());
        }
        Err(LoaderError::AllFoldersGone)
    }

    /// Selects the folder at place `at`, where a walk stopped.
    fn stop_at(&mut self, at: usize) -> (r: Result<Option<(i64, String)>, LoaderError>)
        requires
            old(self).wf(),
            at < old(self)@.folders.len(),
        ensures
            final(self).wf(),
            final(self)@ == (LoaderView {
                current_folder_id: Some(old(self)@.folders[at as int].id),
                ..old(self)@
            }),
            r matches Ok(Some((id, path))) && id == old(self)@.folders[at as int].id && path@
                == old(self)@.folders[at as int].path,
    {
        let path = self.folders[at].path.clone();
        let id = self.select_slot(at);
        Ok(Some((id, path)))
    }

    /// Selects the next folder of the folder history: the one before the
    /// selected folder, wrapping to the last, then further back in a circle
    /// past every stale folder, which is deleted. An empty history gives
    /// nothing.
    pub fn get_next_folder(&mut self, missing: &Vec<i64>) -> (r: Result<
        Option<(i64, String)>,
        LoaderError,
    >)
        requires
            old(self).wf(),
        ensures
            final(self).wf(),
            if old(self)@.folders.len() == 0 {
                r matches Ok(None) && final(self)@ == old(self)@
            } else {
                &&& final(self)@ == old(self)@.cycled_back(missing@, old(self)@.next_start())
                &&& match old(self)@.cycle_back_stop(missing@, old(self)@.next_start()) {
                    Some(p) => r matches Ok(Some((id, path))) && id == old(self)@.folders[p].id
                        && path@ == old(self)@.folders[p].path,
                    None => r matches Err(LoaderError::AllFoldersGone),
                }
            },
    {
        let n = self.folders.len();
        if n == 0 {
            return Ok(None);
        }
        let start = match self.current_slot() {
            Some(i) => if i == 0 {
                n - 1
            } else {
                i - 1
            },
            None => n - 1,
        };
        self.cycle_back_from(start, missing)
    }

    /// Selects the previous folder of the folder history: the one after the
    /// selected folder, wrapping to the first, then onward in a circle past
    /// every stale folder, which is deleted. An empty history gives nothing.
    pub fn get_prev_folder(&mut self, missing: &Vec<i64>) -> (r: Result<
        Option<(i64, String)>,
        LoaderError,
    >)
        requires
            old(self).wf(),
        ensures
            final(self).wf(),
            if old(self)@.folders.len() == 0 {
                r matches Ok(None) && final(self)@ == old(self)@
            } else {
                &&& final(self)@ == old(self)@.cycled(missing@, old(self)@.prev_start())
                &&& match old(self)@.cycle_stop(missing@, old(self)@.prev_start()) {
                    Some(p) => r matches Ok(Some((id, path))) && id == old(self)@.folders[p].id
                        && path@ == old(self)@.folders[p].path,
                    None => r matches Err(LoaderError::AllFoldersGone),
                }
            },
    {
        let n = self.folders.len();
        if n == 0 {
            return Ok(None);
        }
        let start = match self.current_slot() {
            Some(i) => if i + 1 >= n {
                0
            } else {
                i + 1
            },
            None => 0,
        };
        self.cycle_from(start, missing)
    }

    /// The first place from `from` on, before `upto`, whose folder is not
    /// reported missing; `upto` if there is none.
    fn scan_present(&self, from: usize, upto: usize, missing: &Vec<i64>) -> (at: usize)
        requires
            self.wf(),
            from <= upto <= self@.folders.len(),
        ensures
            at == first_present(self@.folders.take(upto as int), missing@, from as int),
            from <= at <= upto,
    {
        let ghost part = self@.folders.take(upto as int);
        let mut i: usize = from;
        while i < upto && list_has(missing, self.folders[i].id)
            invariant
                from <= i <= upto,
                upto <= self@.folders.len(),
                part == self@.folders.take(upto as int),
                self.wf(),
                first_present(part, missing@, from as int) == first_present(part, missing@, i as int),
            decreases upto - i,
        {
            proof {
                assert(part[i as int] == self@.folders[i as int]);
            }
            i += 1;
        }
        proof {
            if i < upto {
                assert(part[i as int] == self@.folders[i as int]);
            }
        }
        i
    }

    /// Deletes every folder that is reported missing, and gives the paths of
    /// the deleted folders in history order. A selected folder that is
    /// deleted hands the selection on.
    pub fn cleanup_stale_folders(&mut self, missing: &Vec<i64>) -> (removed: Vec<String>)
        requires
            old(self).wf(),
        ensures
            final(self).wf(),
            final(self)@ == old(self)@.swept(missing@),
            crate::upkeep::texts(removed@) == missing_paths(old(self)@.folders, missing@),
    {
        let ghost all = self@.folders;
        let n = self.folders.len();
        match self.current_slot() {
            Some(k) => {
                if list_has(missing, self.folders[k].id) {
                    proof {
                        assert(all.take(n as int) =~= all);
                    }
                    let a = self.scan_present(k + 1, n, missing);
                    if a < n {
                        self.select_slot(a);
                    } else {
                        let b = self.scan_present(0, k + 1, missing);
                        if b < k + 1 {
                            self.select_slot(b);
                        } else {
                            self.deselect();
                        }
                    }
                    proof {
                        lemma_first_present(all, missing@, k + 1);
                        lemma_first_present(all.take(k + 1), missing@, 0);
                    }
                }
            },
            None => {},
        }
        let ghost chosen = self@.current_folder_id;
        assert(chosen == old(self)@.swept_selection(missing@));
        proof {
            self.lemma_wf();
            match chosen {
                Some(id) => {
                    let q = self@.folder_position(id).unwrap();
                    crate::img_loader::lemma_folder_position(self@, q);
                    assert(!missing@.contains(id));
                },
                None => {},
            }
        }
        let mut removed: Vec<String> = Vec::new();
        let mut i: usize = 0;
        let ghost mut c: int = 0;
        proof {
            assert(all.take(0) =~= Seq::<FolderView>::empty());
            assert(present_only(all.take(0), missing@) + all.skip(0) =~= all);
        }
        while i < self.folders.len()
            invariant
                self.wf(),
                all == old(self)@.folders,
                0 <= c <= all.len(),
                i == present_only(all.take(c), missing@).len(),
                self@ == (LoaderView {
                    folders: present_only(all.take(c), missing@) + all.skip(c),
                    current_folder_id: chosen,
                    ..old(self)@
                }),
                chosen matches Some(id) ==> !missing@.contains(id),
                crate::upkeep::texts(removed@) == missing_paths(all.take(c), missing@),
            decreases all.len() - c,
        {
            proof {
                assert(self@.folders[i as int] == all[c]);
                assert(all.take(c + 1).drop_last() =~= all.take(c));
                assert(all.take(c + 1).last() == all[c]);
            }
            if list_has(missing, self.folders[i].id) {
                let ghost before = crate::upkeep::texts(removed@);
                removed.push(self.folders[i].path.clone());
                proof {
                    assert(crate::upkeep::texts(removed@) =~= before.push(all[c].path));
                    assert((present_only(all.take(c), missing@) + all.skip(c)).remove(i as int)
                        =~= present_only(all.take(c), missing@) + all.skip(c + 1));
                }
                self.drop_folder_at(i);
            } else {
                proof {
                    assert(present_only(all.take(c), missing@) + all.skip(c) =~= present_only(
                        all.take(c),
                        missing@,
                    ).push(all[c]) + all.skip(c + 1));
                }
                i += 1;
            }
            proof {
                c = c + 1;
            }
        }
        proof {
            assert(c == all.len()) by {
                assert(self@.folders.len() == i + (all.len() - c));
            }
            assert(all.take(c) =~= all);
            assert(present_only(all, missing@) + all.skip(c) =~= present_only(all, missing@));
        }
        removed
    }

    /// Selects the folder at list position `index` of the folder history,
    /// brought into range. A folder that is reported missing is deleted
    /// instead, and the call fails.
    pub fn set_folder_by_index(&mut self, index: i64, missing: &Vec<i64>) -> (r: Result<
        (i64, String),
        LoaderError,
    >)
        requires
            old(self).wf(),
        ensures
            final(self).wf(),
            if old(self)@.folders.len() == 0 {
                r matches Err(LoaderError::NoFolders) && final(self)@ == old(self)@
            } else {
                let f = old(self)@.folders[clamped_position(
                    index,
                    old(self)@.folders.len() as int,
                )];
                if missing@.contains(f.id) {
                    &&& r matches Err(LoaderError::FolderMissing { path }) && path@ == f.path
                    &&& final(self)@ == old(self)@.without_folder(f.id)
                } else {
                    &&& r matches Ok((id, path)) && id == f.id && path@ == f.path
                    &&& final(self)@ == (LoaderView {
                        current_folder_id: Some(f.id),
                        ..old(self)@
                    })
                }
            },
    {
        let n = self.folders.len();
        if n == 0 {
            return Err(LoaderError::NoFolders);
        }
        let k = clamp_position(index, n);
        let id = self.folders[k].id;
        let path = self.folders[k].path.clone();
        if list_has(missing, id) {
            self.delete_folder_by_id(id);
            return Err(LoaderError::FolderMissing { path });
        }
        self.select_slot(k);
        Ok((id, path))
    }
}

} // verus!
