//! Random mode on the selected folder: replay through the log, and the forced
//! draw, which proceeds in steps around the caller's look at the disk.

use crate::commands::ImageHistoryItem;
use crate::entries::{find_position, lemma_position_from, pointer_of, Entry, UNSET};
use crate::error::LoaderError;
use crate::folder::FolderView;
use crate::img_loader::{lemma_slot_changed, ImageLoader, LoaderView};
use crate::items::{item_views, lemma_visible_lists_show_images};
use crate::shuffle::{lemma_draw_pool, lemma_random_targets};
use crate::upkeep::lemma_without_image;
use rand::seq::SliceRandom;
use vstd::prelude::*;

verus! {

/// The count of one forced draw: how many candidates were proposed, how many
/// may be, and how many images were removed because their files were gone.
#[derive(Clone, Copy, Debug, PartialEq, Eq)]
pub struct DrawState {
    pub attempts: u64,
    pub max_attempts: u64,
    pub skipped: u64,
}

/// What the caller tells a forced draw.
#[derive(Clone, Copy, Debug, PartialEq, Eq)]
pub enum DrawEvent {
    /// A new draw begins.
    Start,
    /// The file of the proposed image was looked for on disk.
    Probed { image_id: i64, exists: bool },
}

/// What a forced draw asks of the caller next.
#[derive(Clone, Debug, PartialEq, Eq)]
pub enum DrawAction {
    /// Look for this image's file on disk and report back.
    Probe(ImageHistoryItem),
    /// The draw is over: show this image.
    Show(ImageHistoryItem),
    /// The draw is over: it failed.
    Fail(LoaderError),
}

/// Three candidates may be proposed for each visible image, as far as the
/// count's type reaches.
pub open spec fn attempts_for(visible: nat) -> u64 {
    if 3 * visible <= u64::MAX {
        (3 * visible) as u64
    } else {
        u64::MAX
    }
}

/// One more removed image, as far as the count's type reaches.
pub open spec fn one_more(n: u64) -> u64 {
    if n < u64::MAX {
        (n + 1) as u64
    } else {
        n
    }
}

/// A folder and a count in the middle of a step of a forced draw, and how the
/// draw ended if it did.
pub struct Settled {
    pub folder: FolderView,
    pub draw: DrawState,
    pub done: Option<Result<Entry, LoaderError>>,
}

impl DrawState {
    /// A count before its draw has begun.
    pub fn new() -> (draw: DrawState)
        ensures
            draw == (DrawState { attempts: 0, max_attempts: 0, skipped: 0 }),
    {
        DrawState { attempts: 0, max_attempts: 0, skipped: 0 }
    }
}

impl FolderView {
    /// Whether a draw may record the image `id`: random mode shows it and the
    /// lap does not hold it.
    pub open spec fn acceptable(self, id: i64) -> bool {
        self.drawable(id) && !self.lap.contains(id)
    }

    /// The first half of a step of a forced draw: what the caller's report
    /// does. A new draw begins with a fresh count. A file that is there ends
    /// the draw with its image recorded, if the image is still acceptable and
    /// the log has room; a log without room ends it in failure. A file that is
    /// gone has its image's row removed and counted. In every other case the
    /// draw goes on to propose a candidate.
    pub open spec fn settled(self, draw: DrawState, event: DrawEvent, last: bool) -> Settled {
        match event {
            DrawEvent::Start => Settled {
                folder: self,
                draw: DrawState {
                    attempts: 0,
                    max_attempts: attempts_for(self.visible_random().len()),
                    skipped: 0,
                },
                done: None,
            },
            DrawEvent::Probed { image_id, exists } => if exists {
                if !self.acceptable(image_id) {
                    Settled { folder: self, draw, done: None }
                } else if !self.has_room() {
                    Settled { folder: self, draw, done: Some(Err(LoaderError::HistoryFull)) }
                } else {
                    Settled {
                        folder: self.drawn(image_id, last),
                        draw,
                        done: Some(
                            Ok(
                                Entry {
                                    order_index: self.drawn(image_id, last).current_random_index,
                                    image_id,
                                },
                            ),
                        ),
                    }
                }
            } else {
                Settled {
                    folder: self.without_image(image_id),
                    draw: if self.has_image(image_id) {
                        DrawState { skipped: one_more(draw.skipped), ..draw }
                    } else {
                        draw
                    },
                    done: None,
                }
            },
        }
    }

    /// Why a forced draw cannot propose a candidate, if it cannot: at its
    /// start, every image is hidden from random mode; later, no image is left,
    /// or the attempts are used up.
    pub open spec fn proposal_failure(self, draw: DrawState, first: bool) -> Option<LoaderError> {
        if self.visible_random().len() == 0 {
            if first {
                Some(LoaderError::AllHiddenRandom)
            } else if draw.skipped > 0 {
                Some(LoaderError::AllImagesDeleted { skipped: draw.skipped })
            } else {
                Some(LoaderError::NoImagesAvailable)
            }
        } else if draw.attempts >= draw.max_attempts {
            if draw.skipped > 0 {
                Some(LoaderError::SkippedNoneValid { skipped: draw.skipped })
            } else {
                Some(LoaderError::NoImagesAvailable)
            }
        } else {
            None
        }
    }

    /// Whether a step of a forced draw comes to propose a candidate.
    pub open spec fn proposes(self, draw: DrawState, event: DrawEvent, last: bool) -> bool {
        let s = self.settled(draw, event, last);
        s.done is None && s.folder.proposal_failure(s.draw, event is Start) is None
    }

    /// The folder after a step of a forced draw: as the caller's report left
    /// it and, where the step proposes a candidate, with the lap emptied if it
    /// was spent: by its size where the draw begins, by what it covers on a
    /// later attempt.
    pub open spec fn stepped(self, draw: DrawState, event: DrawEvent, last: bool) -> FolderView {
        let s = self.settled(draw, event, last);
        if self.proposes(draw, event, last) {
            s.folder.ready_for_draw(event is Start)
        } else {
            s.folder
        }
    }

    /// The count after a step of a forced draw: as the caller's report left
    /// it and, where the step proposes a candidate, with one more attempt.
    pub open spec fn stepped_count(self, draw: DrawState, event: DrawEvent, last: bool) -> DrawState {
        let s = self.settled(draw, event, last);
        if self.proposes(draw, event, last) {
            DrawState { attempts: (s.draw.attempts + 1) as u64, ..s.draw }
        } else {
            s.draw
        }
    }

    /// Whether `action` is an answer of a step of a forced draw: the recorded
    /// image where the draw ended well, the failure where it ended badly or
    /// cannot propose, and otherwise a request to look for the file of one
    /// entry of the draw pool.
    pub open spec fn answered(
        self,
        draw: DrawState,
        event: DrawEvent,
        last: bool,
        action: DrawAction,
    ) -> bool {
        let s = self.settled(draw, event, last);
        match s.done {
            Some(Ok(e)) => action matches DrawAction::Show(item) && item@ == s.folder.item_of(e),
            Some(Err(x)) => action matches DrawAction::Fail(y) && y == x,
            None => match s.folder.proposal_failure(s.draw, event is Start) {
                Some(x) => action matches DrawAction::Fail(y) && y == x,
                None => action matches DrawAction::Probe(item) && exists|i: int|
                    0 <= i < s.folder.draw_pool(event is Start).len() && item@ == s.folder.item_of(
                        #[trigger] s.folder.draw_pool(event is Start)[i],
                    ),
            },
        }
    }
}

/// What one step of a forced draw does to the store, the count and the
/// answer: with no folder selected it fails and changes nothing; otherwise it
/// is a step on the selected folder.
pub open spec fn forced_draw(
    pre: LoaderView,
    draw: DrawState,
    event: DrawEvent,
    last: bool,
    post: LoaderView,
    post_draw: DrawState,
    action: DrawAction,
) -> bool {
    match pre.current_folder() {
        None => action matches DrawAction::Fail(LoaderError::NoFolderSelected) && post == pre
            && post_draw == draw,
        Some(f) => {
            &&& post == pre.with_current(f.stepped(draw, event, last))
            &&& post_draw == f.stepped_count(draw, event, last)
            &&& f.answered(draw, event, last, action)
        },
    }
}

/// What a step of random mode does that replays to `target` where there is
/// one and draws otherwise: a new step with a target puts the random cursor
/// of the selected folder on it and shows it; every other step is a step of a
/// forced draw.
pub open spec fn replays_or_draws(
    pre: LoaderView,
    draw: DrawState,
    event: DrawEvent,
    target: Option<Entry>,
    last: bool,
    post: LoaderView,
    post_draw: DrawState,
    action: DrawAction,
) -> bool {
    if event is Start && target is Some && pre.current_folder() is Some {
        let f = pre.current_folder().unwrap();
        &&& action matches DrawAction::Show(item) && item@ == f.item_of(target.unwrap())
        &&& post == pre.with_current(f.moved_random(target))
        &&& post_draw == draw
    } else {
        forced_draw(pre, draw, event, last, post, post_draw, action)
    }
}

impl LoaderView {
    /// The entry that random mode replays forward to in the selected folder.
    pub open spec fn replay_forward(self) -> Option<Entry> {
        match self.current_folder() {
            Some(f) => f.replay_forward(),
            None => None,
        }
    }

    /// The entry that random mode replays backward to in the selected folder.
    pub open spec fn replay_backward(self) -> Option<Entry> {
        match self.current_folder() {
            Some(f) => f.replay_backward(),
            None => None,
        }
    }

    /// The selected folder's visible log entry at list position `index`.
    pub open spec fn nth_random(self, index: i64) -> Option<Entry> {
        match self.current_folder() {
            Some(f) => f.nth_random(index),
            None => None,
        }
    }
}

/// Calls `rand::seq::SliceRandom::choose` on the entries with the generator of
/// `rand::thread_rng`. Trusted: an empty list gives nothing; any other list
/// gives one of its entries. Which one is left open.
#[verifier::external_body]
fn choose_entry(pool: &Vec<Entry>) -> (pick: Option<Entry>)
    ensures
        pool@.len() == 0 ==> pick is None,
        pool@.len() > 0 ==> pick is Some && pool@.contains(pick->0),
{
    let mut rng = rand::thread_rng();
    pool.choose(&mut rng).copied()
}

/// How many candidates a draw over `visible` images may propose.
fn attempts_allowed(visible: usize) -> (n: u64)
    ensures
        n == attempts_for(visible as nat),
{
    let v = visible as u64;
    if v <= u64::MAX / 3 {
        3 * v
    } else {
        u64::MAX
    }
}

impl ImageLoader {
    /// The answer of a forced draw to a pick from the pool: a request to look
    /// for the picked image's file, or a failure when nothing was picked.
    pub fn probe_request(&self, pick: Option<Entry>) -> (action: DrawAction)
        requires
            self.wf(),
        ensures
            match self@.current_folder() {
                None => action matches DrawAction::Fail(LoaderError::NoFolderSelected),
                Some(f) => match pick {
                    None => action matches DrawAction::Fail(LoaderError::NoImagesAvailable),
                    Some(e) => if f.has_image(e.image_id) {
                        action matches DrawAction::Probe(item) && item@ == f.item_of(e)
                    } else {
                        action matches DrawAction::Fail(LoaderError::RowNotFound)
                    },
                },
            },
    {
        let k = match self.current_slot() {
            Some(k) => k,
            None => {
                return DrawAction::Fail(LoaderError::NoFolderSelected);
            },
        };
        match pick {
            None => DrawAction::Fail(LoaderError::NoImagesAvailable),
            Some(e) => {
                if self.folders[k].find_image(e.image_id).is_none() {
                    return DrawAction::Fail(LoaderError::RowNotFound);
                }
                DrawAction::Probe(self.folders[k].item_for(e))
            },
        }
    }

    /// One step of a forced draw in the selected folder. The caller starts
    /// the draw with `Start` and a count of its own, looks on disk for every
    /// image that a `Probe` names, and reports what it found with `Probed`,
    /// until the answer is `Show` or `Fail`. A recorded image goes to the end
    /// of the replay log if `force_pointer_to_last` is set, to its front
    /// otherwise.
    pub fn get_force_random_image(
        &mut self,
        draw: &mut DrawState,
        event: DrawEvent,
        force_pointer_to_last: bool,
    ) -> (action: DrawAction)
        requires
            old(self).wf(),
        ensures
            final(self).wf(),
            forced_draw(
                old(self)@,
                *old(draw),
                event,
                force_pointer_to_last,
                final(self)@,
                *final(draw),
                action,
            ),
    {
        let k = match self.current_slot() {
            Some(k) => k,
            None => {
                return DrawAction::Fail(LoaderError::NoFolderSelected);
            },
        };
        match self.settle_report(k, draw, event, force_pointer_to_last) {
            Some(action) => action,
            None => {
                let ghost mid = self@;
                let action = self.propose(k, draw, event.is_start());
                proof {
                    let f = old(self)@.folders[k as int];
                    let s = f.settled(*old(draw), event, force_pointer_to_last);
                    assert(mid.folders[k as int] == s.folder);
                    assert(self@.folders =~= old(self)@.folders.update(
                        k as int,
                        f.stepped(*old(draw), event, force_pointer_to_last),
                    ));
                }
                action
            },
        }
    }

    /// One step forward in random mode. A new step replays to the first
    /// visible entry of the log above the cursor, if there is one; otherwise,
    /// and in answer to every report, it is a step of a forced draw that
    /// appends to the log.
    pub fn get_next_random_image(&mut self, draw: &mut DrawState, event: DrawEvent) -> (action:
        DrawAction)
        requires
            old(self).wf(),
        ensures
            final(self).wf(),
            replays_or_draws(
                old(self)@,
                *old(draw),
                event,
                old(self)@.replay_forward(),
                true,
                final(self)@,
                *final(draw),
                action,
            ),
    {
        if event.is_start() {
            match self.current_slot() {
                Some(k) => {
                    let shown = self.folders[k].step_forward();
                    proof {
                        lemma_slot_changed(*old(self), *self, k as int);
                        lemma_random_targets(old(self)@.folders[k as int], 0);
                        if shown is None {
                            assert(self@.folders =~= old(self)@.folders);
                        }
                    }
                    match shown {
                        Some(e) => {
                            return DrawAction::Show(self.folders[k].item_for(e));
                        },
                        None => {},
                    }
                },
                None => {},
            }
        }
        self.get_force_random_image(draw, event, true)
    }

    /// One step backward in random mode. A new step replays to the last
    /// visible entry of the log below the cursor, if there is one; otherwise,
    /// and in answer to every report, it is a step of a forced draw that puts
    /// its image in front of the log.
    pub fn get_prev_random_image(&mut self, draw: &mut DrawState, event: DrawEvent) -> (action:
        DrawAction)
        requires
            old(self).wf(),
        ensures
            final(self).wf(),
            replays_or_draws(
                old(self)@,
                *old(draw),
                event,
                old(self)@.replay_backward(),
                false,
                final(self)@,
                *final(draw),
                action,
            ),
    {
        if event.is_start() {
            match self.current_slot() {
                Some(k) => {
                    let shown = self.folders[k].step_backward();
                    proof {
                        lemma_slot_changed(*old(self), *self, k as int);
                        lemma_random_targets(old(self)@.folders[k as int], 0);
                        if shown is None {
                            assert(self@.folders =~= old(self)@.folders);
                        }
                    }
                    match shown {
                        Some(e) => {
                            return DrawAction::Show(self.folders[k].item_for(e));
                        },
                        None => {},
                    }
                },
                None => {},
            }
        }
        self.get_force_random_image(draw, event, false)
    }

    /// One step of a jump in random mode. A new step puts the random cursor
    /// on the visible log entry at list position `index`, brought into range,
    /// if the log shows anything; otherwise, and in answer to every report,
    /// it is a step of a forced draw that appends to the log.
    pub fn set_random_image_by_index(
        &mut self,
        index: i64,
        draw: &mut DrawState,
        event: DrawEvent,
    ) -> (action: DrawAction)
        requires
            old(self).wf(),
        ensures
            final(self).wf(),
            replays_or_draws(
                old(self)@,
                *old(draw),
                event,
                old(self)@.nth_random(index),
                true,
                final(self)@,
                *final(draw),
                action,
            ),
    {
        if event.is_start() {
            match self.current_slot() {
                Some(k) => {
                    let shown = self.folders[k].jump_to_random(index);
                    proof {
                        lemma_slot_changed(*old(self), *self, k as int);
                        lemma_random_targets(old(self)@.folders[k as int], index);
                        if shown is None {
                            assert(self@.folders =~= old(self)@.folders);
                        }
                    }
                    match shown {
                        Some(e) => {
                            return DrawAction::Show(self.folders[k].item_for(e));
                        },
                        None => {},
                    }
                },
                None => {},
            }
        }
        self.get_force_random_image(draw, event, true)
    }

    /// The visible entries of the selected folder's replay log in their
    /// order, and the list position of the random cursor among them, or -1.
    /// Without a selected folder: nothing, and -1.
    pub fn get_random_history(&self) -> (r: (Vec<ImageHistoryItem>, i64))
        requires
            self.wf(),
        ensures
            match self@.current_folder() {
                None => r.0@.len() == 0 && r.1 == UNSET,
                Some(f) => item_views(r.0@) == f.items_of(f.visible_history()) && r.1
                    == pointer_of(f.visible_history(), f.current_random_index),
            },
    {
        let k = match self.current_slot() {
            Some(k) => k,
            None => {
                return (Vec::new(), UNSET);
            },
        };
        let folder = &self.folders[k];
        let visible = folder.visible_history_entries();
        proof {
            self.lemma_wf();
            lemma_visible_lists_show_images(folder@);
            lemma_position_from(visible@, folder.current_random_index, 0);
        }
        let pointer: i64 = match find_position(&visible, folder.current_random_index) {
            Some(p) => {
                proof {
                    // The cursor is an order index, so a position below it fits.
                    crate::entries::lemma_visible_ascending(folder@.history, folder@.hidden_random);
                    crate::entries::lemma_visible_from_zero(folder@.history, folder@.hidden_random);
                    crate::entries::lemma_position_below_index(visible@, p as int);
                }
                p as i64
            },
            None => UNSET,
        };
        (folder.items_for(&visible), pointer)
    }

    /// Empties the replay log and the lap of the selected folder and unsets
    /// its random cursor, if a folder is selected.
    pub fn reset_random_history(&mut self)
        requires
            old(self).wf(),
        ensures
            final(self).wf(),
            final(self)@ == match old(self)@.current_folder() {
                None => old(self)@,
                Some(f) => old(self)@.with_current(f.with_random_reset()),
            },
    {
        match self.current_slot() {
            None => {},
            Some(k) => {
                self.folders[k].reset_random();
                proof {
                    lemma_slot_changed(*old(self), *self, k as int);
                }
            },
        }
    }

    /// Hides an image of the selected folder from random mode and repairs the
    /// random cursor. Fails, changing nothing, when no folder is selected or
    /// the folder has no such image; sets the mark and reports the exhaustion
    /// of random mode when no image is left visible.
    pub fn hide_random_history_image(&mut self, image_id: i64) -> (r: Result<(), LoaderError>)
        requires
            old(self).wf(),
        ensures
            final(self).wf(),
            match old(self)@.current_folder() {
                None => r matches Err(LoaderError::NoFolderSelected) && final(self)@ == old(self)@,
                Some(f) => if !f.has_image(image_id) {
                    r matches Err(LoaderError::RowNotFound) && final(self)@ == old(self)@
                } else {
                    &&& final(self)@ == old(self)@.with_current(f.hidden_from_random(image_id))
                    &&& if f.hidden_from_random(image_id).visible_random().len() == 0 {
                        r matches Err(LoaderError::AllHiddenRandom)
                    } else {
                        r is Ok
                    }
                },
            },
    {
        let k = match self.current_slot() {
            Some(k) => k,
            None => {
                return Err(LoaderError::NoFolderSelected);
            },
        };
        if self.folders[k].find_image(image_id).is_none() {
            return Err(LoaderError::RowNotFound);
        }
        self.folders[k].hide_random(image_id);
        proof {
            lemma_slot_changed(*old(self), *self, k as int);
        }
        let left = self.folders[k].visible_random_entries();
        if left.len() == 0 {
            Err(LoaderError::AllHiddenRandom)
        } else {
            Ok(())
        }
    }

    /// The first half of a step of a forced draw: takes in the caller's
    /// report, and ends the draw where the report ends it.
    fn settle_report(&mut self, k: usize, draw: &mut DrawState, event: DrawEvent, last: bool) -> (done:
        Option<DrawAction>)
        requires
            old(self).wf(),
            old(self)@.current_position() == Some(k as int),
            k < old(self)@.folders.len(),
        ensures
            final(self).wf(),
            final(self)@.current_position() == Some(k as int),
            ({
                let s = old(self)@.folders[k as int].settled(*old(draw), event, last);
                &&& final(self)@ == old(self)@.with_folder(k as int, s.folder)
                &&& *final(draw) == s.draw
                &&& match s.done {
                    Some(Ok(e)) => done matches Some(DrawAction::Show(item)) && item@
                        == s.folder.item_of(e),
                    Some(Err(x)) => done matches Some(DrawAction::Fail(y)) && y == x,
                    None => done is None,
                }
            }),
    {
        let ghost f = old(self)@.folders[k as int];
        proof {
            old(self).lemma_wf();
            assert(self@.folders =~= self@.folders.update(k as int, f));
        }
        match event {
            DrawEvent::Start => {
                let seen = self.folders[k].visible_random_entries();
                *draw = DrawState {
                    attempts: 0,
                    max_attempts: attempts_allowed(seen.len()),
                    skipped: 0,
                };
                None
            },
            DrawEvent::Probed { image_id, exists } => {
                if exists {
                    if self.folders[k].is_drawable(image_id) && !self.folders[k].lap.contains(
                        &image_id,
                    ) {
                        if !self.folders[k].log_has_room() {
                            return Some(DrawAction::Fail(LoaderError::HistoryFull));
                        }
                        let e = self.folders[k].record_draw(image_id, last);
                        proof {
                            lemma_slot_changed(*old(self), *self, k as int);
                        }
                        return Some(DrawAction::Show(self.folders[k].item_for(e)));
                    }
                    None
                } else {
                    proof {
                        lemma_without_image(f, image_id);
                    }
                    let removed = self.folders[k].remove_image(image_id);
                    proof {
                        lemma_slot_changed(*old(self), *self, k as int);
                    }
                    if removed && draw.skipped < u64::MAX {
                        draw.skipped = draw.skipped + 1;
                    }
                    None
                }
            },
        }
    }

    /// The second half of a step of a forced draw: proposes a candidate from
    /// the draw pool, or says why it cannot.
    fn propose(&mut self, k: usize, draw: &mut DrawState, first: bool) -> (action: DrawAction)
        requires
            old(self).wf(),
            old(self)@.current_position() == Some(k as int),
            k < old(self)@.folders.len(),
        ensures
            final(self).wf(),
            ({
                let f = old(self)@.folders[k as int];
                match f.proposal_failure(*old(draw), first) {
                    Some(x) => action matches DrawAction::Fail(y) && y == x && final(self)@ == old(
                        self,
                    )@ && *final(draw) == *old(draw),
                    None => {
                        &&& action matches DrawAction::Probe(item) && exists|i: int|
                            0 <= i < f.draw_pool(first).len() && item@ == f.item_of(
                                #[trigger] f.draw_pool(first)[i],
                            )
                        &&& final(self)@ == old(self)@.with_folder(k as int, f.ready_for_draw(first))
                        &&& *final(draw) == (DrawState {
                            attempts: (old(draw).attempts + 1) as u64,
                            ..*old(draw)
                        })
                    },
                }
            }),
    {
        let ghost f = old(self)@.folders[k as int];
        let seen = self.folders[k].visible_random_entries();
        if seen.len() == 0 {
            if first {
                return DrawAction::Fail(LoaderError::AllHiddenRandom);
            }
            if draw.skipped > 0 {
                return DrawAction::Fail(LoaderError::AllImagesDeleted { skipped: draw.skipped });
            }
            return DrawAction::Fail(LoaderError::NoImagesAvailable);
        }
        if draw.attempts >= draw.max_attempts {
            if draw.skipped > 0 {
                return DrawAction::Fail(LoaderError::SkippedNoneValid { skipped: draw.skipped });
            }
            return DrawAction::Fail(LoaderError::NoImagesAvailable);
        }
        proof {
            old(self).lemma_wf();
            lemma_draw_pool(f, first);
        }
        let pool = self.folders[k].prepare_draw(first);
        proof {
            lemma_slot_changed(*old(self), *self, k as int);
        }
        draw.attempts = draw.attempts + 1;
        let pick = choose_entry(&pool);
        proof {
            let e = pick->0;
            let i = choose|i: int| 0 <= i < pool@.len() && pool@[i] == e;
            assert(f.draw_pool(first)[i] == e);
            assert(f.has_image(e.image_id));
            assert(f.ready_for_draw(first).item_of(e) == f.item_of(e));
        }
        self.probe_request(pick)
    }
}

impl DrawEvent {
    /// Whether this event begins a draw.
    pub fn is_start(&self) -> (yes: bool)
        ensures
            yes == (*self is Start),
    {
        match self {
            DrawEvent::Start => true,
            DrawEvent::Probed { .. } => false,
        }
    }
}

} // verus!
