//! One request for an image, from the check of the selection to the bytes.
//! The engine decides each step; the caller does what only it can do, which
//! is to look at the disk, and reports back: a walk through a directory tree,
//! a look for one file, the reading of one file.

use crate::commands::ImageHistoryItem;
use crate::error::LoaderError;
use crate::img_loader::indexing::{loads, FileRead};
use crate::img_loader::random::{
    forced_draw, replays_or_draws, DrawAction, DrawEvent, DrawState,
};
use crate::img_loader::sequential::moves;
use crate::img_loader::{ImageLoader, LoaderView};
use crate::scanner::{progress_views, scan_report, Progress, ProgressView};
use crate::upkeep::texts;
use vstd::prelude::*;

verus! {

/// Which image a request asks for.
#[derive(Clone, Copy, Debug, PartialEq, Eq)]
pub enum Request {
    /// The next image in sequential order.
    Next,
    /// The previous image in sequential order.
    Prev,
    /// The image under the sequential cursor, or the first.
    Current,
    /// The visible image at a list position of sequential mode.
    Normal(i64),
    /// One step forward in random mode.
    NextRandom,
    /// One step backward in random mode.
    PrevRandom,
    /// A forced draw, appended to the replay log if set, else put in front.
    ForceRandom(bool),
    /// The visible log entry at a list position of random mode.
    Random(i64),
}

/// What the caller reports to a request.
#[derive(Clone, Debug, PartialEq, Eq)]
pub enum Event {
    /// The request begins; these folders are not on disk.
    Start(Vec<i64>),
    /// The walk through the folder that was to be scanned found these paths.
    Scanned(Vec<String>),
    /// The file of the proposed image was looked for on disk.
    Probed { image_id: i64, exists: bool },
    /// The file of the image that was to be read came to this.
    Read { image_id: i64, read: FileRead },
}

/// What a request asks of the caller next.
#[derive(Clone, Debug, PartialEq, Eq)]
pub enum Action {
    /// Walk through the directory tree at this path and report the image
    /// files found.
    Scan(String),
    /// Look for this image's file on disk and report back.
    Probe(ImageHistoryItem),
    /// Read this image's file and report what came of it.
    Read(ImageHistoryItem),
    /// The request is answered: the bytes, and whether the engine fell back
    /// to another folder.
    Done(Vec<u8>, bool),
    /// The request failed.
    Fail(LoaderError),
}

/// The running state of one request.
#[derive(Clone, Copy, Debug, PartialEq, Eq)]
pub struct Session {
    pub request: Request,
    pub draw: DrawState,
    pub auto_switched: bool,
}

/// The answer that hands out what sequential mode arrived at: the image is to
/// be read, a failure ends the request.
pub open spec fn hands(r: Result<ImageHistoryItem, LoaderError>, action: Action) -> bool {
    match r {
        Ok(item) => action matches Action::Read(x) && x@ == item@,
        Err(e) => action matches Action::Fail(y) && y == e,
    }
}

/// The answer that passes on what a step of random mode asks for: a look for
/// a file, the reading of the image it arrived at, or its failure.
pub open spec fn relays(a: DrawAction, action: Action) -> bool {
    match a {
        DrawAction::Probe(item) => action matches Action::Probe(x) && x@ == item@,
        DrawAction::Show(item) => action matches Action::Read(x) && x@ == item@,
        DrawAction::Fail(e) => action matches Action::Fail(y) && y == e,
    }
}

/// The answer that ends a request with what the reading of the file came to.
pub open spec fn finishes(r: Result<Vec<u8>, LoaderError>, auto_switched: bool, action: Action) -> bool {
    match r {
        Ok(data) => action matches Action::Done(bytes, flag) && bytes@ == data@ && flag
            == auto_switched,
        Err(e) => action matches Action::Fail(y) && y == e,
    }
}

/// What the traversal of a request does: the move of its mode on the
/// selected folder, answered with the image to read, a file to look for, or a
/// failure. Sequential requests leave the count of draws alone.
pub open spec fn traverses(
    pre: LoaderView,
    request: Request,
    draw: DrawState,
    event: DrawEvent,
    post: LoaderView,
    post_draw: DrawState,
    action: Action,
) -> bool {
    match request {
        Request::Next => post_draw == draw && exists|r: Result<ImageHistoryItem, LoaderError>|
            #[trigger] hands(r, action) && moves(
                pre,
                pre.next_normal(),
                pre.moved_normal(pre.next_normal()),
                LoaderError::AllHiddenNormal,
                post,
                r,
            ),
        Request::Prev => post_draw == draw && exists|r: Result<ImageHistoryItem, LoaderError>|
            #[trigger] hands(r, action) && moves(
                pre,
                pre.prev_normal(),
                pre.moved_normal(pre.prev_normal()),
                LoaderError::AllHiddenNormal,
                post,
                r,
            ),
        Request::Current => post_draw == draw && exists|r: Result<ImageHistoryItem, LoaderError>|
            #[trigger] hands(r, action) && moves(
                pre,
                pre.current_normal(),
                pre.moved_normal(pre.current_normal()),
                LoaderError::AllHiddenNormal,
                post,
                r,
            ),
        Request::Normal(index) => post_draw == draw && exists|
            r: Result<ImageHistoryItem, LoaderError>,
        |
            #[trigger] hands(r, action) && moves(
                pre,
                pre.nth_normal(index),
                pre.moved_normal(pre.nth_normal(index)),
                LoaderError::AllHiddenNormal,
                post,
                r,
            ),
        Request::NextRandom => exists|a: DrawAction|
            #[trigger] relays(a, action) && replays_or_draws(
                pre,
                draw,
                event,
                pre.replay_forward(),
                true,
                post,
                post_draw,
                a,
            ),
        Request::PrevRandom => exists|a: DrawAction|
            #[trigger] relays(a, action) && replays_or_draws(
                pre,
                draw,
                event,
                pre.replay_backward(),
                false,
                post,
                post_draw,
                a,
            ),
        Request::ForceRandom(last) => exists|a: DrawAction|
            #[trigger] relays(a, action) && forced_draw(
                pre,
                draw,
                event,
                last,
                post,
                post_draw,
                a,
            ),
        Request::Random(index) => exists|a: DrawAction|
            #[trigger] relays(a, action) && replays_or_draws(
                pre,
                draw,
                event,
                pre.nth_random(index),
                true,
                post,
                post_draw,
                a,
            ),
    }
}

/// What the start of a request does: the selection is checked against the
/// disk; where that fails the request fails; where the folder arrived at has
/// no images the caller is asked to scan it; otherwise the traversal begins.
pub open spec fn starts(
    pre: LoaderView,
    session: Session,
    missing: Seq<i64>,
    post: LoaderView,
    post_session: Session,
    action: Action,
    notes: Seq<ProgressView>,
) -> bool {
    let checked = pre.revalidated(missing);
    match pre.validation(missing) {
        Err(e) => action matches Action::Fail(y) && y == e && post == checked && post_session
            == session && notes == pre.validation_notes(missing),
        Ok((id, auto_switched)) => {
            &&& post_session.request == session.request
            &&& post_session.auto_switched == auto_switched
            &&& notes == pre.validation_notes(missing) + checked.opening_notes(false)
            &&& match checked.current_folder() {
                Some(f) => if f.images.len() == 0 {
                    action matches Action::Scan(path) && path@ == f.path && post == checked
                        && post_session.draw == session.draw
                } else {
                    traverses(
                        checked,
                        session.request,
                        session.draw,
                        DrawEvent::Start,
                        post,
                        post_session.draw,
                        action,
                    )
                },
                None => false,
            }
        },
    }
}

/// What the report of a scan does: the paths are taken into the selected
/// folder; where that fails, or leaves the folder without an image, the
/// request fails; otherwise the traversal begins.
pub open spec fn scans(
    pre: LoaderView,
    session: Session,
    paths: Seq<Seq<char>>,
    post: LoaderView,
    post_session: Session,
    action: Action,
    notes: Seq<ProgressView>,
) -> bool {
    &&& post_session.request == session.request
    &&& post_session.auto_switched == session.auto_switched
    &&& match pre.current_position() {
        None => action matches Action::Fail(LoaderError::NoFolderSelected) && post == pre
            && post_session == session && notes.len() == 0,
        Some(k) => if pre.next_image_id + paths.len() > i64::MAX {
            action matches Action::Fail(LoaderError::StoreFull) && post == pre && post_session
                == session && notes.len() == 0
        } else {
            let after = pre.with_scanned(k, paths);
            &&& notes == scan_report(paths, after.folders[k].images.len())
            &&& if after.folders[k].images.len() == 0 {
                action matches Action::Fail(LoaderError::NoImagesFound) && post == after
                    && post_session == session
            } else {
                traverses(
                    after,
                    session.request,
                    session.draw,
                    DrawEvent::Start,
                    post,
                    post_session.draw,
                    action,
                )
            }
        },
    }
}

/// What one step of a request does, for each report of the caller.
pub open spec fn serves(
    pre: LoaderView,
    session: Session,
    event: Event,
    post: LoaderView,
    post_session: Session,
    action: Action,
    notes: Seq<ProgressView>,
) -> bool {
    match event {
        Event::Start(missing) => starts(pre, session, missing@, post, post_session, action, notes),
        Event::Scanned(paths) => scans(
            pre,
            session,
            texts(paths@),
            post,
            post_session,
            action,
            notes,
        ),
        Event::Probed { image_id, exists } => {
            &&& post_session.request == session.request
            &&& post_session.auto_switched == session.auto_switched
            &&& notes.len() == 0
            &&& traverses(
                pre,
                session.request,
                session.draw,
                DrawEvent::Probed { image_id, exists },
                post,
                post_session.draw,
                action,
            )
        },
        Event::Read { image_id, read } => {
            &&& post_session == session
            &&& notes.len() == 0
            &&& exists|r: Result<Vec<u8>, LoaderError>|
                #[trigger] finishes(r, session.auto_switched, action) && loads(
                    pre,
                    image_id,
                    read,
                    post,
                    r,
                )
        },
    }
}

impl Session {
    /// The state of a request that has not begun.
    pub fn new(request: Request) -> (session: Session)
        ensures
            session == (Session {
                request,
                draw: DrawState { attempts: 0, max_attempts: 0, skipped: 0 },
                auto_switched: false,
            }),
    {
        Session { request, draw: DrawState::new(), auto_switched: false }
    }
}

impl ImageLoader {
    /// The traversal of a request.
    fn traverse(&mut self, session: &mut Session, event: DrawEvent) -> (action: Action)
        requires
            old(self).wf(),
        ensures
            final(self).wf(),
            final(session).request == old(session).request,
            final(session).auto_switched == old(session).auto_switched,
            traverses(
                old(self)@,
                old(session).request,
                old(session).draw,
                event,
                final(self)@,
                final(session).draw,
                action,
            ),
    {
        match session.request {
            Request::Next => {
                let r = self.get_next_image();
                Self::hand(r)
            },
            Request::Prev => {
                let r = self.get_prev_image();
                Self::hand(r)
            },
            Request::Current => {
                let r = self.get_current_image_or_first();
                Self::hand(r)
            },
            Request::Normal(index) => {
                let r = self.set_normal_image_by_index(index);
                Self::hand(r)
            },
            Request::NextRandom => {
                let a = self.get_next_random_image(&mut session.draw, event);
                Self::relay(a)
            },
            Request::PrevRandom => {
                let a = self.get_prev_random_image(&mut session.draw, event);
                Self::relay(a)
            },
            Request::ForceRandom(last) => {
                let a = self.get_force_random_image(&mut session.draw, event, last);
                Self::relay(a)
            },
            Request::Random(index) => {
                let a = self.set_random_image_by_index(index, &mut session.draw, event);
                Self::relay(a)
            },
        }
    }

    /// Hands out what sequential mode arrived at.
    fn hand(r: Result<ImageHistoryItem, LoaderError>) -> (action: Action)
        ensures
            hands(r, action),
    {
        match r {
            Ok(item) => Action::Read(item),
            Err(e) => Action::Fail(e),
        }
    }

    /// Passes on what a step of random mode asks for.
    fn relay(a: DrawAction) -> (action: Action)
        ensures
            relays(a, action),
    {
        match a {
            DrawAction::Probe(item) => Action::Probe(item),
            DrawAction::Show(item) => Action::Read(item),
            DrawAction::Fail(e) => Action::Fail(e),
        }
    }

    /// The start of a request.
    fn serve_start(&mut self, session: &mut Session, missing: &Vec<i64>) -> (r: (
        Action,
        Vec<Progress>,
    ))
        requires
            old(self).wf(),
        ensures
            final(self).wf(),
            starts(
                old(self)@,
                *old(session),
                missing@,
                final(self)@,
                *final(session),
                r.0,
                progress_views(r.1@),
            ),
    {
        let (plan, notes) = self.ensure_images_indexed_with_progress(missing, false);
        match plan {
            Err(e) => (Action::Fail(e), notes),
            Ok(plan) => {
                session.auto_switched = plan.auto_switched;
                match plan.scan {
                    Some(path) => (Action::Scan(path), notes),
                    None => {
                        let action = self.traverse(session, DrawEvent::Start);
                        (action, notes)
                    },
                }
            },
        }
    }

    /// The report of a scan.
    fn serve_scanned(&mut self, session: &mut Session, paths: &Vec<String>) -> (r: (
        Action,
        Vec<Progress>,
    ))
        requires
            old(self).wf(),
        ensures
            final(self).wf(),
            scans(
                old(self)@,
                *old(session),
                texts(paths@),
                final(self)@,
                *final(session),
                r.0,
                progress_views(r.1@),
            ),
    {
        let k = match self.current_slot() {
            Some(k) => k,
            None => {
                return (Action::Fail(LoaderError::NoFolderSelected), Vec::new());
            },
        };
        let folder_id = self.folders[k].id;
        proof {
            self.lemma_wf();
            crate::img_loader::lemma_folder_position(self@, k as int);
        }
        let (count, notes) = self.index_folder_with_progress(folder_id, paths);
        match count {
            Err(e) => (Action::Fail(e), notes),
            Ok(_) => {
                let action = self.traverse(session, DrawEvent::Start);
                (action, notes)
            },
        }
    }

    /// One step of a request for an image. The caller begins with `Start` and
    /// does what each answer asks for, reporting back, until the answer is
    /// `Done` or `Fail`. With each answer come the progress notes of the step.
    pub fn serve(&mut self, session: &mut Session, event: Event) -> (r: (Action, Vec<Progress>))
        requires
            old(self).wf(),
        ensures
            final(self).wf(),
            serves(
                old(self)@,
                *old(session),
                event,
                final(self)@,
                *final(session),
                r.0,
                progress_views(r.1@),
            ),
    {
        match event {
            Event::Start(missing) => self.serve_start(session, &missing),
            Event::Scanned(paths) => self.serve_scanned(session, &paths),
            Event::Probed { image_id, exists } => {
                let action = self.traverse(session, DrawEvent::Probed { image_id, exists });
                (action, Vec::new())
            },
            Event::Read { image_id, read } => {
                let ghost asked = read;
                let r = self.load_by_image_id(image_id, read);
                let auto_switched = session.auto_switched;
                let action = match r {
                    Ok(data) => Action::Done(data, auto_switched),
                    Err(e) => Action::Fail(e),
                };
                proof {
                    assert(finishes(r, auto_switched, action));
                    assert(loads(old(self)@, image_id, asked, self@, r));
                }
                (action, Vec::new())
            },
        }
    }
}

} // verus!
