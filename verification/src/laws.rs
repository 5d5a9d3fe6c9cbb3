//! Laws of the two traversal modes, stated over the values that the
//! operations' contracts speak of.

use crate::commands::ImageHistoryItem;
use crate::entries::{
    ascending, first_above, last_below, lemma_above_from, lemma_below_upto,
    lemma_position_from, lemma_position_of_ascending, lemma_visible_ascending,
    lemma_visible_members, lemma_visible_shows, next_position, position_of, shows, UNSET,
};
use crate::error::LoaderError;
use crate::folder::{lemma_ranked, ranked, FolderView};
use crate::img_loader::random::{DrawAction, DrawEvent, DrawState};
use crate::img_loader::sequential::moves;
use crate::img_loader::LoaderView;
use crate::navigation::lemma_with_current_index;
use crate::shuffle::lemma_draw_pool;
use crate::upkeep::lemma_without_image;
use vstd::prelude::*;

verus! {

impl FolderView {
    /// This folder after one step forward in sequential mode.
    pub open spec fn stepped_next(self) -> FolderView {
        self.moved_normal(self.next_normal())
    }

    /// This folder after `k` steps forward in sequential mode.
    pub open spec fn stepped_next_times(self, k: nat) -> FolderView
        decreases k,
    {
        if k == 0 {
            self
        } else {
            self.stepped_next_times((k - 1) as nat).stepped_next()
        }
    }
}

/// Sequential mode's visible list ascends, so each of its entries is found
/// under its own order index.
pub proof fn lemma_visible_normal_ascending(f: FolderView)
    requires
        f.wf(),
    ensures
        ascending(f.visible_normal()),
{
    lemma_ranked(f.images);
    lemma_visible_ascending(ranked(f.images), f.hidden_normal);
}

/// A step forward in sequential mode changes the cursor and nothing else, and
/// leaves the folder well formed.
pub proof fn lemma_stepped_next(f: FolderView)
    requires
        f.wf(),
    ensures
        f.stepped_next().wf(),
        f.stepped_next().visible_normal() == f.visible_normal(),
        f.stepped_next() == f.with_current_index(f.stepped_next().current_index),
{
    let v = f.visible_normal();
    if v.len() > 0 {
        lemma_position_from(v, f.current_index, 0);
        let p = next_position(v, f.current_index);
        crate::entries::lemma_cursor_at_entry(v, p);
        crate::navigation::lemma_visible_normal_from_zero(f);
        lemma_with_current_index(f, v[p].order_index);
    }
}

/// Counting in a circle of `n` places: the place after place `a % n` is
/// `(a + 1) % n`.
pub proof fn lemma_next_in_circle(a: int, n: int)
    requires
        a >= 0,
        n > 0,
    ensures
        0 <= a % n < n,
        (a + 1) % n == if a % n + 1 < n {
            a % n + 1
        } else {
            0
        },
{
    let q = a / n;
    let p = a % n;
    vstd::arithmetic::div_mod::lemma_fundamental_div_mod(a, n);
    vstd::arithmetic::div_mod::lemma_mod_bound(a, n);
    assert(a == q * n + p) by (nonlinear_arith)
        requires
            a == n * q + p,
    ;
    if p + 1 < n {
        vstd::arithmetic::div_mod::lemma_fundamental_div_mod_converse(a + 1, n, q, p + 1);
    } else {
        assert(a + 1 == (q + 1) * n + 0) by (nonlinear_arith)
            requires
                a == q * n + p,
                p + 1 == n,
        ;
        vstd::arithmetic::div_mod::lemma_fundamental_div_mod_converse(a + 1, n, q + 1, 0);
    }
}

/// Wraparound, step by step: from an unset cursor, the `k`-th step forward in
/// sequential mode arrives at the visible image at list position `k - 1`,
/// counted in a circle.
pub proof fn law_sequential_steps(f: FolderView, k: nat)
    requires
        f.wf(),
        f.visible_normal().len() > 0,
        f.current_index == UNSET,
        k >= 1,
    ensures
        f.stepped_next_times(k).wf(),
        f.stepped_next_times(k).visible_normal() == f.visible_normal(),
        f.stepped_next_times((k - 1) as nat).next_normal() == Some(
            f.visible_normal()[(k - 1) % (f.visible_normal().len() as int)],
        ),
        f.stepped_next_times(k).current_index == f.visible_normal()[(k - 1) % (
        f.visible_normal().len() as int)].order_index,
    decreases k,
{
    let v = f.visible_normal();
    let n = v.len() as int;
    lemma_visible_normal_ascending(f);
    crate::navigation::lemma_visible_normal_from_zero(f);
    if k == 1 {
        lemma_position_from(v, f.current_index, 0);
        assert(f.stepped_next_times(0) == f);
        assert(position_of(v, UNSET) is None);
        lemma_stepped_next(f);
        assert((0int) % n == 0) by (nonlinear_arith)
            requires
                n > 0,
        ;
    } else {
        law_sequential_steps(f, (k - 1) as nat);
        let g = f.stepped_next_times((k - 1) as nat);
        let p = (k - 2) % n;
        lemma_next_in_circle(k - 2, n);
        lemma_position_of_ascending(v, p);
        lemma_stepped_next(g);
    }
}

/// Wraparound: in a folder with `n` visible images and an unset cursor, the
/// step forward after `n` steps forward arrives at the image that the first
/// step arrived at.
pub proof fn law_sequential_wraparound(f: FolderView)
    requires
        f.wf(),
        f.visible_normal().len() > 0,
        f.current_index == UNSET,
    ensures
        f.stepped_next_times(f.visible_normal().len()).next_normal() == f.next_normal(),
{
    let n = f.visible_normal().len();
    law_sequential_steps(f, 1);
    law_sequential_steps(f, n + 1);
    assert(f.stepped_next_times(0) == f);
    assert((n as int) % (n as int) == 0 && 0int % (n as int) == 0) by (nonlinear_arith)
        requires
            n > 0,
    ;
}

/// A forced draw proposes only images that random mode shows and that are
/// outside the lap it proposes from; an image of the lap is proposed only
/// after the lap was spent and emptied. The lap is spent where a draw begins
/// and its size has reached the number of images that random mode shows, and
/// on a later attempt where it covers them all. What a draw records was
/// outside the lap and joins it.
pub proof fn law_draw_outside_lap(
    f: FolderView,
    draw: DrawState,
    event: DrawEvent,
    last: bool,
    action: DrawAction,
)
    requires
        f.wf(),
        f.answered(draw, event, last, action),
    ensures
        action matches DrawAction::Probe(item) ==> {
            let before = f.settled(draw, event, last).folder;
            let after = f.stepped(draw, event, last);
            &&& after.drawable(item.image_id)
            &&& !after.lap.contains(item.image_id)
            &&& before.lap.contains(item.image_id) ==> before.lap_spent(event is Start)
                && after.lap == Set::<i64>::empty()
            &&& before.lap_spent(event is Start) ==> after.lap == Set::<i64>::empty()
            &&& !before.lap_spent(event is Start) ==> after.lap == before.lap
        },
        action matches DrawAction::Show(item) ==> {
            &&& f.drawable(item.image_id)
            &&& !f.lap.contains(item.image_id)
            &&& f.stepped(draw, event, last).lap == f.lap.insert(item.image_id)
        },
{
    let s = f.settled(draw, event, last);
    match event {
        DrawEvent::Start => {},
        DrawEvent::Probed { image_id, exists } => {
            if !exists {
                lemma_without_image(f, image_id);
            }
        },
    }
    if s.done is None && s.folder.proposal_failure(s.draw, event is Start) is None {
        lemma_draw_pool(s.folder, event is Start);
    }
}

/// A draw that finds its file succeeds. Where random mode shows an image of
/// the folder and the replay log has room, a draw that begins proposes an
/// image, and the report that the file is there ends the draw with that image
/// shown. The image is one that random mode shows. If the lap had fewer
/// members than random mode shows images, the image was outside the lap and
/// joins it; if the size of the lap had reached that number, the lap was
/// emptied and holds the image alone. The replay log has one more entry,
/// which is the image under the order index that the random cursor points
/// at.
pub proof fn law_draw_succeeds(
    f: FolderView,
    draw: DrawState,
    last: bool,
    probe: DrawAction,
    shown: DrawAction,
)
    requires
        f.wf(),
        f.visible_random().len() > 0,
        f.has_room(),
        f.answered(draw, DrawEvent::Start, last, probe),
        probe matches DrawAction::Probe(item) ==> f.stepped(
            draw,
            DrawEvent::Start,
            last,
        ).answered(
            f.stepped_count(draw, DrawEvent::Start, last),
            DrawEvent::Probed { image_id: item.image_id, exists: true },
            last,
            shown,
        ),
    ensures
        probe matches DrawAction::Probe(item) && (shown matches DrawAction::Show(s) && ({
            let d = item.image_id;
            let end = f.stepped(draw, DrawEvent::Start, last).stepped(
                f.stepped_count(draw, DrawEvent::Start, last),
                DrawEvent::Probed { image_id: d, exists: true },
                last,
            );
            &&& s.image_id == d
            &&& s.order_index == end.current_random_index
            &&& f.drawable(d)
            &&& !f.lap_full() ==> !f.lap.contains(d) && end.lap == f.lap.insert(d)
            &&& f.lap_full() ==> end.lap == Set::<i64>::empty().insert(d)
            &&& end.history.len() == f.history.len() + 1
            &&& end.history.contains(
                crate::entries::Entry { order_index: end.current_random_index, image_id: d },
            )
            &&& end.wf()
        })),
{
    let n = f.visible_random().len();
    assert(crate::img_loader::random::attempts_for(n) >= 1);
    lemma_draw_pool(f, true);
    let g = f.stepped(draw, DrawEvent::Start, last);
    assert(g == f.ready_for_draw(true));
    crate::shuffle::lemma_ready_for_draw(f, true);
    match probe {
        DrawAction::Probe(item) => {
            let d = item.image_id;
            let i = choose|i: int|
                0 <= i < f.draw_pool(true).len() && item@ == f.item_of(
                    #[trigger] f.draw_pool(true)[i],
                );
            assert(f.draw_pool(true)[i].image_id == d);
            assert(g.acceptable(d));
            assert(g.has_room());
            crate::shuffle::lemma_drawn(g, d, last);
            let end = g.drawn(d, last);
            let e = crate::entries::Entry { order_index: end.current_random_index, image_id: d };
            if last {
                assert(end.history[end.history.len() - 1] == e);
            } else {
                assert(end.history[0] == e);
            }
        },
        _ => {},
    }
}

/// Forward, then backward: where the random cursor points at a visible entry
/// of the replay log and a visible entry lies above it, a step forward
/// followed by a step backward brings the folder back to where it was.
pub proof fn law_forward_then_backward(f: FolderView)
    requires
        f.wf(),
        position_of(f.visible_history(), f.current_random_index) is Some,
        f.replay_forward() is Some,
    ensures
        f.moved_random(f.replay_forward()).replay_backward() matches Some(e) && e.order_index
            == f.current_random_index,
        f.moved_random(f.replay_forward()).moved_random(
            f.moved_random(f.replay_forward()).replay_backward(),
        ) == f,
{
    let v = f.visible_history();
    let c = f.current_random_index;
    lemma_visible_ascending(f.history, f.hidden_random);
    lemma_position_from(v, c, 0);
    lemma_above_from(v, c, 0);
    let p = position_of(v, c).unwrap();
    let q = first_above(v, c).unwrap();
    assert(q == p + 1) by {
        if q <= p {
            if q < p {
                assert(v[q].order_index < v[p].order_index);
            }
        } else if q > p + 1 {
            assert(v[p].order_index < v[p + 1].order_index);
        }
    }
    let g = f.moved_random(f.replay_forward());
    assert(g.visible_history() == v);
    lemma_below_upto(v, v[q].order_index, v.len() as int);
    let b = last_below(v, v[q].order_index).unwrap();
    assert(b == p) by {
        if b < p {
            assert(v[p].order_index < v[q].order_index);
        } else if b > p {
            if b > q {
                assert(v[q].order_index < v[b].order_index);
            }
        }
    }
}

/// Cursors never dangle: in a well-formed store each cursor of each folder is
/// unset or points at an entry that its mode shows. Every operation of the
/// engine takes a well-formed store to a well-formed store.
pub proof fn law_cursors_never_dangle(s: LoaderView, k: int)
    requires
        s.wf(),
        0 <= k < s.folders.len(),
    ensures
        ({
            let f = s.folders[k];
            &&& f.current_index == UNSET || exists|i: int|
                0 <= i < f.visible_normal().len() && (#[trigger] f.visible_normal()[i]).order_index
                    == f.current_index
            &&& f.current_random_index == UNSET || exists|i: int|
                0 <= i < f.visible_history().len() && (
                #[trigger] f.visible_history()[i]).order_index == f.current_random_index
        }),
{
    let f = s.folders[k];
    assert(f.wf());
    lemma_position_from(f.visible_normal(), f.current_index, 0);
    lemma_position_from(f.visible_history(), f.current_random_index, 0);
    if f.current_index != UNSET {
        let i = position_of(f.visible_normal(), f.current_index).unwrap();
        assert(f.visible_normal()[i].order_index == f.current_index);
    }
    if f.current_random_index != UNSET {
        let i = position_of(f.visible_history(), f.current_random_index).unwrap();
        assert(f.visible_history()[i].order_index == f.current_random_index);
    }
}

impl LoaderView {
    /// This store after one step forward in sequential mode.
    pub open spec fn after_next(self) -> LoaderView {
        match self.current_position() {
            Some(k) => self.with_folder(k, self.folders[k].stepped_next()),
            None => self,
        }
    }

    /// This store after `k` steps forward in sequential mode.
    pub open spec fn after_nexts(self, k: nat) -> LoaderView
        decreases k,
    {
        if k == 0 {
            self
        } else {
            self.after_nexts((k - 1) as nat).after_next()
        }
    }

    /// This store after random mode replayed to `target` in the selected
    /// folder.
    pub open spec fn after_replay(self, target: Option<crate::entries::Entry>) -> LoaderView {
        match self.current_position() {
            Some(k) => self.with_folder(k, self.folders[k].moved_random(target)),
            None => self,
        }
    }
}

/// What `get_next_image` leaves behind is the store one step forward in
/// sequential mode.
pub proof fn lemma_next_is_a_step(
    pre: LoaderView,
    post: LoaderView,
    r: Result<ImageHistoryItem, LoaderError>,
)
    requires
        moves(
            pre,
            pre.next_normal(),
            pre.moved_normal(pre.next_normal()),
            LoaderError::AllHiddenNormal,
            post,
            r,
        ),
    ensures
        post == pre.after_next(),
{
    match pre.current_position() {
        Some(k) => {
            assert(pre.folders.update(k, pre.folders[k]) =~= pre.folders);
        },
        None => {},
    }
}

/// What a new step of `get_next_random_image` and of `get_prev_random_image`
/// leaves behind, where the replay log has an entry to step to, is the store
/// after the replay to that entry.
pub proof fn lemma_replay_is_a_step(
    pre: LoaderView,
    draw: DrawState,
    target: Option<crate::entries::Entry>,
    last: bool,
    post: LoaderView,
    post_draw: DrawState,
    action: DrawAction,
)
    requires
        pre.current_folder() is Some,
        target is Some,
        crate::img_loader::random::replays_or_draws(
            pre,
            draw,
            DrawEvent::Start,
            target,
            last,
            post,
            post_draw,
            action,
        ),
    ensures
        post == pre.after_replay(target),
        action is Show,
{
}

/// A step forward in sequential mode leaves the store well formed, the same
/// folder selected, and that folder one step further.
pub proof fn lemma_after_next(s: LoaderView)
    requires
        s.wf(),
        s.current_position() is Some,
    ensures
        s.after_next().wf(),
        s.after_next().current_position() == s.current_position(),
        s.after_next().current_folder() == Some(s.current_folder().unwrap().stepped_next()),
{
    let k = s.current_position().unwrap();
    lemma_stepped_next(s.folders[k]);
    crate::img_loader::lemma_folder_changed(s, k, s.folders[k].stepped_next());
}

/// Steps forward in sequential mode are steps of the selected folder.
pub proof fn lemma_after_nexts(s: LoaderView, k: nat)
    requires
        s.wf(),
        s.current_position() is Some,
    ensures
        s.after_nexts(k).wf(),
        s.after_nexts(k).current_position() == s.current_position(),
        s.after_nexts(k).current_folder() == Some(
            s.current_folder().unwrap().stepped_next_times(k),
        ),
    decreases k,
{
    if k > 0 {
        lemma_after_nexts(s, (k - 1) as nat);
        lemma_after_next(s.after_nexts((k - 1) as nat));
    }
}

/// Wraparound in the store: where the selected folder shows `n` images in
/// sequential mode and its cursor is unset, the step forward after `n` steps
/// forward arrives at the image that the first step arrived at.
pub proof fn law_next_comes_round(s: LoaderView)
    requires
        s.wf(),
        s.current_folder() is Some,
        s.current_folder().unwrap().visible_normal().len() > 0,
        s.current_folder().unwrap().current_index == UNSET,
    ensures
        s.after_nexts(s.current_folder().unwrap().visible_normal().len()).next_normal()
            == s.next_normal(),
{
    let f = s.current_folder().unwrap();
    lemma_after_nexts(s, f.visible_normal().len());
    law_sequential_wraparound(f);
}

/// Forward, then backward, in the store: where the random cursor of the
/// selected folder points at a visible entry of the replay log and a visible
/// entry lies above it, replaying forward and then backward brings the store
/// back to where it was.
pub proof fn law_replay_returns(s: LoaderView)
    requires
        s.wf(),
        s.current_folder() is Some,
        position_of(
            s.current_folder().unwrap().visible_history(),
            s.current_folder().unwrap().current_random_index,
        ) is Some,
        s.replay_forward() is Some,
    ensures
        s.after_replay(s.replay_forward()).replay_backward() matches Some(e) && e.order_index
            == s.current_folder().unwrap().current_random_index,
        s.after_replay(s.replay_forward()).after_replay(
            s.after_replay(s.replay_forward()).replay_backward(),
        ) == s,
{
    let k = s.current_position().unwrap();
    let f = s.folders[k];
    law_forward_then_backward(f);
    let g = f.moved_random(f.replay_forward());
    crate::shuffle::lemma_random_targets(f, 0);
    lemma_above_from(f.visible_history(), f.current_random_index, 0);
    let e = f.replay_forward().unwrap();
    crate::entries::lemma_visible_members(f.history, f.hidden_random);
    let i = choose|i: int| 0 <= i < f.history.len() && f.history[i] == e;
    assert(f.history[i].order_index >= 0);
    crate::entries::lemma_cursor_at_entry(
        f.visible_history(),
        first_above(f.visible_history(), f.current_random_index).unwrap(),
    );
    crate::shuffle::lemma_with_random_index(f, e.order_index);
    crate::img_loader::lemma_folder_changed(s, k, g);
    let t = s.after_replay(s.replay_forward());
    assert(t.folders[k] == g);
    assert(t.after_replay(t.replay_backward()).folders =~= s.folders);
}

/// Hidden exhaustion in random mode: a draw that begins fails with the
/// exhaustion of that mode exactly when every image of the folder is hidden
/// from it, and proposes an image as soon as one is not.
pub proof fn law_hidden_exhaustion_random(
    f: FolderView,
    draw: DrawState,
    last: bool,
    action: DrawAction,
)
    requires
        f.wf(),
        f.answered(draw, DrawEvent::Start, last, action),
    ensures
        (forall|id: i64| f.has_image(id) ==> f.hidden_random.contains(id)) ==> (
        action matches DrawAction::Fail(LoaderError::AllHiddenRandom)) && f.stepped(
            draw,
            DrawEvent::Start,
            last,
        ) == f,
        (exists|id: i64| f.has_image(id) && !f.hidden_random.contains(id)) ==> action is Probe,
{
    lemma_all_hidden(f);
}

/// A file that is gone: settling the report that the file of an image of the
/// store is not there removes the image's row and fails with a failure of
/// the not-found class.
pub proof fn law_missing_file(
    pre: LoaderView,
    image_id: i64,
    post: LoaderView,
    r: Result<Vec<u8>, LoaderError>,
)
    requires
        pre.wf(),
        pre.image_owner(image_id) is Some,
        crate::img_loader::indexing::loads(
            pre,
            image_id,
            crate::img_loader::indexing::FileRead::NotFound,
            post,
            r,
        ),
    ensures
        r matches Err(e) && e.class_of() == crate::error::ErrorClass::NotFound,
        post.wf(),
        post.image_owner(image_id) is None,
        post.last_image_id == Some(image_id),
{
    let k = pre.image_owner(image_id).unwrap();
    let g = pre.folders[k].without_image(image_id);
    lemma_without_image(pre.folders[k], image_id);
    crate::img_loader::lemma_folder_changed(pre, k, g);
    let mid = pre.with_folder(k, g);
    assert(post == mid.with_last_image(Some(image_id)));
    assert(post.folders == mid.folders);
    if post.image_owner(image_id) is Some {
        let j = post.image_owner(image_id).unwrap();
        assert(crate::folder::holds_image(post.folders[j].images, image_id));
        if j != k {
            assert(post.folders[j] == pre.folders[j]);
            assert(crate::folder::holds_image(pre.folders[k].images, image_id));
        }
    }
}

/// Hidden exhaustion: a step forward in sequential mode fails with the
/// exhaustion of that mode exactly when every image of the selected folder is
/// hidden from it, and hands out an image as soon as one is not.
pub proof fn law_hidden_exhaustion(
    pre: LoaderView,
    post: LoaderView,
    r: Result<ImageHistoryItem, LoaderError>,
)
    requires
        pre.wf(),
        pre.current_folder() is Some,
        moves(
            pre,
            pre.next_normal(),
            pre.moved_normal(pre.next_normal()),
            LoaderError::AllHiddenNormal,
            post,
            r,
        ),
    ensures
        ({
            let f = pre.current_folder().unwrap();
            &&& (forall|id: i64| f.has_image(id) ==> f.hidden_normal.contains(id)) ==> (
            r matches Err(LoaderError::AllHiddenNormal)) && post == pre
            &&& (exists|id: i64| f.has_image(id) && !f.hidden_normal.contains(id)) ==> r is Ok
        }),
{
    let f = pre.current_folder().unwrap();
    lemma_all_hidden(f);
}

/// A mode shows nothing of a folder exactly when every image of the folder is
/// hidden from it.
pub proof fn lemma_all_hidden(f: FolderView)
    requires
        f.wf(),
    ensures
        f.visible_normal().len() == 0 <==> (forall|id: i64|
            f.has_image(id) ==> f.hidden_normal.contains(id)),
        f.visible_random().len() == 0 <==> (forall|id: i64|
            f.has_image(id) ==> f.hidden_random.contains(id)),
{
    lemma_ranked(f.images);
    let all = ranked(f.images);
    assert forall|hidden: Set<i64>|
        (#[trigger] crate::entries::visible(all, hidden)).len() == 0 <==> (forall|id: i64|
            f.has_image(id) ==> hidden.contains(id)) by {
        let v = crate::entries::visible(all, hidden);
        lemma_visible_members(all, hidden);
        if v.len() == 0 {
            assert forall|id: i64| f.has_image(id) implies hidden.contains(id) by {
                lemma_visible_shows(all, hidden, id);
                if !hidden.contains(id) {
                    assert(shows(v, id));
                }
            }
        }
        if v.len() > 0 {
            let e = v[0];
            lemma_visible_shows(all, hidden, e.image_id);
            assert(shows(v, e.image_id));
        }
    }
}

} // verus!
