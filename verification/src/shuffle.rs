//! Random mode: the replay log, its cursor, and the lap of images already
//! drawn in the running shuffle cycle.

use crate::entries::{
    clamp_position, clamped_position, cursor_ok, find_first_above, find_last_below,
    first_above, last_below, lemma_above_from, lemma_below_upto, lemma_cursor_at_entry,
    lemma_visible_members, visible, visible_entries, Entry, UNSET,
};
use crate::folder::{Folder, FolderView, INDEX_LIMIT};
use vstd::prelude::*;

verus! {

/// The log `h` with every order index raised by one.
pub open spec fn shifted(h: Seq<Entry>) -> Seq<Entry> {
    Seq::new(
        h.len(),
        |k: int| Entry { order_index: (h[k].order_index + 1) as i64, image_id: h[k].image_id },
    )
}

impl FolderView {
    /// This folder with the random cursor at `c`.
    pub open spec fn with_random_index(self, c: i64) -> FolderView {
        FolderView { current_random_index: c, ..self }
    }

    /// This folder after random mode moved to `target`, if there is one.
    pub open spec fn moved_random(self, target: Option<Entry>) -> FolderView {
        match target {
            Some(e) => self.with_random_index(e.order_index),
            None => self,
        }
    }

    /// The first visible entry of the replay log above the random cursor, if
    /// there is one to step forward to.
    pub open spec fn replay_forward(self) -> Option<Entry> {
        let v = self.visible_history();
        match first_above(v, self.current_random_index) {
            Some(i) => Some(v[i]),
            None => None,
        }
    }

    /// The last visible entry of the replay log below the random cursor, if
    /// there is one to step backward to.
    pub open spec fn replay_backward(self) -> Option<Entry> {
        let v = self.visible_history();
        match last_below(v, self.current_random_index) {
            Some(i) => Some(v[i]),
            None => None,
        }
    }

    /// The visible entry of the replay log at list position `index`, brought
    /// into range; none when the log shows nothing.
    pub open spec fn nth_random(self, index: i64) -> Option<Entry> {
        let v = self.visible_history();
        if v.len() == 0 {
            None
        } else {
            Some(v[clamped_position(index, v.len() as int)])
        }
    }

    /// The lap as a draw proposes from it: emptied when it is spent, which is
    /// judged by its size on the first attempt of a draw and by what it
    /// covers on a later one.
    pub open spec fn lap_for_draw(self, first: bool) -> Set<i64> {
        if self.lap_spent(first) {
            Set::empty()
        } else {
            self.lap
        }
    }

    /// This folder as a draw proposes from it.
    pub open spec fn ready_for_draw(self, first: bool) -> FolderView {
        FolderView { lap: self.lap_for_draw(first), ..self }
    }

    /// The entries that a draw may choose from: the visible images outside the
    /// lap, after the lap was emptied if it was spent.
    pub open spec fn draw_pool(self, first: bool) -> Seq<Entry> {
        if self.lap_spent(first) {
            self.visible_random()
        } else {
            self.undrawn()
        }
    }

    /// Whether a draw may take the image `id`: it is in the folder and random
    /// mode does not hide it.
    pub open spec fn drawable(self, id: i64) -> bool {
        self.has_image(id) && !self.hidden_random.contains(id)
    }

    /// The order index that an appended entry receives: one more than the
    /// highest in the log, zero in an empty log.
    pub open spec fn next_order_index(self) -> int {
        if self.history.len() == 0 {
            0
        } else {
            self.history.last().order_index + 1
        }
    }

    /// Whether the log can take one more entry without leaving the index space.
    pub open spec fn has_room(self) -> bool {
        self.next_order_index() < INDEX_LIMIT
    }

    /// This folder after `id` was drawn and appended to the log: the image
    /// joins the lap, takes the next order index, and the cursor points at it.
    pub open spec fn drawn_last(self, id: i64) -> FolderView {
        let at = self.next_order_index() as i64;
        FolderView {
            lap: self.lap.insert(id),
            history: self.history.push(Entry { order_index: at, image_id: id }),
            current_random_index: at,
            ..self
        }
    }

    /// This folder after `id` was drawn and put in front of the log: the image
    /// joins the lap, every entry moves up by one, the new one takes order
    /// index zero, and the cursor points at it.
    pub open spec fn drawn_first(self, id: i64) -> FolderView {
        FolderView {
            lap: self.lap.insert(id),
            history: seq![Entry { order_index: 0, image_id: id }] + shifted(self.history),
            current_random_index: 0,
            ..self
        }
    }

    /// This folder after a draw of `id`, appended when `last` is set and put in
    /// front otherwise.
    pub open spec fn drawn(self, id: i64, last: bool) -> FolderView {
        if last {
            self.drawn_last(id)
        } else {
            self.drawn_first(id)
        }
    }

    /// This folder with the replay log and the lap emptied and the random
    /// cursor unset.
    pub open spec fn with_random_reset(self) -> FolderView {
        FolderView {
            lap: Set::empty(),
            history: Seq::empty(),
            current_random_index: UNSET,
            ..self
        }
    }
}

/// A cursor at the order index of any entry that a list contains points at an
/// entry of the list.
pub proof fn lemma_cursor_at_member(s: Seq<Entry>, e: Entry)
    requires
        s.contains(e),
    ensures
        cursor_ok(s, e.order_index),
{
    let i = choose|i: int| 0 <= i < s.len() && s[i] == e;
    lemma_cursor_at_entry(s, i);
}

/// Moving the random cursor to an entry of the visible log, or unsetting it,
/// leaves the folder well formed.
pub proof fn lemma_with_random_index(f: FolderView, c: i64)
    requires
        f.wf(),
        c >= UNSET,
        cursor_ok(f.visible_history(), c),
    ensures
        f.with_random_index(c).wf(),
{
    let g = f.with_random_index(c);
    assert(g.images == f.images);
    assert(g.visible_normal() == f.visible_normal());
    assert(g.visible_history() == f.visible_history());
}

/// Whatever random mode replays to shows an image of the folder.
pub proof fn lemma_random_targets(f: FolderView, index: i64)
    requires
        f.wf(),
    ensures
        f.replay_forward() matches Some(e) ==> f.has_image(e.image_id),
        f.replay_backward() matches Some(e) ==> f.has_image(e.image_id),
        f.nth_random(index) matches Some(e) ==> f.has_image(e.image_id),
{
    let v = f.visible_history();
    lemma_above_from(v, f.current_random_index, 0);
    lemma_below_upto(v, f.current_random_index, v.len() as int);
    crate::items::lemma_visible_lists_show_images(f);
    match first_above(v, f.current_random_index) {
        Some(i) => {
            assert(f.has_image(v[i].image_id));
        },
        None => {},
    }
    match last_below(v, f.current_random_index) {
        Some(i) => {
            assert(f.has_image(v[i].image_id));
        },
        None => {},
    }
    if v.len() > 0 {
        assert(f.has_image(v[clamped_position(index, v.len() as int)].image_id));
    }
}

/// The identifiers of the images that random mode shows, in their order.
pub open spec fn visible_ids(f: FolderView) -> Seq<i64> {
    Seq::new(f.visible_random().len(), |i: int| f.visible_random()[i].image_id)
}

/// The lap of a well-formed folder is finite, and random mode shows no image
/// twice.
pub proof fn lemma_lap_finite(f: FolderView)
    requires
        f.wf(),
    ensures
        f.lap.finite(),
        visible_ids(f).no_duplicates(),
        visible_ids(f).to_set().finite(),
        visible_ids(f).to_set().len() == f.visible_random().len(),
{
    let all = Seq::new(f.images.len(), |i: int| f.images[i].id);
    vstd::seq_lib::seq_to_set_is_finite(all);
    assert forall|id: i64| f.lap.contains(id) implies all.to_set().contains(id) by {
        let i = choose|i: int| 0 <= i < f.images.len() && (#[trigger] f.images[i]).id == id;
        assert(all[i] == id);
    }
    vstd::set_lib::lemma_len_subset(f.lap, all.to_set());
    let v = f.visible_random();
    let ids = visible_ids(f);
    crate::folder::lemma_ranked(f.images);
    crate::entries::lemma_visible_ascending(crate::folder::ranked(f.images), f.hidden_random);
    lemma_visible_members(crate::folder::ranked(f.images), f.hidden_random);
    assert forall|i: int, j: int| 0 <= i < ids.len() && 0 <= j < ids.len() && i != j implies ids[i]
        != ids[j] by {
        let r = crate::folder::ranked(f.images);
        let a = choose|a: int| 0 <= a < r.len() && r[a] == v[i];
        let b = choose|b: int| 0 <= b < r.len() && r[b] == v[j];
        assert(r[a].order_index == a && r[b].order_index == b);
        if i < j {
            assert(v[i].order_index < v[j].order_index);
            assert(f.images[a].id < f.images[b].id);
        } else {
            assert(v[j].order_index < v[i].order_index);
            assert(f.images[b].id < f.images[a].id);
        }
    }
    ids.unique_seq_to_set();
    vstd::seq_lib::seq_to_set_is_finite(ids);
}

/// A lap that covers the visible set has at least its size: what is spent by
/// coverage is spent by size.
pub proof fn lemma_complete_is_full(f: FolderView)
    requires
        f.wf(),
        f.lap_complete(),
    ensures
        f.lap_full(),
{
    lemma_lap_finite(f);
    let v = f.visible_random();
    let ids = visible_ids(f);
    lemma_visible_members(v, f.lap);
    assert forall|id: i64| ids.to_set().contains(id) implies f.lap.contains(id) by {
        let i = choose|i: int| 0 <= i < ids.len() && ids[i] == id;
        assert(v[i].image_id == id);
        if !f.lap.contains(id) {
            assert(f.undrawn().contains(v[i]));
        }
    }
    vstd::set_lib::lemma_len_subset(ids.to_set(), f.lap);
}

/// Every entry of the draw pool is visible in random mode, shows an image of
/// the folder, and is outside the lap that the draw proposes from; and the
/// pool is empty only where random mode shows nothing.
pub proof fn lemma_draw_pool(f: FolderView, first: bool)
    requires
        f.wf(),
    ensures
        f.visible_random().len() > 0 ==> f.draw_pool(first).len() > 0,
        forall|i: int|
            0 <= i < f.draw_pool(first).len() ==> {
                let e = #[trigger] f.draw_pool(first)[i];
                &&& f.visible_random().contains(e)
                &&& f.has_image(e.image_id)
                &&& !f.hidden_random.contains(e.image_id)
                &&& !f.lap_for_draw(first).contains(e.image_id)
            },
{
    crate::items::lemma_visible_lists_show_images(f);
    lemma_visible_members(crate::folder::ranked(f.images), f.hidden_random);
    lemma_visible_members(f.visible_random(), f.lap);
    if f.lap_complete() {
        lemma_complete_is_full(f);
    }
    assert forall|i: int| 0 <= i < f.draw_pool(first).len() implies {
        let e = #[trigger] f.draw_pool(first)[i];
        &&& f.visible_random().contains(e)
        &&& f.has_image(e.image_id)
        &&& !f.hidden_random.contains(e.image_id)
        &&& !f.lap_for_draw(first).contains(e.image_id)
    } by {
        let e = f.draw_pool(first)[i];
        if f.lap_spent(first) {
            assert(f.visible_random()[i] == e);
        } else {
            assert(f.undrawn()[i] == e);
            let k = choose|k: int| 0 <= k < f.visible_random().len() && f.visible_random()[k] == e;
            assert(f.has_image(f.visible_random()[k].image_id));
            assert(!f.hidden_random.contains(f.visible_random()[k].image_id));
        }
    }
}

/// Emptying a spent lap leaves the folder well formed.
pub proof fn lemma_ready_for_draw(f: FolderView, first: bool)
    requires
        f.wf(),
    ensures
        f.ready_for_draw(first).wf(),
{
    let g = f.ready_for_draw(first);
    assert(g.images == f.images);
    assert(g.visible_normal() == f.visible_normal());
    assert(g.visible_history() == f.visible_history());
}

/// The highest order index of a well-formed log is its last.
pub proof fn lemma_log_bounds(f: FolderView)
    requires
        f.wf(),
    ensures
        0 <= f.next_order_index() <= INDEX_LIMIT,
        forall|k: int|
            0 <= k < f.history.len() ==> (#[trigger] f.history[k]).order_index
                < f.next_order_index(),
{
    if f.history.len() > 0 {
        let n = f.history.len() - 1;
        assert(f.history[n].order_index < INDEX_LIMIT);
        assert forall|k: int| 0 <= k < f.history.len() implies (#[trigger] f.history[k]).order_index
            < f.next_order_index() by {
            if k < n {
                assert(f.history[k].order_index < f.history[n].order_index);
            }
        }
    }
}

/// Recording a draw of a drawable image in a log with room leaves the folder
/// well formed.
pub proof fn lemma_drawn(f: FolderView, id: i64, last: bool)
    requires
        f.wf(),
        f.drawable(id),
        f.has_room(),
    ensures
        f.drawn(id, last).wf(),
{
    let g = f.drawn(id, last);
    lemma_log_bounds(f);
    assert(g.images == f.images);
    assert(g.visible_normal() == f.visible_normal());
    let e = if last {
        Entry { order_index: f.next_order_index() as i64, image_id: id }
    } else {
        Entry { order_index: 0, image_id: id }
    };
    if last {
        assert(g.history[g.history.len() - 1] == e);
        assert forall|i: int, j: int| 0 <= i < j < g.history.len() implies g.history[i].order_index
            < g.history[j].order_index by {
            if j < f.history.len() {
                assert(g.history[i] == f.history[i] && g.history[j] == f.history[j]);
            } else {
                assert(g.history[i] == f.history[i]);
            }
        }
        assert forall|k: int| 0 <= k < g.history.len() implies 0 <= (#[trigger] g.history[k]).order_index
            < INDEX_LIMIT && g.has_image(g.history[k].image_id) by {
            if k < f.history.len() {
                assert(g.history[k] == f.history[k]);
            }
        }
    } else {
        assert(g.history[0] == e);
        assert forall|k: int| 1 <= k < g.history.len() implies (#[trigger] g.history[k]).order_index
            == f.history[k - 1].order_index + 1 && g.history[k].image_id == f.history[k
            - 1].image_id by {
            assert(g.history[k] == shifted(f.history)[k - 1]);
        }
        assert forall|i: int, j: int| 0 <= i < j < g.history.len() implies g.history[i].order_index
            < g.history[j].order_index by {
            if i >= 1 {
                assert(f.history[i - 1].order_index < f.history[j - 1].order_index);
            }
        }
        assert forall|k: int| 0 <= k < g.history.len() implies 0 <= (#[trigger] g.history[k]).order_index
            < INDEX_LIMIT && g.has_image(g.history[k].image_id) by {
            if k >= 1 {
                assert(f.history[k - 1].order_index < f.next_order_index());
            }
        }
    }
    assert(g.history.contains(e)) by {
        if last {
            assert(g.history[g.history.len() - 1] == e);
        } else {
            assert(g.history[0] == e);
        }
    }
    lemma_visible_members(g.history, g.hidden_random);
    let i = choose|i: int| 0 <= i < g.history.len() && g.history[i] == e;
    assert(!g.hidden_random.contains(g.history[i].image_id));
    assert(g.visible_history().contains(g.history[i]));
    lemma_cursor_at_member(g.visible_history(), e);
}

/// Emptying the replay log and the lap leaves the folder well formed.
pub proof fn lemma_with_random_reset(f: FolderView)
    requires
        f.wf(),
    ensures
        f.with_random_reset().wf(),
{
    let g = f.with_random_reset();
    assert(g.images == f.images);
    assert(g.visible_normal() == f.visible_normal());
}

impl Folder {
    /// Puts the random cursor on entry `p` of the visible log `v`.
    fn settle_random(&mut self, v: &Vec<Entry>, p: usize) -> (e: Entry)
        requires
            old(self).wf(),
            v@ == old(self)@.visible_history(),
            p < v.len(),
        ensures
            final(self).wf(),
            e == v@[p as int],
            final(self)@ == old(self)@.with_random_index(e.order_index),
    {
        let e = v[p];
        proof {
            lemma_cursor_at_entry(v@, p as int);
            lemma_visible_members(self@.history, self@.hidden_random);
            let i = choose|i: int| 0 <= i < self@.history.len() && self@.history[i] == e;
            assert(self@.history[i].order_index >= 0);
            lemma_with_random_index(self@, e.order_index);
        }
        self.current_random_index = e.order_index;
        e
    }

    /// Steps the random cursor forward through the replay log, if a visible
    /// entry lies above it.
    pub fn step_forward(&mut self) -> (shown: Option<Entry>)
        requires
            old(self).wf(),
        ensures
            final(self).wf(),
            shown == old(self)@.replay_forward(),
            final(self)@ == old(self)@.moved_random(shown),
    {
        let v = self.visible_history_entries();
        match find_first_above(&v, self.current_random_index) {
            Some(p) => {
                proof {
                    lemma_above_from(v@, self.current_random_index, 0);
                }
                Some(self.settle_random(&v, p))
            },
            None => None,
        }
    }

    /// Steps the random cursor backward through the replay log, if a visible
    /// entry lies below it.
    pub fn step_backward(&mut self) -> (shown: Option<Entry>)
        requires
            old(self).wf(),
        ensures
            final(self).wf(),
            shown == old(self)@.replay_backward(),
            final(self)@ == old(self)@.moved_random(shown),
    {
        let v = self.visible_history_entries();
        match find_last_below(&v, self.current_random_index) {
            Some(p) => {
                proof {
                    lemma_below_upto(v@, self.current_random_index, v@.len() as int);
                }
                Some(self.settle_random(&v, p))
            },
            None => None,
        }
    }

    /// Puts the random cursor on the visible log entry at list position
    /// `index`, brought into range.
    pub fn jump_to_random(&mut self, index: i64) -> (shown: Option<Entry>)
        requires
            old(self).wf(),
        ensures
            final(self).wf(),
            shown == old(self)@.nth_random(index),
            final(self)@ == old(self)@.moved_random(shown),
    {
        let v = self.visible_history_entries();
        if v.len() == 0 {
            return None;
        }
        let p = clamp_position(index, v.len());
        Some(self.settle_random(&v, p))
    }

    /// Makes the folder ready for a draw to propose an image: empties the lap
    /// if it is spent, and gives the entries to choose from. On the first
    /// attempt of a draw the lap is spent when its size has reached the
    /// number of images that random mode shows; on a later attempt, when it
    /// covers them all.
    pub fn prepare_draw(&mut self, first: bool) -> (pool: Vec<Entry>)
        requires
            old(self).wf(),
        ensures
            final(self).wf(),
            final(self)@ == old(self)@.ready_for_draw(first),
            pool@ == old(self)@.draw_pool(first),
    {
        let seen = self.visible_random_entries();
        proof {
            lemma_ready_for_draw(self@, first);
        }
        if first {
            if self.lap.len() >= seen.len() {
                self.lap.clear();
                return seen;
            }
            return visible_entries(&seen, &self.lap);
        }
        let open = visible_entries(&seen, &self.lap);
        if open.len() == 0 {
            self.lap.clear();
            seen
        } else {
            open
        }
    }

    /// Whether a draw may take the image `id`.
    pub fn is_drawable(&self, id: i64) -> (yes: bool)
        requires
            self.wf(),
        ensures
            yes == self@.drawable(id),
    {
        self.find_image(id).is_some() && !self.hidden_random.contains(&id)
    }

    /// Whether the replay log can take one more entry.
    pub fn log_has_room(&self) -> (yes: bool)
        requires
            self.wf(),
        ensures
            yes == self@.has_room(),
    {
        let n = self.history.len();
        if n == 0 {
            true
        } else {
            proof {
                assert(self@.history[n - 1].order_index < INDEX_LIMIT);
            }
            self.history[n - 1].order_index + 1 < INDEX_LIMIT
        }
    }

    /// Records a draw of the image `id`: into the lap, into the replay log at
    /// its end (`last`) or its front, and under the random cursor.
    pub(crate) fn record_draw(&mut self, id: i64, last: bool) -> (e: Entry)
        requires
            old(self).wf(),
            old(self)@.drawable(id),
            old(self)@.has_room(),
        ensures
            final(self).wf(),
            final(self)@ == old(self)@.drawn(id, last),
            e.image_id == id,
            e.order_index == final(self)@.current_random_index,
    {
        proof {
            lemma_drawn(self@, id, last);
            lemma_log_bounds(self@);
        }
        self.lap.insert(id);
        let n = self.history.len();
        if last {
            let at: i64 = if n == 0 {
                0
            } else {
                self.history[n - 1].order_index + 1
            };
            let e = Entry { order_index: at, image_id: id };
            self.history.push(e);
            self.current_random_index = at;
            e
        } else {
            let e = Entry { order_index: 0, image_id: id };
            let mut log: Vec<Entry> = Vec::new();
            log.push(e);
            let mut k: usize = 0;
            while k < n
                invariant
                    k <= n,
                    n == self.history.len(),
                    self.history@ == old(self).history@,
                    forall|j: int|
                        0 <= j < n ==> (#[trigger] self.history@[j]).order_index < INDEX_LIMIT,
                    log@ == seq![e] + shifted(self.history@).take(k as int),
                decreases n - k,
            {
                let h = self.history[k];
                log.push(Entry { order_index: h.order_index + 1, image_id: h.image_id });
                proof {
                    assert(shifted(self.history@).take(k + 1) =~= shifted(self.history@).take(
                        k as int,
                    ).push(shifted(self.history@)[k as int]));
                    assert(log@ =~= seq![e] + shifted(self.history@).take(k + 1));
                }
                k += 1;
            }
            proof {
                assert(shifted(self.history@).take(n as int) =~= shifted(self.history@));
            }
            self.history = log;
            self.current_random_index = 0;
            e
        }
    }

    /// Empties the replay log and the lap and unsets the random cursor.
    pub fn reset_random(&mut self)
        requires
            old(self).wf(),
        ensures
            final(self).wf(),
            final(self)@ == old(self)@.with_random_reset(),
    {
        proof {
            lemma_with_random_reset(self@);
        }
        self.history = Vec::new();
        self.lap.clear();
        self.current_random_index = UNSET;
    }
}

} // verus!
