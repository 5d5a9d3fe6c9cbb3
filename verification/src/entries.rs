//! Ordered lists of presented images and the cursor arithmetic on them.
//!
//! Both traversal modes walk a list of entries, each an image under an order
//! index: the image's rank in the folder for sequential mode, its position in
//! the replay log for random mode. A cursor holds an order index, or -1 when
//! it is unset.

use std::collections::HashSet;
use vstd::prelude::*;

verus! {

/// One image as a traversal mode presents it.
#[derive(Clone, Copy, Debug, PartialEq, Eq, Structural)]
pub struct Entry {
    pub order_index: i64,
    pub image_id: i64,
}

/// The cursor value that points at nothing.
pub const UNSET: i64 = -1;

/// The entries of `s` whose image is not in `hidden`, in the order of `s`.
pub open spec fn visible(s: Seq<Entry>, hidden: Set<i64>) -> Seq<Entry>
    decreases s.len(),
{
    if s.len() == 0 {
        Seq::empty()
    } else {
        let rest = visible(s.drop_last(), hidden);
        if hidden.contains(s.last().image_id) {
            rest
        } else {
            rest.push(s.last())
        }
    }
}

/// The order indices of `s` grow strictly from each entry to the next.
pub open spec fn ascending(s: Seq<Entry>) -> bool {
    forall|i: int, j: int| 0 <= i < j < s.len() ==> s[i].order_index < s[j].order_index
}

/// Whether some entry of `s` shows the image `id`.
pub open spec fn shows(s: Seq<Entry>, id: i64) -> bool {
    exists|i: int| 0 <= i < s.len() && (#[trigger] s[i]).image_id == id
}

/// The first position at or after `from` whose order index is `c`.
pub open spec fn position_from(s: Seq<Entry>, c: i64, from: int) -> Option<int>
    decreases s.len() - from,
{
    if from < 0 || from >= s.len() {
        None
    } else if s[from].order_index == c {
        Some(from)
    } else {
        position_from(s, c, from + 1)
    }
}

/// The first position of `s` whose order index is `c`.
pub open spec fn position_of(s: Seq<Entry>, c: i64) -> Option<int> {
    position_from(s, c, 0)
}

/// The first position at or after `from` whose order index exceeds `c`.
pub open spec fn above_from(s: Seq<Entry>, c: i64, from: int) -> Option<int>
    decreases s.len() - from,
{
    if from < 0 || from >= s.len() {
        None
    } else if s[from].order_index > c {
        Some(from)
    } else {
        above_from(s, c, from + 1)
    }
}

/// The first position of `s` whose order index exceeds `c`.
pub open spec fn first_above(s: Seq<Entry>, c: i64) -> Option<int> {
    above_from(s, c, 0)
}

/// The last position before `upto` whose order index is less than `c`.
pub open spec fn below_upto(s: Seq<Entry>, c: i64, upto: int) -> Option<int>
    decreases upto,
{
    if upto <= 0 || upto > s.len() {
        None
    } else if s[upto - 1].order_index < c {
        Some(upto - 1)
    } else {
        below_upto(s, c, upto - 1)
    }
}

/// The last position of `s` whose order index is less than `c`.
pub open spec fn last_below(s: Seq<Entry>, c: i64) -> Option<int> {
    below_upto(s, c, s.len() as int)
}

/// Where a step forward lands: one past the cursor's position, wrapping to the
/// front; the front also when the cursor is at no entry.
pub open spec fn next_position(s: Seq<Entry>, c: i64) -> int {
    match position_of(s, c) {
        Some(p) => if p + 1 < s.len() { p + 1 } else { 0 },
        None => 0,
    }
}

/// Where a step backward lands: one before the cursor's position, wrapping to
/// the back; the back also when the cursor is at no entry.
pub open spec fn prev_position(s: Seq<Entry>, c: i64) -> int {
    match position_of(s, c) {
        Some(p) => if p == 0 { s.len() - 1 } else { p - 1 },
        None => s.len() - 1,
    }
}

/// Where resuming lands: the cursor's position, or the front when the cursor
/// is at no entry.
pub open spec fn resume_position(s: Seq<Entry>, c: i64) -> int {
    match position_of(s, c) {
        Some(p) => p,
        None => 0,
    }
}

/// A requested list position brought into `0 .. len`.
pub open spec fn clamped_position(index: i64, len: int) -> int {
    if index < 0 {
        0
    } else if index >= len {
        len - 1
    } else {
        index as int
    }
}

/// The list position that a history listing reports for cursor `c`: its
/// position in `s`, or -1.
pub open spec fn pointer_of(s: Seq<Entry>, c: i64) -> int {
    match position_of(s, c) {
        Some(p) => p,
        None => -1,
    }
}

/// The cursor after the entry it pointed at may have left `s`: unchanged while
/// it is unset or still at an entry; else the nearest entry below it, else the
/// last entry, else unset.
pub open spec fn repaired_cursor(s: Seq<Entry>, c: i64) -> i64 {
    if c < 0 || position_of(s, c) is Some {
        c
    } else if s.len() == 0 {
        UNSET
    } else {
        match last_below(s, c) {
            Some(i) => s[i].order_index,
            None => s[s.len() - 1].order_index,
        }
    }
}

/// What `position_from` finds is the first match at or after `from`.
pub proof fn lemma_position_from(s: Seq<Entry>, c: i64, from: int)
    requires
        0 <= from,
    ensures
        match position_from(s, c, from) {
            Some(p) => from <= p < s.len() && s[p].order_index == c && forall|j: int|
                from <= j < p ==> s[j].order_index != c,
            None => forall|j: int| from <= j < s.len() ==> s[j].order_index != c,
        },
    decreases s.len() - from,
{
    if from < s.len() && s[from].order_index != c {
        lemma_position_from(s, c, from + 1);
    }
}

/// What `above_from` finds is the first entry above `c` at or after `from`.
pub proof fn lemma_above_from(s: Seq<Entry>, c: i64, from: int)
    requires
        0 <= from,
    ensures
        match above_from(s, c, from) {
            Some(p) => from <= p < s.len() && s[p].order_index > c && forall|j: int|
                from <= j < p ==> s[j].order_index <= c,
            None => forall|j: int| from <= j < s.len() ==> s[j].order_index <= c,
        },
    decreases s.len() - from,
{
    if from < s.len() && s[from].order_index <= c {
        lemma_above_from(s, c, from + 1);
    }
}

/// What `below_upto` finds is the last entry below `c` before `upto`.
pub proof fn lemma_below_upto(s: Seq<Entry>, c: i64, upto: int)
    requires
        upto <= s.len(),
    ensures
        match below_upto(s, c, upto) {
            Some(p) => 0 <= p < upto && s[p].order_index < c && forall|j: int|
                p < j < upto ==> s[j].order_index >= c,
            None => forall|j: int| 0 <= j < upto ==> s[j].order_index >= c,
        },
    decreases upto,
{
    if upto > 0 && s[upto - 1].order_index >= c {
        lemma_below_upto(s, c, upto - 1);
    }
}

/// In an ascending list the entry at position `p` is the one that
/// `position_of` finds for its order index.
pub proof fn lemma_position_of_ascending(s: Seq<Entry>, p: int)
    requires
        ascending(s),
        0 <= p < s.len(),
    ensures
        position_of(s, s[p].order_index) == Some(p),
{
    lemma_position_from(s, s[p].order_index, 0);
}

/// Filtering keeps no more entries than there were, each of them unhidden and
/// taken from `s`, and keeps every unhidden entry of `s`.
pub proof fn lemma_visible_members(s: Seq<Entry>, hidden: Set<i64>)
    ensures
        visible(s, hidden).len() <= s.len(),
        forall|k: int|
            0 <= k < visible(s, hidden).len() ==> !hidden.contains(
                (#[trigger] visible(s, hidden)[k]).image_id,
            ) && s.contains(visible(s, hidden)[k]),
        forall|i: int|
            0 <= i < s.len() && !hidden.contains((#[trigger] s[i]).image_id) ==> visible(
                s,
                hidden,
            ).contains(s[i]),
    decreases s.len(),
{
    if s.len() > 0 {
        let front = s.drop_last();
        lemma_visible_members(front, hidden);
        let v = visible(s, hidden);
        let rest = visible(front, hidden);
        assert forall|k: int| 0 <= k < v.len() implies !hidden.contains((#[trigger] v[k]).image_id)
            && s.contains(v[k]) by {
            if k < rest.len() {
                assert(v[k] == rest[k]);
                let i = choose|i: int| 0 <= i < front.len() && front[i] == rest[k];
                assert(s[i] == v[k]);
            } else {
                assert(v[k] == s.last());
                assert(s[s.len() - 1] == v[k]);
            }
        }
        assert forall|i: int| 0 <= i < s.len() && !hidden.contains(
            (#[trigger] s[i]).image_id,
        ) implies v.contains(s[i]) by {
            if i < front.len() {
                assert(front[i] == s[i]);
                let k = choose|k: int| 0 <= k < rest.len() && rest[k] == front[i];
                assert(v[k] == s[i]);
            } else {
                assert(v[v.len() - 1] == s[i]);
            }
        }
    }
}

/// Filtering an ascending list leaves an ascending list whose order indices
/// stay below every bound that held of the whole list.
pub proof fn lemma_visible_ascending(s: Seq<Entry>, hidden: Set<i64>)
    requires
        ascending(s),
    ensures
        ascending(visible(s, hidden)),
    decreases s.len(),
{
    if s.len() > 0 {
        let front = s.drop_last();
        lemma_visible_ascending(front, hidden);
        lemma_visible_members(front, hidden);
        let v = visible(s, hidden);
        let rest = visible(front, hidden);
        assert forall|i: int, j: int| 0 <= i < j < v.len() implies v[i].order_index
            < v[j].order_index by {
            if j < rest.len() {
                assert(v[i] == rest[i] && v[j] == rest[j]);
            } else {
                assert(v[j] == s.last());
                assert(v[i] == rest[i]);
                let k = choose|k: int| 0 <= k < front.len() && front[k] == rest[i];
                assert(s[k] == v[i]);
            }
        }
    }
}

/// Whether the filtered list shows an image: exactly when `s` shows it and it
/// is not hidden.
pub proof fn lemma_visible_shows(s: Seq<Entry>, hidden: Set<i64>, id: i64)
    ensures
        shows(visible(s, hidden), id) <==> shows(s, id) && !hidden.contains(id),
{
    lemma_visible_members(s, hidden);
    let v = visible(s, hidden);
    if shows(v, id) {
        let k = choose|k: int| 0 <= k < v.len() && (#[trigger] v[k]).image_id == id;
        assert(s.contains(v[k]));
        let i = choose|i: int| 0 <= i < s.len() && s[i] == v[k];
        assert(s[i].image_id == id);
    }
    if shows(s, id) && !hidden.contains(id) {
        let i = choose|i: int| 0 <= i < s.len() && (#[trigger] s[i]).image_id == id;
        assert(v.contains(s[i]));
        let k = choose|k: int| 0 <= k < v.len() && v[k] == s[i];
        assert(v[k].image_id == id);
    }
}

/// No order index of `s` is negative.
pub open spec fn from_zero(s: Seq<Entry>) -> bool {
    forall|k: int| 0 <= k < s.len() ==> (#[trigger] s[k]).order_index >= 0
}

/// A cursor is unset or points at an entry of the list it walks.
pub open spec fn cursor_ok(s: Seq<Entry>, c: i64) -> bool {
    c == UNSET || position_of(s, c) is Some
}

/// Filtering keeps order indices at or above zero.
pub proof fn lemma_visible_from_zero(s: Seq<Entry>, hidden: Set<i64>)
    requires
        from_zero(s),
    ensures
        from_zero(visible(s, hidden)),
{
    lemma_visible_members(s, hidden);
    let v = visible(s, hidden);
    assert forall|k: int| 0 <= k < v.len() implies (#[trigger] v[k]).order_index >= 0 by {
        let i = choose|i: int| 0 <= i < s.len() && s[i] == v[k];
        assert(s[i].order_index >= 0);
    }
}

/// In an ascending list from zero on, no position exceeds the order index of
/// its entry.
pub proof fn lemma_position_below_index(s: Seq<Entry>, p: int)
    requires
        ascending(s),
        from_zero(s),
        0 <= p < s.len(),
    ensures
        p <= s[p].order_index,
    decreases p,
{
    if p > 0 {
        lemma_position_below_index(s, p - 1);
        assert(s[p - 1].order_index < s[p].order_index);
    }
}

/// A cursor set to the order index of an entry of `s` points at an entry.
pub proof fn lemma_cursor_at_entry(s: Seq<Entry>, p: int)
    requires
        0 <= p < s.len(),
    ensures
        cursor_ok(s, s[p].order_index),
{
    lemma_position_from(s, s[p].order_index, 0);
}

/// A repaired cursor is unset or points at an entry, and is no less than -1.
pub proof fn lemma_repaired_cursor(s: Seq<Entry>, c: i64)
    requires
        from_zero(s),
        c >= UNSET,
    ensures
        cursor_ok(s, repaired_cursor(s, c)),
        repaired_cursor(s, c) >= UNSET,
{
    lemma_position_from(s, c, 0);
    if c >= 0 && position_of(s, c) is None && s.len() > 0 {
        lemma_below_upto(s, c, s.len() as int);
        match last_below(s, c) {
            Some(i) => {
                lemma_cursor_at_entry(s, i);
            },
            None => {
                lemma_cursor_at_entry(s, s.len() - 1);
            },
        }
    }
}

/// The entries of `entries` whose image is not in `hidden`.
pub fn visible_entries(entries: &Vec<Entry>, hidden: &HashSet<i64>) -> (out: Vec<Entry>)
    ensures
        out@ == visible(entries@, hidden@),
{
    let mut out: Vec<Entry> = Vec::new();
    let mut i: usize = 0;
    while i < entries.len()
        invariant
            i <= entries.len(),
            out@ == visible(entries@.take(i as int), hidden@),
        decreases entries.len() - i,
    {
        let e = entries[i];
        proof {
            assert(entries@.take(i + 1).drop_last() =~= entries@.take(i as int));
            assert(entries@.take(i + 1).last() == e);
        }
        if !hidden.contains(&e.image_id) {
            out.push(e);
        }
        i += 1;
    }
    proof {
        assert(entries@.take(i as int) =~= entries@);
    }
    out
}

/// The first position of `s` whose order index is `c`.
pub fn find_position(s: &Vec<Entry>, c: i64) -> (found: Option<usize>)
    ensures
        match found {
            Some(p) => position_of(s@, c) == Some(p as int),
            None => position_of(s@, c) is None,
        },
{
    let mut i: usize = 0;
    while i < s.len()
        invariant
            i <= s.len(),
            position_of(s@, c) == position_from(s@, c, i as int),
        decreases s.len() - i,
    {
        if s[i].order_index == c {
            return Some(i);
        }
        i += 1;
    }
    None
}

/// The first position of `s` whose order index exceeds `c`.
pub fn find_first_above(s: &Vec<Entry>, c: i64) -> (found: Option<usize>)
    ensures
        match found {
            Some(p) => first_above(s@, c) == Some(p as int),
            None => first_above(s@, c) is None,
        },
{
    let mut i: usize = 0;
    while i < s.len()
        invariant
            i <= s.len(),
            first_above(s@, c) == above_from(s@, c, i as int),
        decreases s.len() - i,
    {
        if s[i].order_index > c {
            return Some(i);
        }
        i += 1;
    }
    None
}

/// The last position of `s` whose order index is less than `c`.
pub fn find_last_below(s: &Vec<Entry>, c: i64) -> (found: Option<usize>)
    ensures
        match found {
            Some(p) => last_below(s@, c) == Some(p as int),
            None => last_below(s@, c) is None,
        },
{
    let mut n: usize = s.len();
    while n > 0
        invariant
            n <= s.len(),
            last_below(s@, c) == below_upto(s@, c, n as int),
        decreases n,
    {
        if s[n - 1].order_index < c {
            return Some(n - 1);
        }
        n -= 1;
    }
    None
}

/// Brings a requested list position into `0 .. len`; in an empty list every
/// request gives zero.
pub fn clamp_position(index: i64, len: usize) -> (p: usize)
    ensures
        len > 0 ==> p as int == clamped_position(index, len as int) && p < len,
        len == 0 ==> p == 0,
{
    if index < 0 || len == 0 {
        0
    } else if (index as u64) >= (len as u64) {
        len - 1
    } else {
        index as usize
    }
}

/// Repairs a cursor against the list `s` that is left to it.
pub fn repair_cursor(s: &Vec<Entry>, c: i64) -> (fixed: i64)
    ensures
        fixed == repaired_cursor(s@, c),
{
    if c < 0 {
        return c;
    }
    if find_position(s, c).is_some() {
        return c;
    }
    if s.len() == 0 {
        return UNSET;
    }
    match find_last_below(s, c) {
        Some(i) => {
            proof {
                lemma_below_upto(s@, c, s@.len() as int);
            }
            s[i].order_index
        },
        None => s[s.len() - 1].order_index,
    }
}

/// Whether `id` is a member of the list `ids`.
pub fn list_has(ids: &Vec<i64>, id: i64) -> (found: bool)
    ensures
        found == ids@.contains(id),
{
    let mut i: usize = 0;
    while i < ids.len()
        invariant
            i <= ids.len(),
            forall|j: int| 0 <= j < i ==> ids@[j] != id,
        decreases ids.len() - i,
    {
        if ids[i] == id {
            return true;
        }
        i += 1;
    }
    false
}

} // verus!
