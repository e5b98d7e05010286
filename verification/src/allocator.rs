//! Per-workspace tab colour state: which bank candidate each tab shows, the
//! short memory of recent picks, and the identity bookkeeping that keeps a
//! tab's colour attached to its ID across snapshot reconciliation.
//!
//! The candidate bank itself (rendered colours and their perceptual
//! coordinates) is derived data held by the caller; this module only sees
//! candidate indices and the bank's length.
use vstd::prelude::*;
use std::collections::VecDeque;
use crate::rng::{Rng, advance, draw, scale};

verus! {

/// How many recent picks a workspace remembers.
pub const HISTORY_LIMIT: usize = 16;
/// The bank size a new workspace starts with.
pub const SMALL_BANK: usize = 1024;
/// The bank size a workspace grows to when the small bank cannot avoid a clash.
pub const LARGE_BANK: usize = 4096;
/// The colour a tab carries before it has been given one.
pub const UNASSIGNED: usize = usize::MAX;

/// The bank size assumed for a checkpoint written before bank sizes were recorded.
pub fn legacy_raw() -> (raw: usize)
    ensures
        raw == LARGE_BANK,
{
    LARGE_BANK
}

/// A tab and the index of its colour in the workspace's candidate bank.
#[derive(Clone, Debug)]
pub struct Tab {
    pub id: String,
    pub colour: usize,
}

/// The persistent colour state of one workspace.
#[derive(Clone, Debug)]
pub struct Workspace {
    pub theme: usize,
    pub seed: u64,
    /// The number of raw draws the candidate bank is generated from.
    pub raw: usize,
    /// The bank index of the workspace's own (header) colour.
    pub parent: usize,
    /// The stream used to colour newly opened tabs.
    pub allocation: Rng,
    /// The stream used to recolour a tab that was moved.
    pub movement: Rng,
    /// Recent picks, oldest first.
    pub history: VecDeque<usize>,
    pub tabs: Vec<Tab>,
    pub remaining_conflicts: usize,
}

/// The IDs of a tab list, as character sequences.
pub open spec fn tab_names(tabs: Seq<Tab>) -> Seq<Seq<char>> {
    Seq::new(tabs.len(), |i: int| tabs[i].id@)
}

/// A list of IDs, as character sequences.
pub open spec fn names(ids: Seq<String>) -> Seq<Seq<char>> {
    Seq::new(ids.len(), |i: int| ids[i]@)
}

/// The colour the last tab with ID `id` carries, or `UNASSIGNED` when no tab has it.
pub open spec fn prior_colour(tabs: Seq<Tab>, id: Seq<char>) -> usize
    decreases tabs.len(),
{
    if tabs.len() == 0 {
        UNASSIGNED
    } else if tabs.last().id@ == id {
        tabs.last().colour
    } else {
        prior_colour(tabs.drop_last(), id)
    }
}

/// `s` with every occurrence of `x` left out.
pub open spec fn without(s: Seq<Seq<char>>, x: Seq<char>) -> Seq<Seq<char>> {
    s.filter(|y: Seq<char>| y != x)
}

/// `new` has the same length as `old` and holds only IDs that `old` holds.
pub open spec fn is_rearrangement(old: Seq<Seq<char>>, new: Seq<Seq<char>>) -> bool {
    &&& new.len() == old.len()
    &&& forall|i: int| 0 <= i < new.len() ==> old.contains(#[trigger] new[i])
}

/// Leaving out the ID at `new[k]` from both lists makes them equal: that one ID moved.
pub open spec fn single_move(old: Seq<Seq<char>>, new: Seq<Seq<char>>, k: int) -> bool {
    without(old, new[k]) == without(new, new[k])
}

/// The positions left and right of `pos` in a list of `len` tabs, left first.
pub open spec fn neighbour_positions(pos: int, len: int) -> Seq<usize> {
    if pos > 0 && pos + 1 < len {
        seq![(pos - 1) as usize, (pos + 1) as usize]
    } else if pos > 0 {
        seq![(pos - 1) as usize]
    } else if pos + 1 < len {
        seq![(pos + 1) as usize]
    } else {
        Seq::<usize>::empty()
    }
}

/// The history after remembering `c`: appended, and the oldest entry dropped past the limit.
pub open spec fn remembered_history(history: Seq<usize>, c: usize) -> Seq<usize> {
    if history.len() + 1 > HISTORY_LIMIT {
        history.push(c).drop_first()
    } else {
        history.push(c)
    }
}

/// What reconciliation hands back when the tab list changed.
pub struct ReconcilePlan {
    /// The tab list before reconciliation.
    pub before: Vec<Tab>,
    /// The index in the new ID list of the one tab that moved, when the change is a single move.
    pub moved: Option<usize>,
    /// The first position of the moved tab's ID in the new tab list.
    pub moved_pos: Option<usize>,
}

/// Everything but the tab list and the history is the same in `a` and `b`.
pub open spec fn same_settings(a: Workspace, b: Workspace) -> bool {
    &&& a.theme == b.theme
    &&& a.seed == b.seed
    &&& a.raw == b.raw
    &&& a.parent == b.parent
    &&& a.allocation == b.allocation
    &&& a.movement == b.movement
    &&& a.remaining_conflicts == b.remaining_conflicts
}

/// The relation between a workspace before and after the identity step of reconciling it with `ids`.
pub open spec fn reconciled(old: Workspace, ids: Seq<String>, new: Workspace, plan: Option<ReconcilePlan>) -> bool {
    if tab_names(old.tabs@) == names(ids) {
        plan is None && new == old
    } else {
        &&& plan matches Some(p)
        &&& p.before@ == old.tabs@
        &&& same_settings(old, new)
        &&& new.history@ == old.history@
        &&& new.tabs@.len() == ids.len()
        &&& forall|i: int| 0 <= i < ids.len() ==> {
            &&& (#[trigger] new.tabs@[i]).id == ids[i]
            &&& new.tabs@[i].colour == prior_colour(old.tabs@, ids[i]@)
        }
        &&& match p.moved {
            Some(k) => {
                &&& is_rearrangement(tab_names(old.tabs@), names(ids))
                &&& 0 <= k < ids.len()
                &&& single_move(tab_names(old.tabs@), names(ids), k as int)
                &&& forall|j: int| 0 <= j < k ==> !single_move(tab_names(old.tabs@), names(ids), j)
                &&& p.moved_pos matches Some(pos)
                &&& pos <= k
                &&& ids[pos as int]@ == ids[k as int]@
                &&& forall|j: int| 0 <= j < pos ==> ids[j]@ != ids[k as int]@
            },
            None => {
                &&& p.moved_pos is None
                &&& (is_rearrangement(tab_names(old.tabs@), names(ids)) ==> forall|k: int|
                    0 <= k < ids.len() ==> !single_move(tab_names(old.tabs@), names(ids), k))
            },
        }
    }
}

/// The IDs of `tabs`, copied.
fn ids_of_tabs(tabs: &Vec<Tab>) -> (out: Vec<String>)
    ensures
        names(out@) == tab_names(tabs@),
{
    let mut out: Vec<String> = Vec::new();
    let mut i: usize = 0;
    while i < tabs.len()
        invariant
            i <= tabs.len(),
            out@.len() == i,
            forall|j: int| 0 <= j < i ==> (#[trigger] out@[j])@ == tabs@[j].id@,
        decreases tabs.len() - i,
    {
        out.push(tabs[i].id.clone());
        i += 1;
    }
    assert(names(out@) =~= tab_names(tabs@));
    out
}

/// Whether two ID lists are equal.
fn names_equal(a: &Vec<String>, b: &Vec<String>) -> (eq: bool)
    ensures
        eq == (names(a@) == names(b@)),
{
    if a.len() != b.len() {
        assert(names(a@).len() != names(b@).len());
        return false;
    }
    let mut i: usize = 0;
    while i < a.len()
        invariant
            i <= a.len(),
            a.len() == b.len(),
            forall|j: int| 0 <= j < i ==> a@[j]@ == b@[j]@,
        decreases a.len() - i,
    {
        if !(a[i] == b[i]) {
            assert(names(a@)[i as int] != names(b@)[i as int]);
            return false;
        }
        i += 1;
    }
    assert(names(a@) =~= names(b@));
    true
}

/// Whether `ids` holds `x`.
fn holds_name(ids: &Vec<String>, x: &String) -> (found: bool)
    ensures
        found == names(ids@).contains(x@),
{
    let mut i: usize = 0;
    while i < ids.len()
        invariant
            i <= ids.len(),
            forall|j: int| 0 <= j < i ==> ids@[j]@ != x@,
        decreases ids.len() - i,
    {
        if ids[i] == *x {
            assert(names(ids@)[i as int] == x@);
            return true;
        }
        i += 1;
    }
    false
}

/// The first position of `x` in `ids`.
fn position_of(ids: &Vec<String>, x: &String) -> (pos: Option<usize>)
    ensures
        match pos {
            Some(p) => p < ids.len() && ids@[p as int]@ == x@ && forall|j: int| 0 <= j < p ==> ids@[j]@ != x@,
            None => !names(ids@).contains(x@),
        },
{
    let mut i: usize = 0;
    while i < ids.len()
        invariant
            i <= ids.len(),
            forall|j: int| 0 <= j < i ==> ids@[j]@ != x@,
        decreases ids.len() - i,
    {
        if ids[i] == *x {
            return Some(i);
        }
        i += 1;
    }
    proof {
        if names(ids@).contains(x@) {
            let j = choose|j: int| 0 <= j < names(ids@).len() && names(ids@)[j] == x@;
            assert(ids@[j]@ == x@);
        }
    }
    None
}

/// `src` with every copy of `skip` left out.
fn names_without(src: &Vec<String>, skip: &String) -> (out: Vec<String>)
    ensures
        names(out@) == without(names(src@), skip@),
{
    let mut out: Vec<String> = Vec::new();
    let mut i: usize = 0;
    while i < src.len()
        invariant
            i <= src.len(),
            names(out@) == without(names(src@).take(i as int), skip@),
        decreases src.len() - i,
    {
        let ghost prefix = names(src@).take(i as int);
        let ghost next = names(src@).take(i + 1);
        proof {
            assert(next.drop_last() =~= prefix);
            assert(next.last() == src@[i as int]@);
            reveal(Seq::filter);
        }
        if !(src[i] == *skip) {
            let ghost before = out@;
            out.push(src[i].clone());
            assert(names(out@) =~= names(before).push(src@[i as int]@));
        }
        i += 1;
    }
    assert(names(src@).take(src.len() as int) =~= names(src@));
    out
}

/// Whether every ID of `ids` occurs in `known`.
fn all_known(known: &Vec<String>, ids: &Vec<String>) -> (all: bool)
    ensures
        all == forall|i: int| 0 <= i < ids.len() ==> names(known@).contains(#[trigger] names(ids@)[i]),
{
    let mut i: usize = 0;
    while i < ids.len()
        invariant
            i <= ids.len(),
            forall|j: int| 0 <= j < i ==> names(known@).contains(#[trigger] names(ids@)[j]),
        decreases ids.len() - i,
    {
        if !holds_name(known, &ids[i]) {
            assert(!names(known@).contains(names(ids@)[i as int]));
            return false;
        }
        i += 1;
    }
    true
}

/// The first index `k` at which leaving out `ids[k]` makes both lists equal.
fn find_move(old_ids: &Vec<String>, ids: &Vec<String>) -> (moved: Option<usize>)
    ensures
        match moved {
            Some(k) => k < ids.len() && single_move(names(old_ids@), names(ids@), k as int) && forall|j: int|
                0 <= j < k ==> !single_move(names(old_ids@), names(ids@), j),
            None => forall|k: int| 0 <= k < ids.len() ==> !single_move(names(old_ids@), names(ids@), k),
        },
{
    let mut k: usize = 0;
    while k < ids.len()
        invariant
            k <= ids.len(),
            forall|j: int| 0 <= j < k ==> !single_move(names(old_ids@), names(ids@), j),
        decreases ids.len() - k,
    {
        let a = names_without(old_ids, &ids[k]);
        let b = names_without(ids, &ids[k]);
        assert(names(ids@)[k as int] == ids@[k as int]@);
        if names_equal(&a, &b) {
            return Some(k);
        }
        k += 1;
    }
    None
}

/// The colour of the last tab with the ID `id`, or `UNASSIGNED`.
pub fn colour_before(tabs: &Vec<Tab>, id: &String) -> (colour: usize)
    ensures
        colour == prior_colour(tabs@, id@),
{
    let mut i: usize = tabs.len();
    assert(tabs@.take(i as int) =~= tabs@);
    while i > 0
        invariant
            i <= tabs.len(),
            prior_colour(tabs@, id@) == prior_colour(tabs@.take(i as int), id@),
        decreases i,
    {
        let ghost prefix = tabs@.take(i as int);
        assert(prefix.drop_last() =~= tabs@.take(i - 1));
        assert(prefix.last() == tabs@[i - 1]);
        if tabs[i - 1].id == *id {
            return tabs[i - 1].colour;
        }
        i -= 1;
    }
    assert(tabs@.take(0) =~= Seq::<Tab>::empty());
    UNASSIGNED
}

/// Whether some tab in `tabs` has the ID `id`.
pub fn knows_id(tabs: &Vec<Tab>, id: &String) -> (found: bool)
    ensures
        found == tab_names(tabs@).contains(id@),
{
    let mut i: usize = 0;
    while i < tabs.len()
        invariant
            i <= tabs@.len(),
            forall|j: int| 0 <= j < i ==> tabs@[j].id@ != id@,
        decreases tabs@.len() - i,
    {
        if tabs[i].id == *id {
            assert(tab_names(tabs@)[i as int] == id@);
            return true;
        }
        i += 1;
    }
    false
}

/// The colour a tab had before the action being repaired: the colour of the
/// last tab with its ID in `before`, or its present colour when it is new.
/// Repair measures how far it moves a tab's colour from this one.
pub fn starting_colour(before: &Vec<Tab>, tab: &Tab) -> (c: usize)
    ensures
        c == if tab_names(before@).contains(tab.id@) { prior_colour(before@, tab.id@) } else { tab.colour },
{
    if knows_id(before, &tab.id) {
        colour_before(before, &tab.id)
    } else {
        tab.colour
    }
}

/// Whether `a` stood directly before `b` in `tabs`.
pub fn adjacent_in(tabs: &Vec<Tab>, a: &String, b: &String) -> (found: bool)
    ensures
        found == exists|i: int| 0 <= i && i + 1 < tabs@.len() && #[trigger] tabs@[i].id@ == a@ && tabs@[i + 1].id@ == b@,
{
    let mut i: usize = 0;
    while i < tabs.len() && i + 1 < tabs.len()
        invariant
            i <= tabs@.len(),
            forall|j: int| 0 <= j < i && j + 1 < tabs@.len() ==> !(#[trigger] tabs@[j].id@ == a@ && tabs@[j + 1].id@ == b@),
        decreases tabs.len() - i,
    {
        if tabs[i].id == *a && tabs[i + 1].id == *b {
            return true;
        }
        i += 1;
    }
    false
}

impl Workspace {
    /// Whether the checkpointed theme and bank size are usable at all.
    pub fn restorable(&self, theme_count: usize) -> (ok: bool)
        ensures
            ok == (self.theme < theme_count && (self.raw == SMALL_BANK || self.raw == LARGE_BANK)),
    {
        self.theme < theme_count && (self.raw == SMALL_BANK || self.raw == LARGE_BANK)
    }

    /// Whether a restored workspace is consistent with a regenerated bank of `bank_len` candidates.
    pub fn restore(&self, theme_count: usize, bank_len: usize) -> (ok: bool)
        ensures
            ok == {
                &&& self.theme < theme_count
                &&& (self.raw == SMALL_BANK || self.raw == LARGE_BANK)
                &&& self.parent < bank_len
                &&& forall|i: int| 0 <= i < self.tabs@.len() ==> (#[trigger] self.tabs@[i]).colour < bank_len
                &&& forall|i: int| 0 <= i < self.history@.len() ==> #[trigger] self.history@[i] < bank_len
                &&& self.history@.len() <= HISTORY_LIMIT
            },
    {
        if !self.restorable(theme_count) || self.parent >= bank_len {
            return false;
        }
        let mut i: usize = 0;
        while i < self.tabs.len()
            invariant
                i <= self.tabs@.len(),
                forall|j: int| 0 <= j < i ==> (#[trigger] self.tabs@[j]).colour < bank_len,
            decreases self.tabs@.len() - i,
        {
            if self.tabs[i].colour >= bank_len {
                return false;
            }
            i += 1;
        }
        proof {
            broadcast use vstd::std_specs::vecdeque::axiom_spec_len;
        }
        let mut k: usize = 0;
        while k < self.history.len()
            invariant
                k <= self.history@.len(),
                forall|j: int| 0 <= j < k ==> #[trigger] self.history@[j] < bank_len,
            decreases self.history@.len() - k,
        {
            if self.history[k] >= bank_len {
                return false;
            }
            k += 1;
        }
        self.history.len() <= HISTORY_LIMIT
    }

    /// The positions directly left and right of `pos` that hold a tab.
    pub fn neighbours(&self, pos: usize) -> (out: Vec<usize>)
        ensures
            out@ == neighbour_positions(pos as int, self.tabs@.len() as int),
    {
        let n = self.tabs.len();
        let right = pos < n && pos + 1 < n;
        let mut out: Vec<usize> = Vec::new();
        if pos > 0 {
            out.push(pos - 1);
        }
        if right {
            out.push(pos + 1);
        }
        if pos > 0 && right {
            assert(out@ =~= seq![(pos - 1) as usize, (pos + 1) as usize]);
        } else if pos > 0 {
            assert(out@ =~= seq![(pos - 1) as usize]);
        } else if right {
            assert(out@ =~= seq![(pos + 1) as usize]);
        } else {
            assert(out@ =~= Seq::<usize>::empty());
        }
        out
    }

    /// Records a pick in the history, forgetting the oldest past the limit.
    pub fn remember(&mut self, c: usize)
        ensures
            final(self).history@ == remembered_history(old(self).history@, c),
            final(self).tabs == old(self).tabs,
            same_settings(*old(self), *final(self)),
    {
        proof {
            broadcast use vstd::std_specs::vecdeque::axiom_spec_len;
        }
        self.history.push_back(c);
        if self.history.len() > HISTORY_LIMIT {
            let _ = self.history.pop_front();
            assert(self.history@ =~= old(self).history@.push(c).drop_first());
        }
    }

    /// Gives the tab at `pos` the colour `c` and remembers the pick.
    pub fn assign(&mut self, pos: usize, c: usize)
        requires
            pos < old(self).tabs@.len(),
        ensures
            final(self).tabs@ == old(self).tabs@.update(pos as int, Tab { id: old(self).tabs@[pos as int].id, colour: c }),
            final(self).history@ == remembered_history(old(self).history@, c),
            same_settings(*old(self), *final(self)),
    {
        let id = self.tabs[pos].id.clone();
        self.tabs.set(pos, Tab { id, colour: c });
        self.remember(c);
    }

    /// The identity step of reconciliation with the snapshot's tab IDs.
    ///
    /// Returns `None`, changing nothing, when the tab IDs already are `ids`.
    /// Otherwise the tab list becomes `ids`, each tab keeping the colour that the
    /// last tab with its ID had (`UNASSIGNED` for a new ID), and the plan names
    /// the single tab that moved, if the change is one move.
    pub fn reconcile_begin(&mut self, ids: &Vec<String>) -> (plan: Option<ReconcilePlan>)
        ensures
            reconciled(*old(self), ids@, *final(self), plan),
            plan is Some ==> tab_names(final(self).tabs@) == names(ids@),
    {
        let old_ids = ids_of_tabs(&self.tabs);
        if names_equal(&old_ids, ids) {
            return None;
        }
        let ghost old_names = tab_names(self.tabs@);
        let ghost new_names = names(ids@);
        let mut moved: Option<usize> = None;
        let mut moved_pos: Option<usize> = None;
        let rearranged = ids.len() == old_ids.len() && all_known(&old_ids, ids);
        assert(rearranged == is_rearrangement(old_names, new_names));
        if rearranged {
            moved = find_move(&old_ids, ids);
            if let Some(k) = moved {
                moved_pos = position_of(ids, &ids[k]);
            }
        }
        let mut tabs: Vec<Tab> = Vec::new();
        let mut i: usize = 0;
        while i < ids.len()
            invariant
                i <= ids.len(),
                tabs@.len() == i,
                forall|j: int| 0 <= j < i ==> {
                    &&& (#[trigger] tabs@[j]).id == ids@[j]
                    &&& tabs@[j].colour == prior_colour(self.tabs@, ids@[j]@)
                },
            decreases ids.len() - i,
        {
            let colour = colour_before(&self.tabs, &ids[i]);
            tabs.push(Tab { id: ids[i].clone(), colour });
            i += 1;
        }
        let mut before = tabs;
        std::mem::swap(&mut self.tabs, &mut before);
        assert(tab_names(self.tabs@) =~= names(ids@));
        Some(ReconcilePlan { before, moved, moved_pos })
    }
}

/// How many feasible candidates are scored at most; larger pools are sampled.
pub const SAMPLE_LIMIT: usize = 256;

/// The smallest entry of `s`, or `usize::MAX` for an empty `s`.
pub open spec fn least(s: Seq<usize>) -> usize
    decreases s.len(),
{
    if s.len() == 0 {
        usize::MAX
    } else if s.last() < least(s.drop_last()) {
        s.last()
    } else {
        least(s.drop_last())
    }
}

/// The indices `0..n`.
pub open spec fn indices(n: nat) -> Seq<usize> {
    Seq::new(n, |i: int| i as usize)
}

/// Whether candidate `c` has exactly `m` clashes.
pub open spec fn clashes_exactly(bad: Seq<usize>, m: usize) -> spec_fn(usize) -> bool {
    |c: usize| bad[c as int] == m
}

/// The candidates, in bank order, whose clash count is `m`.
pub open spec fn with_clashes(bad: Seq<usize>, m: usize) -> Seq<usize> {
    indices(bad.len()).filter(clashes_exactly(bad, m))
}

/// `state` advanced `n` times.
pub open spec fn advanced(state: u64, n: nat) -> u64
    decreases n,
{
    if n == 0 {
        state
    } else {
        advanced(advance(state), (n - 1) as nat)
    }
}

/// Steps `i..k` of a Fisher-Yates shuffle of `s` drawing from `state`: step `i`
/// swaps position `i` with a position drawn from `i..s.len()`.
pub open spec fn shuffled(s: Seq<usize>, state: u64, i: nat, k: nat) -> Seq<usize>
    decreases k - i,
{
    if i >= k || i >= s.len() {
        s
    } else {
        let j: int = (i + scale(draw(state), (s.len() - i) as nat)) as int;
        shuffled(s.update(i as int, s[j]).update(j, s[i as int]), advance(state), i + 1, k)
    }
}

/// The pool that sampling leaves of `s` when the stream's state is `state`.
pub open spec fn sampled(s: Seq<usize>, state: u64) -> Seq<usize> {
    if s.len() > SAMPLE_LIMIT {
        shuffled(s, state, 0, SAMPLE_LIMIT as nat).take(SAMPLE_LIMIT as int)
    } else {
        s
    }
}

/// Whether a colour is neither shown by a tab nor picked recently.
pub open spec fn forgotten(w: Workspace) -> spec_fn(usize) -> bool {
    |c: usize| !is_remembered(w, c)
}

/// The candidates that no tab shows and that were not picked recently, or all
/// candidates when every one of them is remembered.
pub open spec fn preferred(w: Workspace, candidates: Seq<usize>) -> Seq<usize> {
    if exists|i: int| 0 <= i < candidates.len() && !is_remembered(w, #[trigger] candidates[i]) {
        candidates.filter(forgotten(w))
    } else {
        candidates
    }
}

/// Whether candidate `c` is marked in `marks`.
pub open spec fn marked(marks: Seq<bool>) -> spec_fn(usize) -> bool {
    |c: usize| marks[c as int]
}

/// The feasible candidates: those with the least clash count; when even the
/// least is a clash, only those whose distance is close to the best (`near_best`).
pub open spec fn feasible(bad: Seq<usize>, near_best: Seq<bool>) -> Seq<usize> {
    if least(bad) > 0 {
        with_clashes(bad, least(bad)).filter(marked(near_best))
    } else {
        with_clashes(bad, least(bad))
    }
}

/// Whether colour `c` is shown by a tab or was picked recently.
pub open spec fn is_remembered(w: Workspace, c: usize) -> bool {
    (exists|i: int| 0 <= i < w.tabs@.len() && (#[trigger] w.tabs@[i]).colour == c) || w.history@.contains(c)
}

/// The stream that a pick draws from: the movement stream for a moved tab.
pub open spec fn stream(w: Workspace, moved: bool) -> u64 {
    if moved {
        w.movement.0
    } else {
        w.allocation.0
    }
}

/// `b` is `a` with only the chosen stream advanced by `n` draws.
pub open spec fn drew(a: Workspace, b: Workspace, moved: bool, n: nat) -> bool {
    &&& b.tabs == a.tabs
    &&& b.history == a.history
    &&& b.theme == a.theme
    &&& b.seed == a.seed
    &&& b.raw == a.raw
    &&& b.parent == a.parent
    &&& b.remaining_conflicts == a.remaining_conflicts
    &&& if moved {
        b.movement.0 == advanced(a.movement.0, n) && b.allocation == a.allocation
    } else {
        b.allocation.0 == advanced(a.allocation.0, n) && b.movement == a.movement
    }
}

/// The least clash count over the bank and the candidates that reach it, in bank order.
pub fn fewest_clashes(bad: &Vec<usize>) -> (out: (usize, Vec<usize>))
    ensures
        out.0 == least(bad@),
        forall|c: int| 0 <= c < bad@.len() ==> out.0 <= #[trigger] bad@[c],
        bad@.len() > 0 ==> exists|c: int| 0 <= c < bad@.len() && out.0 == #[trigger] bad@[c],
        out.1@ == with_clashes(bad@, out.0),
{
    let mut m: usize = usize::MAX;
    let mut c: usize = 0;
    while c < bad.len()
        invariant
            c <= bad@.len(),
            m == least(bad@.take(c as int)),
            forall|d: int| 0 <= d < c ==> m <= #[trigger] bad@[d],
            c > 0 ==> exists|d: int| 0 <= d < c && m == #[trigger] bad@[d],
        decreases bad@.len() - c,
    {
        assert(bad@.take(c + 1).drop_last() =~= bad@.take(c as int));
        if bad[c] < m {
            m = bad[c];
        }
        c += 1;
    }
    assert(bad@.take(bad@.len() as int) =~= bad@);
    let ghost pred = clashes_exactly(bad@, m);
    let mut out: Vec<usize> = Vec::new();
    let mut k: usize = 0;
    while k < bad.len()
        invariant
            k <= bad@.len(),
            pred == clashes_exactly(bad@, m),
            out@ == indices(k as nat).filter(pred),
        decreases bad@.len() - k,
    {
        proof {
            assert(indices((k + 1) as nat).drop_last() =~= indices(k as nat));
            assert(indices((k + 1) as nat).last() == k);
            reveal(Seq::filter);
        }
        if bad[k] == m {
            out.push(k);
        }
        k += 1;
    }
    (m, out)
}

impl Workspace {
    /// Whether colour `c` is shown by a tab or was picked recently.
    pub fn remembers(&self, c: usize) -> (r: bool)
        ensures
            r == is_remembered(*self, c),
    {
        let mut i: usize = 0;
        while i < self.tabs.len()
            invariant
                i <= self.tabs@.len(),
                forall|j: int| 0 <= j < i ==> (#[trigger] self.tabs@[j]).colour != c,
            decreases self.tabs@.len() - i,
        {
            if self.tabs[i].colour == c {
                return true;
            }
            i += 1;
        }
        proof {
            broadcast use vstd::std_specs::vecdeque::axiom_spec_len;
        }
        let mut k: usize = 0;
        while k < self.history.len()
            invariant
                k <= self.history@.len(),
                forall|j: int| 0 <= j < k ==> self.history@[j] != c,
            decreases self.history@.len() - k,
        {
            if self.history[k] == c {
                return true;
            }
            k += 1;
        }
        false
    }

    /// Drops remembered colours from `candidates` unless that would leave none.
    pub fn prefer_unremembered(&self, candidates: &Vec<usize>) -> (out: Vec<usize>)
        ensures
            out@ == preferred(*self, candidates@),
    {
        let ghost pred = forgotten(*self);
        let mut out: Vec<usize> = Vec::new();
        let mut i: usize = 0;
        while i < candidates.len()
            invariant
                i <= candidates@.len(),
                pred == forgotten(*self),
                out@ == candidates@.take(i as int).filter(pred),
            decreases candidates@.len() - i,
        {
            proof {
                assert(candidates@.take(i + 1).drop_last() =~= candidates@.take(i as int));
                reveal(Seq::filter);
            }
            if !self.remembers(candidates[i]) {
                out.push(candidates[i]);
            }
            i += 1;
        }
        assert(candidates@.take(candidates@.len() as int) =~= candidates@);
        if out.len() > 0 {
            proof {
                let x = out@[0];
                candidates@.lemma_filter_pred(pred, 0);
                candidates@.lemma_filter_contains_rev(pred, x);
                let i = choose|i: int| 0 <= i < candidates@.len() && candidates@[i] == x;
                assert(!is_remembered(*self, candidates@[i]));
            }
            out
        } else {
            proof {
                assert forall|i: int| 0 <= i < candidates@.len() implies is_remembered(*self, #[trigger] candidates@[i]) by {
                    if !is_remembered(*self, candidates@[i]) {
                        candidates@.lemma_filter_contains(pred, i);
                    }
                }
            }
            candidates.clone()
        }
    }

    /// Draws an index in `0..n` from the movement stream for a moved tab, else
    /// from the allocation stream.
    pub fn draw_index(&mut self, n: usize, moved: bool) -> (out: usize)
        ensures
            drew(*old(self), *final(self), moved, 1),
            out as nat == scale(draw(stream(*old(self), moved)), n as nat),
            n > 0 ==> out < n,
    {
        proof {
            assert(advanced(advance(stream(*self, moved)), 0) == advance(stream(*self, moved)));
        }
        if moved {
            self.movement.index(n)
        } else {
            self.allocation.index(n)
        }
    }

    /// Keeps a uniform sample of at most `SAMPLE_LIMIT` candidates: a partial
    /// Fisher-Yates shuffle with the pick's stream, then truncation. Smaller pools
    /// are left alone and draw nothing.
    pub fn sample(&mut self, candidates: &mut Vec<usize>, moved: bool)
        ensures
            final(candidates)@ == sampled(old(candidates)@, stream(*old(self), moved)),
            shuffled(old(candidates)@, stream(*old(self), moved), 0, SAMPLE_LIMIT as nat).to_multiset()
                == old(candidates)@.to_multiset(),
            drew(*old(self), *final(self), moved, if old(candidates)@.len() > SAMPLE_LIMIT { SAMPLE_LIMIT as nat } else { 0 }),
    {
        proof {
            lemma_shuffle_permutes(candidates@, stream(*self, moved), 0, SAMPLE_LIMIT as nat);
        }
        let len = candidates.len();
        if len <= SAMPLE_LIMIT {
            return;
        }
        let ghost s0 = candidates@;
        let ghost st0 = stream(*self, moved);
        let ghost w0 = *self;
        let mut i: usize = 0;
        while i < SAMPLE_LIMIT
            invariant
                i <= SAMPLE_LIMIT,
                len == s0.len(),
                len > SAMPLE_LIMIT,
                candidates@.len() == len,
                shuffled(candidates@, stream(*self, moved), i as nat, SAMPLE_LIMIT as nat)
                    == shuffled(s0, st0, 0, SAMPLE_LIMIT as nat),
                drew(w0, *self, moved, i as nat),
                st0 == stream(w0, moved),
            decreases SAMPLE_LIMIT - i,
        {
            let ghost cur = candidates@;
            let ghost st = stream(*self, moved);
            proof {
                lemma_shuffle_step(cur, st, i as nat, SAMPLE_LIMIT as nat);
            }
            let r = self.draw_index(len - i, moved);
            proof {
                lemma_advanced_step(st0, i as nat);
            }
            let j = i + r;
            proof {
                assert(advanced(st, 1) == advanced(advance(st), 0));
                assert(stream(*self, moved) == advance(st));
                assert(j as int == (i + scale(draw(st), (cur.len() - i) as nat)) as int);
            }
            swap_entries(candidates, i, j);
            i += 1;
        }
        candidates.truncate(SAMPLE_LIMIT);
    }
}

/// Exchanges the entries at `i` and `j`.
fn swap_entries(v: &mut Vec<usize>, i: usize, j: usize)
    requires
        i < old(v)@.len(),
        j < old(v)@.len(),
    ensures
        final(v)@ == old(v)@.update(i as int, old(v)@[j as int]).update(j as int, old(v)@[i as int]),
{
    let a = v[i];
    let b = v[j];
    v.set(i, b);
    v.set(j, a);
}

/// One more draw after `n` draws is `n + 1` draws.
pub proof fn lemma_advanced_step(state: u64, n: nat)
    ensures
        advance(advanced(state, n)) == advanced(state, n + 1),
    decreases n,
{
    if n > 0 {
        lemma_advanced_step(advance(state), (n - 1) as nat);
        assert(advanced(state, n) == advanced(advance(state), (n - 1) as nat));
        assert(advanced(state, n + 1) == advanced(advance(state), n));
    } else {
        assert(advanced(advance(state), 0) == advance(state));
        assert(advanced(state, 1) == advanced(advance(state), 0));
    }
}

/// One step of the shuffle: swapping `i` with its drawn partner leaves the remaining steps.
pub proof fn lemma_shuffle_step(s: Seq<usize>, state: u64, i: nat, k: nat)
    requires
        i < k,
        i < s.len(),
    ensures
        ({
            let j: int = (i + scale(draw(state), (s.len() - i) as nat)) as int;
            &&& i <= j < s.len()
            &&& shuffled(s, state, i, k) == shuffled(
                s.update(i as int, s[j]).update(j, s[i as int]),
                advance(state),
                i + 1,
                k,
            )
        }),
{
    crate::rng::lemma_scale_below(draw(state), (s.len() - i) as nat);
}

/// A shuffle only reorders: it keeps the multiset of candidates.
pub proof fn lemma_shuffle_permutes(s: Seq<usize>, state: u64, i: nat, k: nat)
    ensures
        shuffled(s, state, i, k).to_multiset() == s.to_multiset(),
    decreases k - i,
{
    if !(i >= k || i >= s.len()) {
        let j: int = (i + scale(draw(state), (s.len() - i) as nat)) as int;
        crate::rng::lemma_scale_below(draw(state), (s.len() - i) as nat);
        let u = s.update(i as int, s[j]);
        let t = u.update(j, s[i as int]);
        vstd::seq_lib::to_multiset_update(s, i as int, s[j]);
        vstd::seq_lib::to_multiset_update(u, j, s[i as int]);
        broadcast use vstd::multiset::group_multiset_axioms;
        vstd::seq_lib::to_multiset_contains(s, s[i as int]);
        assert(s.contains(s[i as int]));
        assert(s.to_multiset().count(s[i as int]) > 0);
        assert(u[j] == s[j]);
        assert forall|v: usize| t.to_multiset().count(v) == s.to_multiset().count(v) by {}
        assert(t.to_multiset() =~= s.to_multiset());
        lemma_shuffle_permutes(t, advance(state), i + 1, k);
    }
}

/// A bank smaller than this leaves a family too few safe candidates to start a workspace.
pub const MIN_BANK: usize = 64;

/// The stream a new workspace draws its own colour from.
pub fn parent_stream(seed: u64) -> (rng: Rng)
    ensures
        rng.0 == seed ^ 0x117u64,
{
    Rng(seed ^ 0x117)
}

impl Workspace {
    /// A workspace of `theme` with no tabs yet, its own colour at bank index
    /// `parent`, its streams seeded from `seed`, and the small bank.
    pub fn new(theme: usize, seed: u64, parent: usize) -> (w: Workspace)
        ensures
            w.theme == theme,
            w.seed == seed,
            w.raw == SMALL_BANK,
            w.parent == parent,
            w.allocation.0 == seed ^ 0x118u64,
            w.movement.0 == seed ^ 0x119u64,
            w.history@ == Seq::<usize>::empty(),
            w.tabs@ == Seq::<Tab>::empty(),
            w.remaining_conflicts == 0,
    {
        Workspace {
            theme,
            seed,
            raw: SMALL_BANK,
            parent,
            allocation: Rng(seed ^ 0x118),
            movement: Rng(seed ^ 0x119),
            history: VecDeque::new(),
            tabs: Vec::new(),
            remaining_conflicts: 0,
        }
    }
}

/// The history never grows past its limit: remembering a pick in a history
/// within the limit leaves it within the limit, and keeps the newest pick last.
pub proof fn lemma_history_bounded(history: Seq<usize>, c: usize)
    requires
        history.len() <= HISTORY_LIMIT,
    ensures
        remembered_history(history, c).len() <= HISTORY_LIMIT,
        remembered_history(history, c).last() == c,
{
}

/// Reconciliation is idempotent: once a workspace has been reconciled with
/// `ids`, recolouring its tabs keeps their IDs, and reconciling again with the
/// same `ids` changes nothing and hands back no plan.
pub proof fn lemma_reconcile_idempotent(
    w0: Workspace,
    ids: Seq<String>,
    w1: Workspace,
    plan: Option<ReconcilePlan>,
    w2: Workspace,
)
    requires
        reconciled(w0, ids, w1, plan),
        tab_names(w2.tabs@) == tab_names(w1.tabs@),
    ensures
        reconciled(w2, ids, w2, None),
{
    if tab_names(w0.tabs@) != names(ids) {
        assert(tab_names(w1.tabs@) =~= names(ids));
    }
}

/// A tab that was already coloured keeps a real colour through reconciliation.
pub proof fn lemma_prior_colour_known(tabs: Seq<Tab>, id: Seq<char>)
    requires
        tab_names(tabs).contains(id),
        forall|i: int| 0 <= i < tabs.len() ==> (#[trigger] tabs[i]).colour != UNASSIGNED,
    ensures
        prior_colour(tabs, id) != UNASSIGNED,
        exists|i: int| 0 <= i < tabs.len() && tabs[i].id@ == id && #[trigger] tabs[i].colour == prior_colour(tabs, id),
    decreases tabs.len(),
{
    let k = choose|k: int| 0 <= k < tab_names(tabs).len() && tab_names(tabs)[k] == id;
    if tabs.last().id@ != id {
        let rest = tabs.drop_last();
        assert(k < tabs.len() - 1);
        assert(tab_names(rest)[k] == id);
        lemma_prior_colour_known(rest, id);
        let i = choose|i: int| 0 <= i < rest.len() && rest[i].id@ == id && #[trigger] rest[i].colour == prior_colour(rest, id);
        assert(tabs[i] == rest[i]);
    } else {
        assert(tabs[tabs.len() - 1].id@ == id);
    }
}

/// Rearranging tabs never draws a fresh colour: when every tab was coloured and
/// the new IDs are all known, every tab keeps a colour some tab with its ID had,
/// so no position is left `UNASSIGNED` for the allocation stream.
pub proof fn lemma_rearrangement_keeps_colours(w0: Workspace, ids: Seq<String>, w1: Workspace, plan: Option<ReconcilePlan>)
    requires
        reconciled(w0, ids, w1, plan),
        is_rearrangement(tab_names(w0.tabs@), names(ids)),
        forall|i: int| 0 <= i < w0.tabs@.len() ==> (#[trigger] w0.tabs@[i]).colour != UNASSIGNED,
    ensures
        forall|i: int| 0 <= i < w1.tabs@.len() ==> (#[trigger] w1.tabs@[i]).colour != UNASSIGNED,
        w1.allocation == w0.allocation,
        w1.movement == w0.movement,
{
    assert forall|i: int| 0 <= i < w1.tabs@.len() implies (#[trigger] w1.tabs@[i]).colour != UNASSIGNED by {
        if tab_names(w0.tabs@) != names(ids) {
            assert(names(ids)[i] == ids[i]@);
            assert(tab_names(w0.tabs@).contains(names(ids)[i]));
            lemma_prior_colour_known(w0.tabs@, ids[i]@);
        }
    }
}

/// Reconciliation is deterministic: from equal states with equal IDs it leaves
/// equal tab lists, histories, streams and plans, so a restored checkpoint
/// continues exactly as the live workspace does.
pub proof fn lemma_reconcile_deterministic(
    w0: Workspace,
    ids: Seq<String>,
    a: Workspace,
    pa: Option<ReconcilePlan>,
    b: Workspace,
    pb: Option<ReconcilePlan>,
)
    requires
        reconciled(w0, ids, a, pa),
        reconciled(w0, ids, b, pb),
    ensures
        a.tabs@ == b.tabs@,
        a.history@ == b.history@,
        same_settings(a, b),
        pa is Some <==> pb is Some,
        pa is Some ==> pa->0.moved == pb->0.moved && pa->0.moved_pos == pb->0.moved_pos && pa->0.before@ == pb->0.before@,
{
    if tab_names(w0.tabs@) != names(ids) {
        let (p, q) = (pa->0, pb->0);
        assert forall|i: int| 0 <= i < a.tabs@.len() implies a.tabs@[i] == b.tabs@[i] by {
            assert(a.tabs@[i].id == ids[i]);
            assert(b.tabs@[i].id == ids[i]);
        }
        assert(a.tabs@ =~= b.tabs@);
        if p.moved is Some && q.moved is Some {
            let (k1, k2) = (p.moved->0, q.moved->0);
            if k1 < k2 {
                assert(!single_move(tab_names(w0.tabs@), names(ids), k1 as int));
            } else if k2 < k1 {
                assert(!single_move(tab_names(w0.tabs@), names(ids), k2 as int));
            }
            let (m1, m2) = (p.moved_pos->0, q.moved_pos->0);
            if m1 < m2 {
                assert(ids[m1 as int]@ != ids[k1 as int]@);
            } else if m2 < m1 {
                assert(ids[m2 as int]@ != ids[k1 as int]@);
            }
        } else if p.moved is Some {
            assert(!single_move(tab_names(w0.tabs@), names(ids), p.moved->0 as int));
        } else if q.moved is Some {
            assert(!single_move(tab_names(w0.tabs@), names(ids), q.moved->0 as int));
        }
    }
}

/// The candidates of `candidates` that are marked in `marks`, in order.
fn keep_marked(candidates: &Vec<usize>, marks: &Vec<bool>) -> (out: Vec<usize>)
    requires
        forall|i: int| 0 <= i < candidates@.len() ==> (#[trigger] candidates@[i]) < marks@.len(),
    ensures
        out@ == candidates@.filter(marked(marks@)),
{
    let ghost pred = marked(marks@);
    let mut out: Vec<usize> = Vec::new();
    let mut i: usize = 0;
    while i < candidates.len()
        invariant
            i <= candidates@.len(),
            pred == marked(marks@),
            forall|j: int| 0 <= j < candidates@.len() ==> (#[trigger] candidates@[j]) < marks@.len(),
            out@ == candidates@.take(i as int).filter(pred),
        decreases candidates@.len() - i,
    {
        proof {
            assert(candidates@.take(i + 1).drop_last() =~= candidates@.take(i as int));
            reveal(Seq::filter);
        }
        if marks[candidates[i]] {
            out.push(candidates[i]);
        }
        i += 1;
    }
    assert(candidates@.take(candidates@.len() as int) =~= candidates@);
    out
}

/// Every candidate that clashes exactly `m` times lies in the bank.
proof fn lemma_with_clashes_in_bank(bad: Seq<usize>, m: usize, i: int)
    requires
        0 <= i < with_clashes(bad, m).len(),
    ensures
        with_clashes(bad, m)[i] < bad.len(),
        bad[with_clashes(bad, m)[i] as int] == m,
{
    let x = with_clashes(bad, m)[i];
    indices(bad.len()).lemma_filter_pred(clashes_exactly(bad, m), i);
    assert(with_clashes(bad, m).contains(x));
    indices(bad.len()).lemma_filter_contains_rev(clashes_exactly(bad, m), x);
}

/// Feasibility comes before everything else: every candidate left after
/// narrowing, preferring forgotten colours and sampling lies in the bank, has
/// the least clash count, and when that count is a clash, is near the best distance.
pub proof fn lemma_pool_is_feasible(w: Workspace, bad: Seq<usize>, near_best: Seq<bool>, state: u64, x: usize)
    requires
        sampled(preferred(w, feasible(bad, near_best)), state).contains(x),
    ensures
        x < bad.len(),
        bad[x as int] == least(bad),
        least(bad) > 0 ==> near_best[x as int],
{
    let f = feasible(bad, near_best);
    let p = preferred(w, f);
    let m = least(bad);
    // Sampling keeps only elements of the pool.
    if p.len() > SAMPLE_LIMIT {
        let sh = shuffled(p, state, 0, SAMPLE_LIMIT as nat);
        lemma_shuffle_permutes(p, state, 0, SAMPLE_LIMIT as nat);
        vstd::seq_lib::to_multiset_len(sh);
        vstd::seq_lib::to_multiset_len(p);
        assert(sh.len() == p.len());
        assert(sampled(p, state) == sh.take(SAMPLE_LIMIT as int));
        let j = choose|j: int| 0 <= j < sampled(p, state).len() && sampled(p, state)[j] == x;
        assert(sh[j] == x);
        assert(sh.contains(x));
        lemma_shuffle_permutes(p, state, 0, SAMPLE_LIMIT as nat);
        vstd::seq_lib::to_multiset_contains(sh, x);
        vstd::seq_lib::to_multiset_contains(p, x);
    }
    assert(p.contains(x));
    // Preferring forgotten colours keeps only elements of the feasible set.
    if exists|i: int| 0 <= i < f.len() && !is_remembered(w, #[trigger] f[i]) {
        f.lemma_filter_contains_rev(forgotten(w), x);
    }
    assert(f.contains(x));
    let wc = with_clashes(bad, m);
    if m > 0 {
        wc.lemma_filter_contains_rev(marked(near_best), x);
        let i = choose|i: int| 0 <= i < f.len() && f[i] == x;
        wc.lemma_filter_pred(marked(near_best), i);
    }
    assert(wc.contains(x));
    let i = choose|i: int| 0 <= i < wc.len() && wc[i] == x;
    lemma_with_clashes_in_bank(bad, m, i);
}

impl Workspace {
    /// Narrows the bank to the candidates worth scoring for the tab at a
    /// position: `bad[c]` is how many neighbours candidate `c` clashes with, and
    /// `near_best[c]` whether its distance to them is close to the best one.
    /// Returns `None`, changing nothing, when every candidate clashes and the
    /// bank can still grow; otherwise the feasible candidates, preferring
    /// forgotten colours, sampled with the pick's stream.
    pub fn choice_pool(&mut self, bad: &Vec<usize>, near_best: &Vec<bool>, moved: bool) -> (pool: Option<Vec<usize>>)
        requires
            near_best@.len() == bad@.len(),
        ensures
            (least(bad@) > 0 && old(self).raw < LARGE_BANK) ==> pool is None && *final(self) == *old(self),
            !(least(bad@) > 0 && old(self).raw < LARGE_BANK) ==> {
                &&& pool matches Some(p)
                &&& p@ == sampled(preferred(*old(self), feasible(bad@, near_best@)), stream(*old(self), moved))
                &&& drew(*old(self), *final(self), moved, if preferred(*old(self), feasible(bad@, near_best@)).len()
                    > SAMPLE_LIMIT {
                    SAMPLE_LIMIT as nat
                } else {
                    0
                })
                &&& forall|x: usize| #[trigger] p@.contains(x) ==> {
                    &&& x < bad@.len()
                    &&& bad@[x as int] == least(bad@)
                    &&& least(bad@) > 0 ==> near_best@[x as int]
                }
            },
    {
        let (m, candidates) = fewest_clashes(bad);
        if m > 0 && self.raw < LARGE_BANK {
            return None;
        }
        let narrowed = if m > 0 {
            proof {
                assert forall|i: int| 0 <= i < candidates@.len() implies (#[trigger] candidates@[i]) < near_best@.len() by {
                    lemma_with_clashes_in_bank(bad@, m, i);
                }
            }
            keep_marked(&candidates, near_best)
        } else {
            candidates
        };
        assert(narrowed@ == feasible(bad@, near_best@));
        let ghost before = *self;
        let mut pool = self.prefer_unremembered(&narrowed);
        self.sample(&mut pool, moved);
        proof {
            assert forall|x: usize| #[trigger] pool@.contains(x) implies {
                &&& x < bad@.len()
                &&& bad@[x as int] == least(bad@)
                &&& least(bad@) > 0 ==> near_best@[x as int]
            } by {
                lemma_pool_is_feasible(before, bad@, near_best@, stream(before, moved), x);
            }
        }
        Some(pool)
    }
}

/// `b`'s streams are `a`'s advanced `m` draws (allocation) and `n` draws (movement).
pub open spec fn streams_after(a: Workspace, b: Workspace, m: nat, n: nat) -> bool {
    &&& b.allocation.0 == advanced(a.allocation.0, m)
    &&& b.movement.0 == advanced(a.movement.0, n)
}

/// Draws compose: `m` draws then `n` draws are `m + n` draws.
pub proof fn lemma_advanced_adds(state: u64, m: nat, n: nat)
    ensures
        advanced(advanced(state, m), n) == advanced(state, m + n),
    decreases m,
{
    if m > 0 {
        lemma_advanced_adds(advance(state), (m - 1) as nat, n);
        assert(advanced(state, m + n) == advanced(advance(state), (m + n - 1) as nat));
    }
}

/// Streams never rewind: every operation on a workspace either leaves both
/// streams alone (reconciliation's identity step, recolouring, remembering) or
/// advances one of them (drawing, sampling), and any sequence of such steps
/// only advances them.
pub proof fn lemma_streams_only_advance(a: Workspace, b: Workspace, c: Workspace, m1: nat, n1: nat, m2: nat, n2: nat)
    requires
        streams_after(a, b, m1, n1),
        streams_after(b, c, m2, n2),
    ensures
        streams_after(a, c, m1 + m2, n1 + n2),
{
    lemma_advanced_adds(a.allocation.0, m1, m2);
    lemma_advanced_adds(a.movement.0, n1, n2);
}

/// Each operation is such a step: leaving the settings alone is zero draws, and
/// a draw of `n` from one stream is `n` draws of it and none of the other.
pub proof fn lemma_steps_advance(a: Workspace, b: Workspace, moved: bool, n: nat)
    ensures
        same_settings(a, b) ==> streams_after(a, b, 0, 0),
        drew(a, b, moved, n) ==> streams_after(a, b, if moved { 0 } else { n }, if moved { n } else { 0 }),
{
    assert(advanced(a.allocation.0, 0) == a.allocation.0);
    assert(advanced(a.movement.0, 0) == a.movement.0);
}

} // verus!
