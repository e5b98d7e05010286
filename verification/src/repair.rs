//! The bookkeeping of conflict repair: which adjacent tabs clash, in which
//! order clashing tabs are tried, how candidate recolourings are ranked, and
//! the budget that bounds how many tabs one reconciliation may recolour.
use vstd::prelude::*;

verus! {

/// A candidate recolouring's rank: newly introduced conflicts, total
/// conflicts, displacement from the tab's colour before reconciliation, and
/// the candidate's bank index. Lower is better.
pub struct RepairRank {
    pub new_conflicts: usize,
    pub total_conflicts: usize,
    pub displacement: u64,
    pub candidate: usize,
}

/// `a` ranks strictly better than `b`, comparing the fields in order.
pub open spec fn ranks_below(a: RepairRank, b: RepairRank) -> bool {
    ||| a.new_conflicts < b.new_conflicts
    ||| a.new_conflicts == b.new_conflicts && a.total_conflicts < b.total_conflicts
    ||| a.new_conflicts == b.new_conflicts && a.total_conflicts == b.total_conflicts
        && a.displacement < b.displacement
    ||| a.new_conflicts == b.new_conflicts && a.total_conflicts == b.total_conflicts
        && a.displacement == b.displacement && a.candidate < b.candidate
}

impl RepairRank {
    /// Whether `self` ranks strictly better than `other`.
    pub fn below(&self, other: &RepairRank) -> (r: bool)
        ensures
            r == ranks_below(*self, *other),
    {
        if self.new_conflicts != other.new_conflicts {
            self.new_conflicts < other.new_conflicts
        } else if self.total_conflicts != other.total_conflicts {
            self.total_conflicts < other.total_conflicts
        } else if self.displacement != other.displacement {
            self.displacement < other.displacement
        } else {
            self.candidate < other.candidate
        }
    }
}

/// The adjacent pairs `(i, i + 1)` whose flag in `clash` is set, in order.
pub open spec fn clash_pairs(clash: Seq<bool>) -> Seq<(usize, usize)>
    decreases clash.len(),
{
    if clash.len() == 0 {
        Seq::empty()
    } else if clash.last() {
        clash_pairs(clash.drop_last()).push(((clash.len() - 1) as usize, clash.len() as usize))
    } else {
        clash_pairs(clash.drop_last())
    }
}

/// The conflicting neighbour pairs of a tab row: `clash[i]` says whether the
/// tabs at `i` and `i + 1` are too close to tell apart.
pub fn conflicts(clash: &Vec<bool>) -> (out: Vec<(usize, usize)>)
    requires
        clash@.len() < usize::MAX,
    ensures
        out@ == clash_pairs(clash@),
{
    let mut out: Vec<(usize, usize)> = Vec::new();
    let mut i: usize = 0;
    while i < clash.len()
        invariant
            i <= clash@.len(),
            clash@.len() < usize::MAX,
            out@ == clash_pairs(clash@.take(i as int)),
        decreases clash@.len() - i,
    {
        assert(clash@.take(i + 1).drop_last() =~= clash@.take(i as int));
        if clash[i] {
            out.push((i, i + 1));
        }
        i += 1;
    }
    assert(clash@.take(clash@.len() as int) =~= clash@);
    out
}

/// How many of the conflicts that `i` takes part in are new ones.
pub open spec fn new_conflicts_at(conflicts: Seq<(usize, usize)>, fresh: Seq<bool>, i: usize) -> nat
    decreases conflicts.len(),
{
    if conflicts.len() == 0 {
        0
    } else {
        let t = conflicts.len() - 1;
        new_conflicts_at(conflicts.drop_last(), fresh.take(t), i) + if (conflicts[t].0 == i
            || conflicts[t].1 == i) && fresh[t] {
            1nat
        } else {
            0nat
        }
    }
}

/// Whether `i` is one end of a conflict.
pub open spec fn is_endpoint(conflicts: Seq<(usize, usize)>, i: usize) -> bool {
    exists|t: int| 0 <= t < conflicts.len() && ((#[trigger] conflicts[t]).0 == i || conflicts[t].1 == i)
}

/// Endpoint `x` is tried before endpoint `y`: more new conflicts first, then the lower position.
pub open spec fn tried_before(conflicts: Seq<(usize, usize)>, fresh: Seq<bool>, x: usize, y: usize) -> bool {
    let nx = new_conflicts_at(conflicts, fresh, x);
    let ny = new_conflicts_at(conflicts, fresh, y);
    nx > ny || (nx == ny && x < y)
}

/// The number of new conflicts `i` takes part in.
fn count_new(conflicts: &Vec<(usize, usize)>, fresh: &Vec<bool>, i: usize) -> (n: usize)
    requires
        conflicts@.len() == fresh@.len(),
    ensures
        n as nat == new_conflicts_at(conflicts@, fresh@, i),
{
    let mut n: usize = 0;
    let mut t: usize = 0;
    while t < conflicts.len()
        invariant
            t <= conflicts@.len(),
            conflicts@.len() == fresh@.len(),
            n as nat == new_conflicts_at(conflicts@.take(t as int), fresh@.take(t as int), i),
            n <= t,
        decreases conflicts@.len() - t,
    {
        assert(conflicts@.take(t + 1).drop_last() =~= conflicts@.take(t as int));
        assert(fresh@.take(t + 1).take(t as int) =~= fresh@.take(t as int));
        if (conflicts[t].0 == i || conflicts[t].1 == i) && fresh[t] {
            n += 1;
        }
        t += 1;
    }
    assert(conflicts@.take(conflicts@.len() as int) =~= conflicts@);
    assert(fresh@.take(fresh@.len() as int) =~= fresh@);
    n
}

/// Whether `i` is one end of a conflict.
fn touches(conflicts: &Vec<(usize, usize)>, i: usize) -> (r: bool)
    ensures
        r == is_endpoint(conflicts@, i),
{
    let mut t: usize = 0;
    while t < conflicts.len()
        invariant
            t <= conflicts@.len(),
            forall|s: int| 0 <= s < t ==> (#[trigger] conflicts@[s]).0 != i && conflicts@[s].1 != i,
        decreases conflicts@.len() - t,
    {
        let (a, b) = conflicts[t];
        if a == i || b == i {
            return true;
        }
        assert(!(conflicts@[t as int].0 == i || conflicts@[t as int].1 == i));
        t += 1;
    }
    false
}

/// A position takes part in at most as many new conflicts as there are conflicts.
pub proof fn lemma_new_conflicts_bounded(conflicts: Seq<(usize, usize)>, fresh: Seq<bool>, i: usize)
    ensures
        new_conflicts_at(conflicts, fresh, i) <= conflicts.len(),
    decreases conflicts.len(),
{
    if conflicts.len() > 0 {
        lemma_new_conflicts_bounded(conflicts.drop_last(), fresh.take(conflicts.len() - 1), i);
    }
}

/// The ends of all conflicts among `tab_count` tabs, each once, ordered by how
/// many new conflicts each takes part in (most first), ties by position.
pub fn order_endpoints(conflicts: &Vec<(usize, usize)>, fresh: &Vec<bool>, tab_count: usize) -> (out: Vec<usize>)
    requires
        conflicts@.len() == fresh@.len(),
        conflicts@.len() < usize::MAX,
        forall|t: int| 0 <= t < conflicts@.len() ==> (#[trigger] conflicts@[t]).0 < tab_count && conflicts@[t].1 < tab_count,
    ensures
        out@.no_duplicates(),
        forall|i: usize| out@.contains(i) <==> is_endpoint(conflicts@, i),
        forall|p: int, q: int|
            0 <= p < q < out@.len() ==> tried_before(conflicts@, fresh@, #[trigger] out@[p], #[trigger] out@[q]),
{
    let mut out: Vec<usize> = Vec::new();
    let mut k: usize = conflicts.len() + 1;
    proof {
        assert forall|x: usize| #[trigger] out@.contains(x) <==> (is_endpoint(conflicts@, x) && new_conflicts_at(conflicts@, fresh@, x) >= k) by {
            lemma_new_conflicts_bounded(conflicts@, fresh@, x);
        }
    }
    while k > 0
        invariant
            k <= conflicts@.len() + 1,
            conflicts@.len() == fresh@.len(),
            forall|t: int| 0 <= t < conflicts@.len() ==> (#[trigger] conflicts@[t]).0 < tab_count && conflicts@[t].1 < tab_count,
            forall|p: int, q: int|
                0 <= p < q < out@.len() ==> tried_before(conflicts@, fresh@, #[trigger] out@[p], #[trigger] out@[q]),
            forall|p: int| 0 <= p < out@.len() ==> new_conflicts_at(conflicts@, fresh@, #[trigger] out@[p]) >= k,
            forall|x: usize| #[trigger] out@.contains(x) <==> (is_endpoint(conflicts@, x) && new_conflicts_at(conflicts@, fresh@, x) >= k),
        decreases k,
    {
        k -= 1;
        let mut pos: usize = 0;
        while pos < tab_count
            invariant
                pos <= tab_count,
                k <= conflicts@.len(),
                conflicts@.len() == fresh@.len(),
                forall|t: int| 0 <= t < conflicts@.len() ==> (#[trigger] conflicts@[t]).0 < tab_count && conflicts@[t].1 < tab_count,
                forall|p: int, q: int|
                    0 <= p < q < out@.len() ==> tried_before(conflicts@, fresh@, #[trigger] out@[p], #[trigger] out@[q]),
                forall|p: int| 0 <= p < out@.len() ==> new_conflicts_at(conflicts@, fresh@, #[trigger] out@[p]) >= k,
                forall|p: int| 0 <= p < out@.len() && new_conflicts_at(conflicts@, fresh@, #[trigger] out@[p]) == k ==> out@[p] < pos,
                forall|x: usize| #[trigger] out@.contains(x) <==> (is_endpoint(conflicts@, x) && (new_conflicts_at(conflicts@, fresh@, x) > k
                    || (new_conflicts_at(conflicts@, fresh@, x) == k && x < pos))),
            decreases tab_count - pos,
        {
            if touches(conflicts, pos) && count_new(conflicts, fresh, pos) == k {
                let ghost before = out@;
                out.push(pos);
                proof {
                    assert forall|x: usize| #[trigger] out@.contains(x) <==> (is_endpoint(conflicts@, x) && (new_conflicts_at(conflicts@, fresh@, x) > k
                        || (new_conflicts_at(conflicts@, fresh@, x) == k && x < pos + 1))) by {
                        if x == pos {
                            assert(out@[before.len() as int] == pos);
                        } else if out@.contains(x) {
                            let m = choose|m: int| 0 <= m < out@.len() && out@[m] == x;
                            assert(before[m] == x);
                            assert(before.contains(x));
                        } else if is_endpoint(conflicts@, x) && (new_conflicts_at(conflicts@, fresh@, x) > k
                            || (new_conflicts_at(conflicts@, fresh@, x) == k && x < pos + 1)) {
                            assert(before.contains(x));
                            let m = choose|m: int| 0 <= m < before.len() && before[m] == x;
                            assert(out@[m] == x);
                        }
                    }
                }
            } else {
                proof {
                    assert forall|x: usize| #[trigger] out@.contains(x) <==> (is_endpoint(conflicts@, x) && (new_conflicts_at(conflicts@, fresh@, x) > k
                        || (new_conflicts_at(conflicts@, fresh@, x) == k && x < pos + 1))) by {
                        if x == pos && out@.contains(x) {
                            let m = choose|m: int| 0 <= m < out@.len() && out@[m] == x;
                            assert(new_conflicts_at(conflicts@, fresh@, out@[m]) >= k);
                        }
                    }
                }
            }
            pos += 1;
        }
        proof {
            assert forall|x: usize| #[trigger] out@.contains(x) <==> (is_endpoint(conflicts@, x) && new_conflicts_at(conflicts@, fresh@, x) >= k) by {
                if is_endpoint(conflicts@, x) {
                    let t = choose|t: int| 0 <= t < conflicts@.len() && ((#[trigger] conflicts@[t]).0 == x || conflicts@[t].1 == x);
                    assert(x < tab_count);
                }
            }
        }
    }
    proof {
        assert forall|x: usize| #[trigger] out@.contains(x) <==> is_endpoint(conflicts@, x) by {
            lemma_new_conflicts_bounded(conflicts@, fresh@, x);
        }
        assert forall|p: int, q: int| 0 <= p < q < out@.len() implies out@[p] != out@[q] by {
            assert(tried_before(conflicts@, fresh@, out@[p], out@[q]));
        }
    }
    out
}

/// The most candidate searches (single tabs or pairs) one repair may run.
pub const REPAIR_ATTEMPTS: usize = 96;

/// A bound on how many tabs, besides the one that moved, one repair may
/// recolour, and on how many searches it may run.
pub struct RepairBudget {
    /// The positions recoloured so far, each once.
    pub changed: Vec<usize>,
    pub budget: usize,
    /// The searches run so far.
    pub attempts: usize,
}

impl RepairBudget {
    /// Every recoloured position is recorded once, and there are at most `budget` of them.
    pub open spec fn wf(&self) -> bool {
        &&& self.changed@.no_duplicates()
        &&& self.changed@.len() <= self.budget
        &&& self.attempts <= REPAIR_ATTEMPTS
    }

    /// Whether position `i` may be recoloured: the moved tab always may, a tab
    /// already recoloured may again, and another tab only while budget is left.
    pub open spec fn allows(&self, i: usize, primary: bool) -> bool {
        primary || self.changed@.contains(i) || self.changed@.len() < self.budget
    }

    /// How many of two positions would newly count against the budget.
    pub open spec fn needed(&self, a: usize, a_primary: bool, b: usize, b_primary: bool) -> nat {
        (if !a_primary && !self.changed@.contains(a) { 1nat } else { 0nat }) + (if !b_primary
            && !self.changed@.contains(b) {
            1nat
        } else {
            0nat
        })
    }

    /// An empty record with the given budget.
    pub fn new(budget: usize) -> (r: RepairBudget)
        ensures
            r.changed@ == Seq::<usize>::empty(),
            r.budget == budget,
            r.attempts == 0,
            r.wf(),
    {
        RepairBudget { changed: Vec::new(), budget, attempts: 0 }
    }

    /// Whether repair goes on: conflicts remain and searches are left.
    pub fn keep_going(&self, conflict_count: usize) -> (r: bool)
        ensures
            r == (conflict_count > 0 && self.attempts < REPAIR_ATTEMPTS),
    {
        conflict_count > 0 && self.attempts < REPAIR_ATTEMPTS
    }

    /// Whether more tabs may still be recoloured.
    pub fn has_room(&self) -> (r: bool)
        ensures
            r == (self.changed@.len() < self.budget),
    {
        self.changed.len() < self.budget
    }

    /// Starts a search for a new colour of the tab at `i`, if the budget
    /// allows recolouring it and searches are left; counts the search.
    pub fn open_endpoint(&mut self, i: usize, primary: bool) -> (open: bool)
        ensures
            open == (old(self).allows(i, primary) && old(self).attempts < REPAIR_ATTEMPTS),
            final(self).attempts == if open { old(self).attempts + 1 } else { old(self).attempts as int },
            final(self).changed == old(self).changed,
            final(self).budget == old(self).budget,
            old(self).wf() ==> final(self).wf(),
    {
        if self.permits(i, primary) && self.attempts < REPAIR_ATTEMPTS {
            self.attempts += 1;
            true
        } else {
            false
        }
    }

    /// Starts a search for new colours of the conflicting pair `a`, `b`, if the
    /// budget allows recolouring both and searches are left; counts the search.
    pub fn open_pair(&mut self, a: usize, a_primary: bool, b: usize, b_primary: bool) -> (open: bool)
        ensures
            open == (old(self).changed@.len() + old(self).needed(a, a_primary, b, b_primary) <= old(self).budget
                && old(self).attempts < REPAIR_ATTEMPTS),
            final(self).attempts == if open { old(self).attempts + 1 } else { old(self).attempts as int },
            final(self).changed == old(self).changed,
            final(self).budget == old(self).budget,
            old(self).wf() ==> final(self).wf(),
    {
        if self.admits_pair(a, a_primary, b, b_primary) && self.attempts < REPAIR_ATTEMPTS {
            self.attempts += 1;
            true
        } else {
            false
        }
    }

    fn holds(&self, i: usize) -> (r: bool)
        ensures
            r == self.changed@.contains(i),
    {
        let mut k: usize = 0;
        while k < self.changed.len()
            invariant
                k <= self.changed@.len(),
                forall|m: int| 0 <= m < k ==> self.changed@[m] != i,
            decreases self.changed@.len() - k,
        {
            if self.changed[k] == i {
                return true;
            }
            k += 1;
        }
        false
    }

    /// Whether position `i` may be recoloured now.
    pub fn permits(&self, i: usize, primary: bool) -> (r: bool)
        ensures
            r == self.allows(i, primary),
    {
        primary || self.holds(i) || self.changed.len() < self.budget
    }

    /// Whether the pair `a`, `b` may both be recoloured now.
    pub fn admits_pair(&self, a: usize, a_primary: bool, b: usize, b_primary: bool) -> (r: bool)
        ensures
            r == (self.changed@.len() + self.needed(a, a_primary, b, b_primary) <= self.budget),
    {
        let mut needed: usize = 0;
        if !a_primary && !self.holds(a) {
            needed += 1;
        }
        if !b_primary && !self.holds(b) {
            needed += 1;
        }
        needed <= self.budget && self.changed.len() <= self.budget - needed
    }

    /// Records that position `i` was recoloured.
    pub fn note(&mut self, i: usize, primary: bool)
        requires
            old(self).allows(i, primary),
        ensures
            final(self).budget == old(self).budget,
            final(self).attempts == old(self).attempts,
            final(self).changed@ == if primary || old(self).changed@.contains(i) {
                old(self).changed@
            } else {
                old(self).changed@.push(i)
            },
            old(self).wf() ==> final(self).wf(),
    {
        if !primary && !self.holds(i) {
            self.changed.push(i);
            proof {
                assert(self.changed@ == old(self).changed@.push(i));
                if old(self).wf() {
                    assert forall|p: int, q: int| 0 <= p < q < self.changed@.len() implies self.changed@[p] != self.changed@[q] by {
                        if q == self.changed@.len() - 1 {
                            assert(self.changed@[p] == old(self).changed@[p]);
                            assert(old(self).changed@.contains(self.changed@[p]));
                        } else {
                            assert(self.changed@[p] == old(self).changed@[p]);
                            assert(self.changed@[q] == old(self).changed@[q]);
                        }
                    }
                }
            }
        }
    }

    /// Records that the distinct positions `a` and `b` were recoloured together.
    pub fn note_pair(&mut self, a: usize, a_primary: bool, b: usize, b_primary: bool)
        requires
            a != b,
            old(self).changed@.len() + old(self).needed(a, a_primary, b, b_primary) <= old(self).budget,
        ensures
            final(self).budget == old(self).budget,
            final(self).attempts == old(self).attempts,
            final(self).changed@.len() == old(self).changed@.len() + old(self).needed(a, a_primary, b, b_primary),
            forall|x: usize| final(self).changed@.contains(x) <==> (old(self).changed@.contains(x)
                || (x == a && !a_primary) || (x == b && !b_primary)),
            old(self).wf() ==> final(self).wf(),
    {
        self.note(a, a_primary);
        let ghost mid = self.changed@;
        assert(mid.contains(b) == old(self).changed@.contains(b)) by {
            if !a_primary && !old(self).changed@.contains(a) {
                assert(mid == old(self).changed@.push(a));
                if mid.contains(b) {
                    let m = choose|m: int| 0 <= m < mid.len() && mid[m] == b;
                    if m < old(self).changed@.len() {
                        assert(old(self).changed@[m] == b);
                    }
                }
                if old(self).changed@.contains(b) {
                    let m = choose|m: int| 0 <= m < old(self).changed@.len() && old(self).changed@[m] == b;
                    assert(mid[m] == b);
                }
            }
        }
        self.note(b, b_primary);
        proof {
            assert forall|x: usize| self.changed@.contains(x) <==> (old(self).changed@.contains(x)
                || (x == a && !a_primary) || (x == b && !b_primary)) by {
                if self.changed@.contains(x) && !mid.contains(x) {
                    let m = choose|m: int| 0 <= m < self.changed@.len() && self.changed@[m] == x;
                    if m < mid.len() {
                        assert(mid[m] == x);
                    }
                }
                if mid.contains(x) {
                    let m = choose|m: int| 0 <= m < mid.len() && mid[m] == x;
                    assert(self.changed@[m] == x);
                    if !old(self).changed@.contains(x) && m < old(self).changed@.len() {
                        assert(old(self).changed@[m] == x);
                    }
                }
                if old(self).changed@.contains(x) {
                    let m = choose|m: int| 0 <= m < old(self).changed@.len() && old(self).changed@[m] == x;
                    assert(mid[m] == x);
                }
                if (x == a && !a_primary) && !mid.contains(a) {
                    assert(mid[mid.len() - 1] == a);
                }
                if x == b && !b_primary && !self.changed@.contains(b) {
                    assert(self.changed@[self.changed@.len() - 1] == b);
                }
            }
        }
    }
}

/// The best single-tab recolouring found in one round of repair.
pub struct MoveSearch {
    /// How many conflicts the tab row has this round.
    pub conflicts: usize,
    /// The best move so far: its rank and the position it recolours.
    pub best: Option<(RepairRank, usize)>,
}

/// The rank of recolouring a tab that now takes part in `current` of the row's
/// `conflicts` conflicts to a candidate that would take part in `clashes`,
/// `new_clashes` of them new.
pub open spec fn move_rank(conflicts: usize, current: usize, clashes: usize, new_clashes: usize, displacement: u64, c: usize) -> RepairRank {
    RepairRank {
        new_conflicts: new_clashes,
        total_conflicts: (conflicts - current + clashes) as usize,
        displacement,
        candidate: c,
    }
}

/// `rank` is the first candidate, or ranks strictly better than the best so far.
pub open spec fn improves(best: Option<(RepairRank, usize)>, rank: RepairRank) -> bool {
    match best {
        None => true,
        Some((r, _)) => ranks_below(rank, r),
    }
}

impl MoveSearch {
    /// Every kept move lowers the row's conflict count.
    pub open spec fn wf(&self) -> bool {
        self.best matches Some((r, _)) ==> r.total_conflicts < self.conflicts
    }

    /// An empty search for a row with `conflicts` conflicts.
    pub fn new(conflicts: usize) -> (s: MoveSearch)
        ensures
            s.conflicts == conflicts,
            s.best is None,
            s.wf(),
    {
        MoveSearch { conflicts, best: None }
    }

    /// Considers recolouring the tab at `i` to candidate `c`. Only a candidate
    /// within reach of the tab's colour before the change (`within`) that
    /// clashes with fewer neighbours than the tab does now counts; it is kept
    /// when it ranks strictly better than the best so far.
    pub fn consider(
        &mut self,
        i: usize,
        c: usize,
        within: bool,
        current: usize,
        clashes: usize,
        new_clashes: usize,
        displacement: u64,
    )
        requires
            current <= old(self).conflicts,
        ensures
            final(self).conflicts == old(self).conflicts,
            final(self).best == if within && clashes < current && improves(
                old(self).best,
                move_rank(old(self).conflicts, current, clashes, new_clashes, displacement, c),
            ) {
                Some((move_rank(old(self).conflicts, current, clashes, new_clashes, displacement, c), i))
            } else {
                old(self).best
            },
            old(self).wf() ==> final(self).wf(),
    {
        if !within || clashes >= current {
            return;
        }
        let rank = RepairRank {
            new_conflicts: new_clashes,
            total_conflicts: self.conflicts - current + clashes,
            displacement,
            candidate: c,
        };
        let better = match &self.best {
            None => true,
            Some((r, _)) => rank.below(r),
        };
        if better {
            self.best = Some((rank, i));
        }
    }
}

} // verus!
