use vstd::prelude::*;

verus! {

/// Largest number of past positions a trajectory keeps.
pub const TRAJECTORY_CAP: usize = 500;

/// What is left of a history once the oldest entries beyond the cap are evicted.
pub open spec fn keep_recent<T>(s: Seq<T>) -> Seq<T> {
    if s.len() > TRAJECTORY_CAP {
        s.subrange(s.len() - TRAJECTORY_CAP, s.len() as int)
    } else {
        s
    }
}

/// The history held after recording `points` in order, starting empty.
pub open spec fn history_of<T>(points: Seq<T>) -> Seq<T>
    decreases points.len(),
{
    if points.len() == 0 {
        Seq::empty()
    } else {
        keep_recent(history_of(points.drop_last()).push(points.last()))
    }
}

/// Past positions of a body, oldest first, never more than `TRAJECTORY_CAP`.
pub struct Trajectory<T> {
    points: Vec<T>,
}

impl<T> View for Trajectory<T> {
    type V = Seq<T>;

    closed spec fn view(&self) -> Seq<T> {
        self.points@
    }
}

impl<T> Trajectory<T> {
    /// The history never holds more than `TRAJECTORY_CAP` positions.
    pub open spec fn wf(&self) -> bool {
        self@.len() <= TRAJECTORY_CAP
    }

    /// An empty history.
    pub fn new() -> (r: Self)
        ensures
            r@ == Seq::<T>::empty(),
            r.wf(),
    {
        Trajectory { points: Vec::new() }
    }

    /// Appends `p` as the newest entry, evicting the oldest one when the cap
    /// would be exceeded.
    pub fn push(&mut self, p: T)
        requires
            old(self).wf(),
        ensures
            final(self).wf(),
            final(self)@ == keep_recent(old(self)@.push(p)),
    {
        self.points.push(p);
        if self.points.len() > TRAJECTORY_CAP {
            self.points.remove(0);
        }
        assert(self.points@ =~= keep_recent(old(self)@.push(p)));
    }

    /// Number of positions held.
    pub fn len(&self) -> (r: usize)
        ensures
            r == self@.len(),
    {
        self.points.len()
    }

    /// The positions held, oldest first.
    pub fn points(&self) -> (r: &Vec<T>)
        ensures
            r@ == self@,
    {
        &self.points
    }
}

/// After any sequence of recordings the history is exactly the last
/// `TRAJECTORY_CAP` of them (all of them, if fewer), in recording order.
pub proof fn lemma_history_is_recent_window<T>(points: Seq<T>)
    ensures
        history_of(points) == keep_recent(points),
    decreases points.len(),
{
    if points.len() > 0 {
        let prev = points.drop_last();
        lemma_history_is_recent_window(prev);
        assert(keep_recent(keep_recent(prev).push(points.last())) =~= keep_recent(points));
    }
}

/// Once more than `TRAJECTORY_CAP` positions were recorded, the history holds
/// exactly `TRAJECTORY_CAP` of them and its oldest entry is the one recorded
/// `TRAJECTORY_CAP - 1` recordings before the newest.
pub proof fn lemma_history_full_after_cap<T>(points: Seq<T>)
    requires
        points.len() > TRAJECTORY_CAP,
    ensures
        history_of(points).len() == TRAJECTORY_CAP,
        history_of(points)[0] == points[points.len() - TRAJECTORY_CAP],
        history_of(points).last() == points.last(),
{
    lemma_history_is_recent_window(points);
}

} // verus!
