//! Scheduled tasks: which ones are due on a scheduler tick, what the
//! scheduler remembers between ticks, and which task runs next.
use vstd::prelude::*;
use std::collections::HashMap;

use crate::schedule::{next_recurring, once_at, once_outcome, recurring_outcome};
use crate::text::{chars_eq, str_chars};

verus! {

/// A scheduled task; `schedule` is its JSON array of time entries.
pub struct TaskRecord {
    pub id: i64,
    pub title: String,
    /// What is handed to the model when the task is due.
    pub content: String,
    /// `permanent` (recurring) or `once`.
    pub kind: String,
    pub schedule: String,
    pub enabled: bool,
    pub created_at: i64,
    pub updated_at: i64,
}

/// Ticks between two clean-ups of expired memories (about an hour).
pub const MEMORY_CLEANUP_INTERVAL: usize = 3600;

/// Whether a tick (counted from 1) cleans up expired memories: the first
/// one, then every interval.
pub fn cleanup_due(tick: usize) -> (b: bool)
    ensures
        b == (tick == 1 || tick % MEMORY_CLEANUP_INTERVAL == 0),
{
    tick == 1 || tick % MEMORY_CLEANUP_INTERVAL == 0
}

/// What the scheduler remembers: when it started, and when each recurring
/// task last fired.
pub struct SchedulerState {
    pub last_fired: HashMap<i64, i64>,
    /// When the scheduler started; a task it has no record of counts from here.
    pub started_at: i64,
}

/// Where the search for a recurring task's next run starts: when it last
/// fired, unless the task was changed since, then now; the scheduler's start
/// when it never fired, so that times missed before the start are not made up
/// for.
pub open spec fn start_spec(last: Option<i64>, updated_at: i64, started_at: i64, now: i64) -> i64 {
    match last {
        Some(t) => if t >= updated_at { t } else { now },
        None => started_at,
    }
}

pub open spec fn lookup(m: Map<i64, i64>, id: i64) -> Option<i64> {
    if m.contains_key(id) { Some(m[id]) } else { None }
}

/// Whether a task fires at `now`: a one-off task once its time `once` has
/// come, a recurring one once its next run `next` has come.
pub open spec fn fires(one_off: bool, once: Option<i64>, next: Option<i64>, now: i64) -> bool {
    if one_off {
        once matches Some(a) && a <= now
    } else {
        next matches Some(x) && x <= now
    }
}

/// What the scheduler remembers after a task was looked at: a recurring task
/// that fired is remembered as having fired at the run that came.
pub open spec fn after_fire(m: Map<i64, i64>, id: i64, one_off: bool, once: Option<i64>, next: Option<i64>, now: i64) -> Map<i64, i64> {
    if !one_off && fires(one_off, once, next, now) {
        m.insert(id, next->0)
    } else {
        m
    }
}

/// Whether a task is a one-off task.
pub open spec fn one_off(task: TaskRecord) -> bool {
    task.kind@ == "once"@
}

/// What the scheduler remembers after looking at the tasks in order, from
/// `start`, for the one-off time and the next run that each task came with.
pub open spec fn tick_memory(tasks: Seq<TaskRecord>, onces: Seq<Option<i64>>, nexts: Seq<Option<i64>>, start: Map<i64, i64>, now: i64) -> Map<i64, i64>
    decreases onces.len(),
{
    if onces.len() == 0 {
        start
    } else {
        let k = onces.len() - 1;
        after_fire(tick_memory(tasks, onces.drop_last(), nexts.drop_last(), start, now),
            tasks[k].id, one_off(tasks[k]), onces[k], nexts[k], now)
    }
}

/// The positions of the tasks that fire, in order, for the one-off time and
/// the next run that each task came with.
pub open spec fn tick_fired(tasks: Seq<TaskRecord>, onces: Seq<Option<i64>>, nexts: Seq<Option<i64>>, now: i64) -> Seq<usize>
    decreases onces.len(),
{
    if onces.len() == 0 {
        Seq::empty()
    } else {
        let k = onces.len() - 1;
        let prev = tick_fired(tasks, onces.drop_last(), nexts.drop_last(), now);
        if fires(one_off(tasks[k]), onces[k], nexts[k], now) { prev.push(k as usize) } else { prev }
    }
}

/// The positions that fire are in increasing order, each that of a task.
pub proof fn lemma_tick_fired_positions(tasks: Seq<TaskRecord>, onces: Seq<Option<i64>>, nexts: Seq<Option<i64>>, now: i64)
    requires
        onces.len() <= usize::MAX,
        nexts.len() == onces.len(),
    ensures
        forall|a: int| 0 <= a < tick_fired(tasks, onces, nexts, now).len()
            ==> (#[trigger] tick_fired(tasks, onces, nexts, now)[a]) < onces.len(),
        forall|a: int, b: int| 0 <= a < b < tick_fired(tasks, onces, nexts, now).len()
            ==> tick_fired(tasks, onces, nexts, now)[a] < tick_fired(tasks, onces, nexts, now)[b],
    decreases onces.len(),
{
    if onces.len() > 0 {
        lemma_tick_fired_positions(tasks, onces.drop_last(), nexts.drop_last(), now);
        let prev = tick_fired(tasks, onces.drop_last(), nexts.drop_last(), now);
        let k = onces.len() - 1;
        let r = tick_fired(tasks, onces, nexts, now);
        if fires(one_off(tasks[k]), onces[k], nexts[k], now) {
            assert(r == prev.push(k as usize));
            assert forall|a: int| 0 <= a < r.len() implies (#[trigger] r[a]) < onces.len() by {
                if a < prev.len() {
                    assert(r[a] == prev[a]);
                }
            }
            assert forall|a: int, b: int| 0 <= a < b < r.len() implies r[a] < r[b] by {
                assert(r[a] == prev[a]);
                if b < prev.len() {
                    assert(r[b] == prev[b]);
                } else {
                    assert(prev[a] < k);
                }
            }
        } else {
            assert(r == prev);
        }
    }
}

/// The times task `k` came with on a tick: for a one-off task what
/// [`once_at`] gives for its schedule; for a recurring one what
/// [`next_recurring`] gives after its start, taken from what the scheduler
/// remembered when it came to the task.
pub open spec fn tick_inputs(tasks: Seq<TaskRecord>, onces: Seq<Option<i64>>, nexts: Seq<Option<i64>>, start: Map<i64, i64>, started_at: i64, now: i64, k: int) -> bool {
    let task = tasks[k];
    if one_off(task) {
        once_outcome(task.schedule@, onces[k]) && nexts[k] is None
    } else {
        let memory = tick_memory(tasks, onces.take(k), nexts.take(k), start, now);
        onces[k] is None && recurring_outcome(task.schedule@,
            start_spec(lookup(memory, task.id), task.updated_at, started_at, now) as int, nexts[k])
    }
}

impl SchedulerState {
    /// A scheduler started at `started_at` that remembers no firing: times
    /// missed before it started are not made up for.
    pub fn new(started_at: i64) -> (r: Self)
        ensures
            r.last_fired@ == Map::<i64, i64>::empty(),
            r.started_at == started_at,
    {
        SchedulerState { last_fired: HashMap::new(), started_at }
    }

    /// Counts a task from `now` on (it was created, changed or enabled), so
    /// that times already past do not fire.
    pub fn reset(&mut self, id: i64, now: i64)
        ensures
            final(self).last_fired@ == old(self).last_fired@.insert(id, now),
            final(self).started_at == old(self).started_at,
    {
        self.last_fired.insert(id, now);
    }

    /// Forgets a task (it was deleted or disabled).
    pub fn forget(&mut self, id: i64)
        ensures
            final(self).last_fired@ == old(self).last_fired@.remove(id),
            final(self).started_at == old(self).started_at,
    {
        self.last_fired.remove(&id);
    }

    /// Where the search for a recurring task's next run starts.
    pub fn start_for(&self, id: i64, updated_at: i64, now: i64) -> (r: i64)
        ensures
            r == start_spec(lookup(self.last_fired@, id), updated_at, self.started_at, now),
    {
        match self.last_fired.get(&id) {
            Some(t) => if *t >= updated_at { *t } else { now },
            None => self.started_at,
        }
    }

    /// Decides whether a task fires at `now`, from its one-off time `once`
    /// (a one-off task) or its next run `next` (a recurring task); a recurring
    /// task that fires is remembered as having fired at that run.
    pub fn fire(&mut self, id: i64, one_off: bool, once: Option<i64>, next: Option<i64>, now: i64) -> (fired: bool)
        ensures
            fired == fires(one_off, once, next, now),
            final(self).last_fired@ == after_fire(old(self).last_fired@, id, one_off, once, next, now),
            final(self).started_at == old(self).started_at,
    {
        if one_off {
            match once {
                Some(a) => a <= now,
                None => false,
            }
        } else {
            match next {
                Some(x) => if x <= now {
                    self.last_fired.insert(id, x);
                    true
                } else {
                    false
                },
                None => false,
            }
        }
    }

    /// The tasks due at `now`, by position, in order. A one-off task is due
    /// once its time has come. A recurring task is due when its next run
    /// after its start (see [`start_spec`]) has come; that run is then
    /// remembered as when it last fired. Nothing else is remembered or
    /// forgotten.
    pub fn due_tasks(&mut self, tasks: &Vec<TaskRecord>, now: i64) -> (r: Vec<usize>)
        ensures
            exists|onces: Seq<Option<i64>>, nexts: Seq<Option<i64>>|
                #![trigger tick_fired(tasks@, onces, nexts, now)]
                onces.len() == tasks@.len() && nexts.len() == tasks@.len()
                && (forall|k: int| 0 <= k < tasks@.len() ==> #[trigger] tick_inputs(tasks@, onces, nexts,
                    old(self).last_fired@, old(self).started_at, now, k))
                && r@ == tick_fired(tasks@, onces, nexts, now)
                && final(self).last_fired@ == tick_memory(tasks@, onces, nexts, old(self).last_fired@, now),
            final(self).started_at == old(self).started_at,
            forall|a: int| 0 <= a < r@.len() ==> #[trigger] r@[a] < tasks@.len(),
            forall|a: int, b: int| 0 <= a < b < r@.len() ==> r@[a] < r@[b],
    {
        let ghost start = self.last_fired@;
        let ghost started = self.started_at;
        let ghost mut onces: Seq<Option<i64>> = Seq::empty();
        let ghost mut nexts: Seq<Option<i64>> = Seq::empty();
        let mut fired: Vec<usize> = Vec::new();
        let mut i: usize = 0;
        let once = str_chars("once");
        while i < tasks.len()
            invariant
                i <= tasks@.len(),
                once@ == "once"@,
                onces.len() == i,
                nexts.len() == i,
                self.started_at == started,
                forall|k: int| 0 <= k < i ==> #[trigger] tick_inputs(tasks@, onces, nexts, start, started, now, k),
                fired@ == tick_fired(tasks@, onces, nexts, now),
                self.last_fired@ == tick_memory(tasks@, onces, nexts, start, now),
            decreases tasks@.len() - i,
        {
            let task = &tasks[i];
            let is_once = chars_eq(str_chars(task.kind.as_str()).as_slice(), once.as_slice());
            let (o, x) = if is_once {
                (once_at(task.schedule.as_str()), None)
            } else {
                let from = self.start_for(task.id, task.updated_at, now);
                (None, next_recurring(task.schedule.as_str(), from))
            };
            let ghost old_onces = onces;
            let ghost old_nexts = nexts;
            let due = self.fire(task.id, is_once, o, x, now);
            if due {
                fired.push(i);
            }
            proof {
                onces = onces.push(o);
                nexts = nexts.push(x);
                assert(onces.drop_last() =~= old_onces);
                assert(nexts.drop_last() =~= old_nexts);
                assert(onces.take(i as int) =~= old_onces);
                assert(nexts.take(i as int) =~= old_nexts);
                assert forall|k: int| 0 <= k < i + 1 implies #[trigger] tick_inputs(tasks@, onces, nexts, start, started, now, k) by {
                    if k < i {
                        assert(onces.take(k) =~= old_onces.take(k));
                        assert(nexts.take(k) =~= old_nexts.take(k));
                        assert(onces[k] == old_onces[k]);
                        assert(nexts[k] == old_nexts[k]);
                        assert(tick_inputs(tasks@, old_onces, old_nexts, start, started, now, k));
                    }
                }
            }
            i = i + 1;
        }
        proof {
            lemma_tick_fired_positions(tasks@, onces, nexts, now);
        }
        fired
    }
}

/// The ids of the one-off tasks among those that fired (by position), in
/// firing order: a one-off task is deleted once it has fired.
pub open spec fn fired_one_offs(tasks: Seq<TaskRecord>, fired: Seq<usize>) -> Seq<i64>
    decreases fired.len(),
{
    if fired.len() == 0 {
        Seq::empty()
    } else {
        let rest = fired_one_offs(tasks, fired.drop_last());
        let t = tasks[fired.last() as int];
        if one_off(t) { rest.push(t.id) } else { rest }
    }
}

/// The tasks to delete after a tick: the one-off tasks that fired.
pub fn one_offs_to_delete(tasks: &Vec<TaskRecord>, fired: &Vec<usize>) -> (r: Vec<i64>)
    requires
        forall|a: int| 0 <= a < fired@.len() ==> fired@[a] < tasks@.len(),
    ensures
        r@ == fired_one_offs(tasks@, fired@),
{
    let once = str_chars("once");
    let mut out: Vec<i64> = Vec::new();
    let mut i: usize = 0;
    while i < fired.len()
        invariant
            i <= fired@.len(),
            once@ == "once"@,
            forall|a: int| 0 <= a < fired@.len() ==> fired@[a] < tasks@.len(),
            out@ == fired_one_offs(tasks@, fired@.take(i as int)),
        decreases fired@.len() - i,
    {
        assert(fired@.take(i + 1).drop_last() =~= fired@.take(i as int));
        let t = &tasks[fired[i]];
        if chars_eq(str_chars(t.kind.as_str()).as_slice(), once.as_slice()) {
            out.push(t.id);
        }
        i = i + 1;
    }
    assert(fired@.take(fired@.len() as int) =~= fired@);
    out
}

/// A task that was reset at `now` (created, changed or enabled) counts its
/// runs from `now` on, whatever it fired before, as long as it was not
/// changed again since.
pub proof fn lemma_reset_counts_from_now(m: Map<i64, i64>, id: i64, now: i64, updated_at: i64, started_at: i64, later: i64)
    requires
        updated_at <= now,
    ensures
        start_spec(lookup(m.insert(id, now), id), updated_at, started_at, later) == now,
{
}

/// A task the scheduler has no record of (it never fired, or was forgotten)
/// counts its runs from the scheduler's start.
pub proof fn lemma_forget_counts_from_start(m: Map<i64, i64>, id: i64, updated_at: i64, started_at: i64, tick: i64)
    ensures
        start_spec(lookup(m.remove(id), id), updated_at, started_at, tick) == started_at,
{
}

/// The position of the first task with the earliest next run, among those
/// with one.
pub open spec fn is_first_earliest(ats: Seq<Option<i64>>, i: int) -> bool {
    &&& 0 <= i < ats.len()
    &&& ats[i] is Some
    &&& forall|j: int| 0 <= j < ats.len() && ats[j] is Some ==> ats[i]->0 <= ats[j]->0
    &&& forall|j: int| 0 <= j < i && ats[j] is Some ==> ats[i]->0 < ats[j]->0
}

/// Picks the task that runs next, from each task's next run (when it has
/// one): the first with the earliest time.
pub fn pick_next(ats: &Vec<Option<i64>>) -> (r: Option<usize>)
    ensures
        match r {
            Some(i) => is_first_earliest(ats@, i as int),
            None => forall|j: int| 0 <= j < ats@.len() ==> ats@[j] is None,
        },
{
    let mut best: Option<usize> = None;
    let mut i: usize = 0;
    while i < ats.len()
        invariant
            i <= ats@.len(),
            match best {
                Some(b) => b < i && ats@[b as int] is Some
                    && (forall|j: int| 0 <= j < i && ats@[j] is Some ==> ats@[b as int]->0 <= ats@[j]->0)
                    && (forall|j: int| 0 <= j < b && ats@[j] is Some ==> ats@[b as int]->0 < ats@[j]->0),
                None => forall|j: int| 0 <= j < i ==> ats@[j] is None,
            },
        decreases ats@.len() - i,
    {
        if let Some(at) = ats[i] {
            let better = match best {
                Some(b) => match ats[b] {
                    Some(cur) => at < cur,
                    None => true,
                },
                None => true,
            };
            if better {
                best = Some(i);
            }
        }
        i = i + 1;
    }
    best
}

} // verus!
