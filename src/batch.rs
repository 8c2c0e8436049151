//! The daily batch: for every member, a blank attendance record for today,
//! then the monthly days-attended counter from yesterday's presence, then a
//! blank status-update record for today.
//!
//! The batch is a state machine. The caller performs each step it hands out
//! against the store and hands back the outcome; no outcome, failures
//! included, stops the batch early, and each member is visited in turn.
use vstd::prelude::*;
use crate::calendar::{calendar_year_month, year_month_of};

verus! {

/// One operation on the store.
#[derive(Clone, Copy, Debug, PartialEq, Eq, Structural)]
pub enum BatchStep {
    /// Insert a record for (member, date), absent and without times, unless
    /// one exists already.
    InsertAttendance { member_id: i32, date: i32 },
    /// Read whether the member was present on the date.
    ReadPresence { member_id: i32, date: i32 },
    /// Read the member's days-attended counter for the month.
    ReadDaysAttended { member_id: i32, year: i32, month: u32 },
    /// Add one to the member's existing days-attended counter for the month.
    IncrementDaysAttended { member_id: i32, year: i32, month: u32 },
    /// Create the member's days-attended counter for the month at 1.
    CreateDaysAttended { member_id: i32, year: i32, month: u32 },
    /// Insert a status-update record for (member, date), not updated, unless
    /// one exists already.
    InsertStatusHistory { member_id: i32, date: i32 },
    /// Nothing is left to do.
    Finished,
}

/// What came of the step last handed out.
#[derive(Clone, Copy, Debug, PartialEq, Eq, Structural)]
pub enum StepOutcome {
    /// A write went through.
    Done,
    /// The step failed; the batch goes on.
    Failed,
    /// A presence read found the record.
    Presence(bool),
    /// A counter read found the counter, or found none.
    DaysAttended(Option<i32>),
}

/// Where the batch stands: the kind of the step last handed out.
#[derive(Clone, Copy, Debug, PartialEq, Eq, Structural)]
pub enum Phase {
    Start,
    Inserted,
    PresenceRead,
    CounterRead,
    CounterWritten,
    History,
    Finished,
}

/// The batch as a mathematical value.
pub struct BatchView {
    pub members: Seq<i32>,
    pub today: int,
    pub yesterday: int,
    pub month: Option<(i32, u32)>,
    pub phase: Phase,
    pub pos: int,
}

impl BatchView {
    pub open spec fn wf(self) -> bool {
        &&& self.yesterday == self.today - 1
        &&& i32::MIN <= self.yesterday
        &&& self.today <= i32::MAX
        &&& match self.phase {
            Phase::Start => self.pos == 0,
            Phase::Finished => self.pos == 0,
            _ => 0 <= self.pos < self.members.len(),
        }
    }

    pub open spec fn with_at(self, phase: Phase, pos: int) -> BatchView {
        BatchView { phase, pos, ..self }
    }

    /// The first status-update insert, or the end where there are no members.
    pub open spec fn history_start(self) -> (BatchView, BatchStep) {
        if self.members.len() > 0 {
            (
                self.with_at(Phase::History, 0),
                BatchStep::InsertStatusHistory { member_id: self.members[0], date: self.today as i32 },
            )
        } else {
            (self.with_at(Phase::Finished, 0), BatchStep::Finished)
        }
    }

    /// Moving on from the member at `pos` to the next one, or to the
    /// status-update pass after the last.
    pub open spec fn next_member(self) -> (BatchView, BatchStep) {
        if self.pos < self.members.len() - 1 {
            (
                self.with_at(Phase::Inserted, self.pos + 1),
                BatchStep::InsertAttendance {
                    member_id: self.members[self.pos + 1],
                    date: self.today as i32,
                },
            )
        } else {
            self.history_start()
        }
    }

    /// The next state and the step it hands out, given the outcome of the
    /// step last handed out.
    pub open spec fn transition(self, outcome: StepOutcome) -> (BatchView, BatchStep) {
        let m = self.members[self.pos];
        match self.phase {
            Phase::Start => if self.members.len() > 0 {
                (
                    self.with_at(Phase::Inserted, 0),
                    BatchStep::InsertAttendance { member_id: self.members[0], date: self.today as i32 },
                )
            } else {
                self.history_start()
            },
            Phase::Inserted => (
                self.with_at(Phase::PresenceRead, self.pos),
                BatchStep::ReadPresence { member_id: m, date: self.yesterday as i32 },
            ),
            Phase::PresenceRead => match (outcome, self.month) {
                (StepOutcome::Presence(true), Some(ym)) => (
                    self.with_at(Phase::CounterRead, self.pos),
                    BatchStep::ReadDaysAttended { member_id: m, year: ym.0, month: ym.1 },
                ),
                _ => self.next_member(),
            },
            Phase::CounterRead => match (outcome, self.month) {
                (StepOutcome::DaysAttended(Some(_)), Some(ym)) => (
                    self.with_at(Phase::CounterWritten, self.pos),
                    BatchStep::IncrementDaysAttended { member_id: m, year: ym.0, month: ym.1 },
                ),
                (StepOutcome::DaysAttended(None), Some(ym)) => (
                    self.with_at(Phase::CounterWritten, self.pos),
                    BatchStep::CreateDaysAttended { member_id: m, year: ym.0, month: ym.1 },
                ),
                _ => self.next_member(),
            },
            Phase::CounterWritten => self.next_member(),
            Phase::History => if self.pos < self.members.len() - 1 {
                (
                    self.with_at(Phase::History, self.pos + 1),
                    BatchStep::InsertStatusHistory {
                        member_id: self.members[self.pos + 1],
                        date: self.today as i32,
                    },
                )
            } else {
                (self.with_at(Phase::Finished, 0), BatchStep::Finished)
            },
            Phase::Finished => (self, BatchStep::Finished),
        }
    }
}

/// The daily batch over a fixed list of members for one date.
pub struct DailyBatch {
    members: Vec<i32>,
    today: i32,
    yesterday: i32,
    month: Option<(i32, u32)>,
    phase: Phase,
    pos: usize,
}

impl View for DailyBatch {
    type V = BatchView;

    closed spec fn view(&self) -> BatchView {
        BatchView {
            members: self.members@,
            today: self.today as int,
            yesterday: self.yesterday as int,
            month: self.month,
            phase: self.phase,
            pos: self.pos as int,
        }
    }
}

impl DailyBatch {
    /// A batch for the members of the store, for the date numbered `today`
    /// (as chrono's `num_days_from_ce` numbers dates). The counter steps use
    /// today's month, which chrono gives for every date from 0001-01-01 to
    /// 9999-12-31; outside that range they are left out.
    pub fn new(members: Vec<i32>, today: i32) -> (r: DailyBatch)
        requires
            today > i32::MIN,
        ensures
            r@.wf(),
            r@.members == members@,
            r@.today == today,
            r@.phase == Phase::Start,
            (r@.month matches Some(ym) ==> (ym.0 as int, ym.1 as int) == year_month_of(today as int)),
            1 <= today <= 3652059 ==> r@.month is Some,
    {
        let month = calendar_year_month(today);
        DailyBatch { members, today, yesterday: today - 1, month, phase: Phase::Start, pos: 0 }
    }

    fn history_start(&mut self) -> (r: BatchStep)
        requires
            old(self)@.wf(),
        ensures
            (final(self)@, r) == old(self)@.history_start(),
    {
        if self.members.len() > 0 {
            self.phase = Phase::History;
            self.pos = 0;
            BatchStep::InsertStatusHistory { member_id: self.members[0], date: self.today }
        } else {
            self.phase = Phase::Finished;
            self.pos = 0;
            BatchStep::Finished
        }
    }

    fn next_member(&mut self) -> (r: BatchStep)
        requires
            old(self)@.wf(),
            0 <= old(self)@.pos < old(self)@.members.len(),
        ensures
            (final(self)@, r) == old(self)@.next_member(),
    {
        if self.pos < self.members.len() - 1 {
            self.phase = Phase::Inserted;
            self.pos = self.pos + 1;
            BatchStep::InsertAttendance { member_id: self.members[self.pos], date: self.today }
        } else {
            self.history_start()
        }
    }

    /// Takes the outcome of the step last handed out (any outcome, for the
    /// first call) and hands out the next step.
    pub fn next(&mut self, outcome: StepOutcome) -> (r: BatchStep)
        requires
            old(self)@.wf(),
        ensures
            (final(self)@, r) == old(self)@.transition(outcome),
            final(self)@.wf(),
    {
        match self.phase {
            Phase::Start => {
                if self.members.len() > 0 {
                    self.phase = Phase::Inserted;
                    BatchStep::InsertAttendance { member_id: self.members[0], date: self.today }
                } else {
                    self.history_start()
                }
            },
            Phase::Inserted => {
                self.phase = Phase::PresenceRead;
                BatchStep::ReadPresence { member_id: self.members[self.pos], date: self.yesterday }
            },
            Phase::PresenceRead => match (outcome, self.month) {
                (StepOutcome::Presence(true), Some(ym)) => {
                    self.phase = Phase::CounterRead;
                    BatchStep::ReadDaysAttended { member_id: self.members[self.pos], year: ym.0, month: ym.1 }
                },
                _ => self.next_member(),
            },
            Phase::CounterRead => match (outcome, self.month) {
                (StepOutcome::DaysAttended(Some(_)), Some(ym)) => {
                    self.phase = Phase::CounterWritten;
                    BatchStep::IncrementDaysAttended { member_id: self.members[self.pos], year: ym.0, month: ym.1 }
                },
                (StepOutcome::DaysAttended(None), Some(ym)) => {
                    self.phase = Phase::CounterWritten;
                    BatchStep::CreateDaysAttended { member_id: self.members[self.pos], year: ym.0, month: ym.1 }
                },
                _ => self.next_member(),
            },
            Phase::CounterWritten => self.next_member(),
            Phase::History => {
                if self.pos < self.members.len() - 1 {
                    self.pos = self.pos + 1;
                    BatchStep::InsertStatusHistory { member_id: self.members[self.pos], date: self.today }
                } else {
                    self.phase = Phase::Finished;
                    self.pos = 0;
                    BatchStep::Finished
                }
            },
            Phase::Finished => BatchStep::Finished,
        }
    }
}

impl BatchView {
    /// How many members have had their attendance insert handed out.
    pub open spec fn inserted_count(self) -> int {
        match self.phase {
            Phase::Start => 0,
            Phase::History | Phase::Finished => self.members.len() as int,
            _ => self.pos + 1,
        }
    }

    /// An upper bound on the steps left before `Finished`.
    pub open spec fn steps_left(self) -> int {
        let n = self.members.len() as int;
        match self.phase {
            Phase::Start => 5 * n + 1,
            Phase::Inserted => n + 4 * (n - self.pos),
            Phase::PresenceRead => n + 4 * (n - self.pos) - 1,
            Phase::CounterRead => n + 4 * (n - self.pos) - 2,
            Phase::CounterWritten => n + 4 * (n - self.pos) - 3,
            Phase::History => n - self.pos,
            Phase::Finished => 0,
        }
    }
}

/// The state reached and the steps handed out when the outcomes `outcomes`
/// are fed to the batch in turn.
pub open spec fn run(v: BatchView, outcomes: Seq<StepOutcome>) -> (BatchView, Seq<BatchStep>)
    decreases outcomes.len(),
{
    if outcomes.len() == 0 {
        (v, Seq::empty())
    } else {
        let (w, steps) = run(v, outcomes.drop_last());
        let (x, step) = w.transition(outcomes.last());
        (x, steps.push(step))
    }
}

/// The members whose attendance insert appears among `steps`, in order.
pub open spec fn inserted_members(steps: Seq<BatchStep>) -> Seq<i32>
    decreases steps.len(),
{
    if steps.len() == 0 {
        Seq::empty()
    } else {
        let rest = inserted_members(steps.drop_last());
        match steps.last() {
            BatchStep::InsertAttendance { member_id, date } => rest.push(member_id),
            _ => rest,
        }
    }
}

/// Every attendance insert among `steps` is for the date `today`.
pub open spec fn inserts_dated(steps: Seq<BatchStep>, today: int) -> bool {
    forall|i: int| 0 <= i < steps.len() ==> (#[trigger] steps[i] matches BatchStep::InsertAttendance { date, .. } ==> date == today)
}

/// One step of the batch: an attendance insert is handed out for the next
/// member in order and for today, and only then; every step but the last
/// brings the end nearer.
pub proof fn lemma_step(v: BatchView, outcome: StepOutcome)
    requires
        v.wf(),
    ensures
        ({
            let (w, step) = v.transition(outcome);
            &&& w.wf()
            &&& w.members == v.members && w.today == v.today && w.yesterday == v.yesterday
            &&& w.month == v.month
            &&& (step matches BatchStep::InsertAttendance { member_id, date } ==> {
                &&& member_id == v.members[v.inserted_count()]
                &&& date == v.today
                &&& w.inserted_count() == v.inserted_count() + 1
            })
            &&& (!(step is InsertAttendance) ==> w.inserted_count() == v.inserted_count())
            &&& (step is Finished ==> w.phase == Phase::Finished)
            &&& 0 <= v.inserted_count() <= v.members.len()
            &&& 0 <= w.steps_left()
            &&& (v.phase != Phase::Finished ==> w.steps_left() < v.steps_left())
            &&& (v.phase == Phase::Finished ==> w == v && step is Finished)
        }),
{
}

proof fn lemma_run(v: BatchView, outcomes: Seq<StepOutcome>)
    requires
        v.wf(),
    ensures
        ({
            let (w, steps) = run(v, outcomes);
            &&& w.wf()
            &&& w.members == v.members && w.today == v.today
            &&& v.inserted_count() <= w.inserted_count()
            &&& inserted_members(steps) == v.members.subrange(v.inserted_count(), w.inserted_count())
            &&& inserts_dated(steps, v.today)
            &&& (w.phase == Phase::Finished || w.steps_left() + outcomes.len() <= v.steps_left())
        }),
    decreases outcomes.len(),
{
    if outcomes.len() == 0 {
        assert(v.members.subrange(v.inserted_count(), v.inserted_count()) =~= Seq::<i32>::empty());
    } else {
        let prev = outcomes.drop_last();
        lemma_run(v, prev);
        let (w, steps) = run(v, prev);
        lemma_step(w, outcomes.last());
        let (x, step) = w.transition(outcomes.last());
        let all = steps.push(step);
        assert(all.drop_last() =~= steps);
        assert(inserts_dated(all, v.today)) by {
            assert forall|i: int| 0 <= i < all.len() implies (#[trigger] all[i] matches BatchStep::InsertAttendance { date, .. } ==> date == v.today) by {
                if i < steps.len() {
                    assert(all[i] == steps[i]);
                }
            }
        }
        if step is InsertAttendance {
            assert(v.members.subrange(v.inserted_count(), x.inserted_count())
                =~= v.members.subrange(v.inserted_count(), w.inserted_count()).push(v.members[w.inserted_count()]));
        }
    }
}

/// Whatever the outcomes, a batch that has finished handed out exactly one
/// attendance insert per member, in the order of the members, all for today.
pub proof fn lemma_each_member_inserted_once(v: BatchView, outcomes: Seq<StepOutcome>)
    requires
        v.wf(),
        v.phase == Phase::Start,
        run(v, outcomes).0.phase == Phase::Finished,
    ensures
        inserted_members(run(v, outcomes).1) == v.members,
        inserts_dated(run(v, outcomes).1, v.today),
{
    lemma_run(v, outcomes);
    assert(v.members.subrange(0, v.members.len() as int) =~= v.members);
}

/// Whatever the outcomes, the batch finishes within `5 * n + 1` steps for
/// `n` members: no failure makes it stall.
pub proof fn lemma_batch_finishes(v: BatchView, outcomes: Seq<StepOutcome>)
    requires
        v.wf(),
        v.phase == Phase::Start,
        outcomes.len() >= 5 * v.members.len() + 1,
    ensures
        run(v, outcomes).0.phase == Phase::Finished,
{
    lemma_run(v, outcomes);
    let w = run(v, outcomes).0;
    if w.phase != Phase::Finished {
        assert(w.steps_left() >= 1);
    }
}

/// One attendance record; times are seconds past local midnight.
#[derive(Clone, Copy, Debug, PartialEq, Eq)]
pub struct AttendanceRecord {
    pub member_id: i32,
    pub date: i32,
    pub is_present: bool,
    pub time_in: Option<u32>,
    pub time_out: Option<u32>,
}

/// The record the batch creates: absent, with no times.
pub open spec fn blank_record_spec(member_id: i32, date: i32) -> AttendanceRecord {
    AttendanceRecord { member_id, date, is_present: false, time_in: None, time_out: None }
}

/// The record to insert for an `InsertAttendance` step.
pub fn blank_record(member_id: i32, date: i32) -> (r: AttendanceRecord)
    ensures
        r == blank_record_spec(member_id, date),
{
    AttendanceRecord { member_id, date, is_present: false, time_in: None, time_out: None }
}

/// The attendance table after a step, keyed by (member, date): an insert
/// where a record for the key exists already leaves the table as it is.
pub open spec fn apply_attendance(
    table: Map<(i32, i32), AttendanceRecord>,
    step: BatchStep,
) -> Map<(i32, i32), AttendanceRecord> {
    match step {
        BatchStep::InsertAttendance { member_id, date } => if table.contains_key((member_id, date)) {
            table
        } else {
            table.insert((member_id, date), blank_record_spec(member_id, date))
        },
        _ => table,
    }
}

/// The attendance table after the steps in turn.
pub open spec fn apply_attendance_steps(
    table: Map<(i32, i32), AttendanceRecord>,
    steps: Seq<BatchStep>,
) -> Map<(i32, i32), AttendanceRecord>
    decreases steps.len(),
{
    if steps.len() == 0 {
        table
    } else {
        apply_attendance(apply_attendance_steps(table, steps.drop_last()), steps.last())
    }
}

proof fn lemma_inserted_members_contains(steps: Seq<BatchStep>, i: int)
    requires
        0 <= i < steps.len(),
        steps[i] is InsertAttendance,
    ensures
        inserted_members(steps).contains(steps[i]->InsertAttendance_member_id),
    decreases steps.len(),
{
    let rest = inserted_members(steps.drop_last());
    if i < steps.len() - 1 {
        lemma_inserted_members_contains(steps.drop_last(), i);
        let j = choose|j: int| 0 <= j < rest.len() && rest[j] == steps[i]->InsertAttendance_member_id;
        if steps.last() is InsertAttendance {
            assert(inserted_members(steps)[j] == rest[j]);
        }
    } else {
        assert(inserted_members(steps) == rest.push(steps[i]->InsertAttendance_member_id));
        assert(inserted_members(steps)[rest.len() as int] == steps[i]->InsertAttendance_member_id);
    }
}

proof fn lemma_apply_keeps_and_covers(table: Map<(i32, i32), AttendanceRecord>, steps: Seq<BatchStep>)
    ensures
        forall|k: (i32, i32)| #[trigger] table.contains_key(k)
            ==> apply_attendance_steps(table, steps).contains_key(k) && apply_attendance_steps(table, steps)[k] == table[k],
        forall|i: int| 0 <= i < steps.len() && (#[trigger] steps[i] is InsertAttendance) ==>
            apply_attendance_steps(table, steps).contains_key(
                (steps[i]->InsertAttendance_member_id, steps[i]->InsertAttendance_date),
            ),
        forall|k: (i32, i32)| #[trigger] apply_attendance_steps(table, steps).contains_key(k) && !table.contains_key(k)
            ==> apply_attendance_steps(table, steps)[k] == blank_record_spec(k.0, k.1),
        forall|k: (i32, i32)| #[trigger] apply_attendance_steps(table, steps).contains_key(k) && !table.contains_key(k)
            ==> exists|i: int| 0 <= i < steps.len() && #[trigger] steps[i] == (BatchStep::InsertAttendance {
                member_id: k.0,
                date: k.1,
            }),
    decreases steps.len(),
{
    if steps.len() > 0 {
        let prev = steps.drop_last();
        lemma_apply_keeps_and_covers(table, prev);
        let before = apply_attendance_steps(table, prev);
        let after = apply_attendance_steps(table, steps);
        assert forall|k: (i32, i32)| #[trigger] after.contains_key(k) && !table.contains_key(k)
            implies exists|i: int| 0 <= i < steps.len() && #[trigger] steps[i] == (BatchStep::InsertAttendance {
                member_id: k.0,
                date: k.1,
            }) by {
            if before.contains_key(k) {
                let i = choose|i: int| 0 <= i < prev.len() && #[trigger] prev[i] == (BatchStep::InsertAttendance {
                    member_id: k.0,
                    date: k.1,
                });
                assert(steps[i] == prev[i]);
            } else {
                let last = steps.len() - 1;
                assert(steps[last] == steps.last());
            }
        }
        assert forall|i: int| 0 <= i < steps.len() && (#[trigger] steps[i] is InsertAttendance) implies
            apply_attendance_steps(table, steps).contains_key(
                (steps[i]->InsertAttendance_member_id, steps[i]->InsertAttendance_date),
            ) by {
            if i < steps.len() - 1 {
                assert(steps[i] == prev[i]);
            }
        }
    }
}

proof fn lemma_apply_present_is_noop(table: Map<(i32, i32), AttendanceRecord>, steps: Seq<BatchStep>)
    requires
        forall|i: int| 0 <= i < steps.len() && (#[trigger] steps[i] is InsertAttendance) ==>
            table.contains_key((steps[i]->InsertAttendance_member_id, steps[i]->InsertAttendance_date)),
    ensures
        apply_attendance_steps(table, steps) == table,
    decreases steps.len(),
{
    if steps.len() > 0 {
        let prev = steps.drop_last();
        assert forall|i: int| 0 <= i < prev.len() && (#[trigger] prev[i] is InsertAttendance) implies
            table.contains_key((prev[i]->InsertAttendance_member_id, prev[i]->InsertAttendance_date)) by {
            assert(prev[i] == steps[i]);
        }
        lemma_apply_present_is_noop(table, prev);
        assert(steps.last() == steps[steps.len() - 1]);
    }
}

/// After a finished batch, the table holds a record for (member, today) for
/// every member, and every record it held before is unchanged.
pub proof fn lemma_batch_materializes_today(
    v: BatchView,
    outcomes: Seq<StepOutcome>,
    table: Map<(i32, i32), AttendanceRecord>,
)
    requires
        v.wf(),
        v.phase == Phase::Start,
        run(v, outcomes).0.phase == Phase::Finished,
    ensures
        forall|j: int| 0 <= j < v.members.len() ==>
            apply_attendance_steps(table, run(v, outcomes).1).contains_key((#[trigger] v.members[j], v.today as i32)),
        forall|k: (i32, i32)| #[trigger] table.contains_key(k) ==>
            apply_attendance_steps(table, run(v, outcomes).1)[k] == table[k],
        forall|j: int| 0 <= j < v.members.len() && !table.contains_key((#[trigger] v.members[j], v.today as i32)) ==>
            apply_attendance_steps(table, run(v, outcomes).1)[(v.members[j], v.today as i32)]
                == blank_record_spec(v.members[j], v.today as i32),
{
    let steps = run(v, outcomes).1;
    lemma_each_member_inserted_once(v, outcomes);
    lemma_apply_keeps_and_covers(table, steps);
    assert forall|j: int| 0 <= j < v.members.len() implies
        apply_attendance_steps(table, steps).contains_key((#[trigger] v.members[j], v.today as i32)) by {
        lemma_inserted_member_has_step(steps, v.today, j);
        let i = choose|i: int| 0 <= i < steps.len() && #[trigger] steps[i] == (BatchStep::InsertAttendance {
            member_id: inserted_members(steps)[j],
            date: v.today as i32,
        });
        assert(steps[i] is InsertAttendance);
    }
}

proof fn lemma_inserted_member_has_step(steps: Seq<BatchStep>, today: int, j: int)
    requires
        inserts_dated(steps, today),
        0 <= j < inserted_members(steps).len(),
    ensures
        exists|i: int| 0 <= i < steps.len() && #[trigger] steps[i] == (BatchStep::InsertAttendance {
            member_id: inserted_members(steps)[j],
            date: today as i32,
        }),
    decreases steps.len(),
{
    let prev = steps.drop_last();
    let rest = inserted_members(prev);
    assert(inserts_dated(prev, today)) by {
        assert forall|i: int| 0 <= i < prev.len() implies (#[trigger] prev[i] matches BatchStep::InsertAttendance { date, .. } ==> date == today) by {
            assert(prev[i] == steps[i]);
        }
    }
    if j < rest.len() {
        lemma_inserted_member_has_step(prev, today, j);
        let i = choose|i: int| 0 <= i < prev.len() && #[trigger] prev[i] == (BatchStep::InsertAttendance {
            member_id: rest[j],
            date: today as i32,
        });
        assert(steps[i] == prev[i]);
        if steps.last() is InsertAttendance {
            assert(inserted_members(steps)[j] == rest[j]);
        }
    } else {
        let k = steps.len() - 1;
        assert(steps[k] == steps.last());
        assert(steps[k] == (BatchStep::InsertAttendance { member_id: inserted_members(steps)[j], date: today as i32 }));
    }
}

/// Running the batch a second time for the same day, after a finished run,
/// leaves the attendance table exactly as the first run left it.
pub proof fn lemma_batch_rerun_changes_nothing(
    v: BatchView,
    first: Seq<StepOutcome>,
    second: Seq<StepOutcome>,
    table: Map<(i32, i32), AttendanceRecord>,
)
    requires
        v.wf(),
        v.phase == Phase::Start,
        run(v, first).0.phase == Phase::Finished,
        run(v, second).0.phase == Phase::Finished,
    ensures
        apply_attendance_steps(apply_attendance_steps(table, run(v, first).1), run(v, second).1)
            == apply_attendance_steps(table, run(v, first).1),
{
    let after = apply_attendance_steps(table, run(v, first).1);
    let steps = run(v, second).1;
    lemma_batch_materializes_today(v, first, table);
    lemma_each_member_inserted_once(v, second);
    assert forall|i: int| 0 <= i < steps.len() && (#[trigger] steps[i] is InsertAttendance) implies
        after.contains_key((steps[i]->InsertAttendance_member_id, steps[i]->InsertAttendance_date)) by {
        lemma_inserted_members_contains(steps, i);
        let m = steps[i]->InsertAttendance_member_id;
        let j = choose|j: int| 0 <= j < v.members.len() && v.members[j] == m;
        assert(after.contains_key((v.members[j], v.today as i32)));
    }
    lemma_apply_present_is_noop(after, steps);
}

/// The days-attended table after a step, keyed by (member, year, month).
pub open spec fn apply_counter(table: Map<(i32, i32, u32), int>, step: BatchStep) -> Map<(i32, i32, u32), int> {
    match step {
        BatchStep::IncrementDaysAttended { member_id, year, month } => {
            let k = (member_id, year, month);
            if table.contains_key(k) {
                table.insert(k, table[k] + 1)
            } else {
                table
            }
        },
        BatchStep::CreateDaysAttended { member_id, year, month } => table.insert((member_id, year, month), 1),
        _ => table,
    }
}

/// What reading the counter for `k` from `table` gives.
pub open spec fn counter_read(table: Map<(i32, i32, u32), int>, k: (i32, i32, u32)) -> StepOutcome {
    if table.contains_key(k) {
        StepOutcome::DaysAttended(Some(table[k] as i32))
    } else {
        StepOutcome::DaysAttended(None)
    }
}

/// For the member whose presence was just read: present yesterday, the
/// counter for today's month is read and then raised by exactly one, or
/// created at 1; absent, or unknown because the read failed, no counter step
/// follows for that member.
pub proof fn lemma_counter_follows_presence(v: BatchView, presence: StepOutcome, table: Map<(i32, i32, u32), int>)
    requires
        v.wf(),
        v.phase == Phase::PresenceRead,
        v.month is Some,
    ensures
        ({
            let m = v.members[v.pos];
            let ym = v.month->0;
            let k = (m, ym.0, ym.1);
            let (w, read) = v.transition(presence);
            let (x, write) = w.transition(counter_read(table, k));
            if presence == StepOutcome::Presence(true) {
                &&& read == (BatchStep::ReadDaysAttended { member_id: m, year: k.1, month: k.2 })
                &&& apply_counter(table, write).contains_key(k)
                &&& apply_counter(table, write)[k] == (if table.contains_key(k) { table[k] + 1 } else { 1 })
                &&& forall|k2: (i32, i32, u32)| k2 != k ==> #[trigger] apply_counter(table, write).contains_key(k2)
                    == table.contains_key(k2) && apply_counter(table, write)[k2] == table[k2]
            } else {
                &&& !(read is ReadDaysAttended)
                &&& apply_counter(table, read) == table
            }
        }),
{
}

/// A finished batch adds no record but those for (member, today): every
/// record in the table afterwards was there before or is a member's record
/// for today.
pub proof fn lemma_batch_adds_only_today(
    v: BatchView,
    outcomes: Seq<StepOutcome>,
    table: Map<(i32, i32), AttendanceRecord>,
)
    requires
        v.wf(),
        v.phase == Phase::Start,
        run(v, outcomes).0.phase == Phase::Finished,
    ensures
        forall|k: (i32, i32)| #[trigger] apply_attendance_steps(table, run(v, outcomes).1).contains_key(k) ==>
            table.contains_key(k) || (k.1 == v.today && v.members.contains(k.0)),
{
    let steps = run(v, outcomes).1;
    lemma_each_member_inserted_once(v, outcomes);
    lemma_apply_keeps_and_covers(table, steps);
    assert forall|k: (i32, i32)| #[trigger] apply_attendance_steps(table, steps).contains_key(k) implies
        table.contains_key(k) || (k.1 == v.today && v.members.contains(k.0)) by {
        if !table.contains_key(k) {
            let i = choose|i: int| 0 <= i < steps.len() && #[trigger] steps[i] == (BatchStep::InsertAttendance {
                member_id: k.0,
                date: k.1,
            });
            lemma_inserted_members_contains(steps, i);
        }
    }
}

/// On a table that already holds a record for (member, today) for every
/// member, the batch changes nothing, however far it runs and whatever the
/// outcomes.
pub proof fn lemma_batch_on_complete_table_changes_nothing(
    v: BatchView,
    outcomes: Seq<StepOutcome>,
    table: Map<(i32, i32), AttendanceRecord>,
)
    requires
        v.wf(),
        v.phase == Phase::Start,
        forall|j: int| 0 <= j < v.members.len() ==> table.contains_key((#[trigger] v.members[j], v.today as i32)),
    ensures
        apply_attendance_steps(table, run(v, outcomes).1) == table,
{
    let steps = run(v, outcomes).1;
    lemma_run(v, outcomes);
    let seen = inserted_members(steps);
    assert forall|i: int| 0 <= i < steps.len() && (#[trigger] steps[i] is InsertAttendance) implies
        table.contains_key((steps[i]->InsertAttendance_member_id, steps[i]->InsertAttendance_date)) by {
        lemma_inserted_members_contains(steps, i);
        let m = steps[i]->InsertAttendance_member_id;
        let j = choose|j: int| 0 <= j < seen.len() && seen[j] == m;
        assert(seen[j] == v.members[run(v, outcomes).0.inserted_count() - seen.len() + j]) by {
            assert(seen == v.members.subrange(v.inserted_count(), run(v, outcomes).0.inserted_count()));
        }
        assert(table.contains_key((v.members[j], v.today as i32)));
    }
    lemma_apply_present_is_noop(table, steps);
}

/// The attendance table after batches run in turn on the same day, the
/// outcomes of each run given by one entry of `runs`.
pub open spec fn apply_batches(
    table: Map<(i32, i32), AttendanceRecord>,
    v: BatchView,
    runs: Seq<Seq<StepOutcome>>,
) -> Map<(i32, i32), AttendanceRecord>
    decreases runs.len(),
{
    if runs.len() == 0 {
        table
    } else {
        apply_attendance_steps(apply_batches(table, v, runs.drop_last()), run(v, runs.last()).1)
    }
}

/// Any number of finished batches on the same day leave the table as the
/// first one left it.
pub proof fn lemma_repeated_batches(
    v: BatchView,
    runs: Seq<Seq<StepOutcome>>,
    table: Map<(i32, i32), AttendanceRecord>,
)
    requires
        v.wf(),
        v.phase == Phase::Start,
        runs.len() >= 1,
        forall|i: int| 0 <= i < runs.len() ==> (#[trigger] run(v, runs[i])).0.phase == Phase::Finished,
    ensures
        apply_batches(table, v, runs) == apply_attendance_steps(table, run(v, runs[0]).1),
    decreases runs.len(),
{
    let prev = runs.drop_last();
    assert(runs.last() == runs[runs.len() - 1]);
    assert(run(v, runs[runs.len() - 1]).0.phase == Phase::Finished);
    if runs.len() == 1 {
        assert(runs.last() == runs[0]);
        assert(apply_batches(table, v, prev) == table);
    } else {
        assert forall|i: int| 0 <= i < prev.len() implies (#[trigger] run(v, prev[i])).0.phase == Phase::Finished by {
            assert(prev[i] == runs[i]);
        }
        lemma_repeated_batches(v, prev, table);
        assert(prev[0] == runs[0]);
        let first = apply_attendance_steps(table, run(v, runs[0]).1);
        lemma_batch_materializes_today(v, runs[0], table);
        lemma_batch_on_complete_table_changes_nothing(v, runs.last(), first);
    }
}

} // verus!
