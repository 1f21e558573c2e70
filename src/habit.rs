use vstd::prelude::*;
use crate::timestamp::Timestamp;

verus! {

/// How often a habit is meant to be done.
#[derive(Clone, Copy, Debug, PartialEq, Eq, Structural)]
pub enum HabitFrequency {
    Daily,
    Weekly,
    Monthly,
}

/// One tracked habit and its temporal state.
pub struct Habit {
    /// The habit's name.
    pub habit: String,
    /// Whether the habit was marked done in the current period.
    pub completed: bool,
    /// The period over which completion is tracked.
    pub frequency: HabitFrequency,
    /// The latest completion, or the creation if it was never completed.
    pub last_recorded_timestamp: Timestamp,
    /// Consecutive periods completed.
    pub streak: u16,
}

/// The record of a habit as a mathematical value.
pub ghost struct HabitView {
    pub habit: Seq<char>,
    pub completed: bool,
    pub frequency: HabitFrequency,
    pub last_recorded_timestamp: Timestamp,
    pub streak: u16,
}

impl View for Habit {
    type V = HabitView;

    open spec fn view(&self) -> HabitView {
        HabitView {
            habit: self.habit@,
            completed: self.completed,
            frequency: self.frequency,
            last_recorded_timestamp: self.last_recorded_timestamp,
            streak: self.streak,
        }
    }
}

impl HabitView {
    /// The recorded instant is a well-formed timestamp.
    pub open spec fn wf(&self) -> bool {
        self.last_recorded_timestamp.wf()
    }
}

/// `t` falls on the same UTC date as `now`.
pub open spec fn same_day(t: Timestamp, now: Timestamp) -> bool {
    t.day == now.day
}

/// `t` falls on the UTC date before that of `now`.
pub open spec fn yesterday_of(t: Timestamp, now: Timestamp) -> bool {
    t.day + 1 == now.day
}

/// Day number of the Monday that starts the ISO week before the one of `now`.
pub open spec fn last_full_week_start(now: Timestamp) -> int {
    now.day - now.weekday - 7
}

/// `t` falls before the Monday of the week preceding the week of `now`.
pub open spec fn before_last_full_week(t: Timestamp, now: Timestamp) -> bool {
    t.day < last_full_week_start(now)
}

/// `t` and `now` lie in the same ISO week and the same calendar year.
pub open spec fn same_week(t: Timestamp, now: Timestamp) -> bool {
    t.iso_year == now.iso_year && t.iso_week == now.iso_week && t.year == now.year
}

/// Months counted from January of year 0.
pub open spec fn month_index(t: Timestamp) -> int {
    t.year * 12 + t.month - 1
}

/// `t` and `now` lie in the same month of the same year.
pub open spec fn same_month(t: Timestamp, now: Timestamp) -> bool {
    t.year == now.year && t.month == now.month
}

/// `t` falls before the first day of the month preceding the month of `now`.
pub open spec fn before_last_full_month(t: Timestamp, now: Timestamp) -> bool {
    month_index(t) < month_index(now) - 1
}

/// `t` lies in the period of `now` that a habit of this frequency tracks.
pub open spec fn in_current_period(frequency: HabitFrequency, t: Timestamp, now: Timestamp) -> bool {
    match frequency {
        HabitFrequency::Daily => same_day(t, now),
        HabitFrequency::Weekly => same_week(t, now),
        HabitFrequency::Monthly => same_month(t, now),
    }
}

/// The state of a habit after reconciling it with the instant `now`:
/// the completion flag is cleared once a new period has begun, and the
/// streak is zeroed once a whole period has gone by without completion.
pub open spec fn reconciled(h: HabitView, now: Timestamp) -> HabitView {
    let t = h.last_recorded_timestamp;
    match h.frequency {
        HabitFrequency::Daily => {
            if same_day(t, now) {
                h
            } else {
                HabitView {
                    completed: false,
                    streak: if yesterday_of(t, now) { h.streak } else { 0 },
                    ..h
                }
            }
        },
        HabitFrequency::Weekly => HabitView {
            completed: h.completed && same_week(t, now),
            streak: if before_last_full_week(t, now) { 0 } else { h.streak },
            ..h
        },
        HabitFrequency::Monthly => HabitView {
            completed: h.completed && same_month(t, now),
            streak: if before_last_full_month(t, now) { 0 } else { h.streak },
            ..h
        },
    }
}

/// Whether `date` falls on the day before `now`.
pub fn is_yesterday(date: &Timestamp, now: &Timestamp) -> (r: bool)
    ensures
        r == yesterday_of(*date, *now),
{
    date.day as i64 + 1 == now.day as i64
}

/// Whether `date` falls before the Monday that starts the week before the week of `now`.
pub fn is_older_than_last_full_week(date: &Timestamp, now: &Timestamp) -> (r: bool)
    ensures
        r == before_last_full_week(*date, *now),
{
    let days_since_monday = now.weekday as i64;
    let current_week_start = now.day as i64 - days_since_monday;
    let last_full_week_start = current_week_start - 7;
    (date.day as i64) < last_full_week_start
}

/// Whether `date` falls before the first day of the month before the month of `now`.
pub fn is_older_than_last_full_month(date: &Timestamp, now: &Timestamp) -> (r: bool)
    requires
        date.wf(),
        now.wf(),
    ensures
        r == before_last_full_month(*date, *now),
{
    let (last_year, last_month): (i64, u32) = if now.month == 1 {
        (now.year as i64 - 1, 12)
    } else {
        (now.year as i64, now.month - 1)
    };
    (date.year as i64) < last_year || (date.year as i64 == last_year && date.month < last_month)
}

/// The state of a habit after it is marked complete at `now`: a habit already
/// completed in this period is left as it is; otherwise it becomes completed,
/// its streak grows by one (saturating) and its recorded instant becomes `now`.
pub open spec fn completed_at(h: HabitView, now: Timestamp) -> HabitView {
    if h.completed {
        h
    } else {
        HabitView {
            completed: true,
            streak: if h.streak < u16::MAX { (h.streak + 1) as u16 } else { h.streak },
            last_recorded_timestamp: now,
            ..h
        }
    }
}

/// The outcome of marking a habit complete.
#[derive(Clone, Copy, Debug, PartialEq, Eq, Structural)]
pub enum Completion {
    /// The habit was not yet completed in this period and now is.
    Recorded,
    /// The habit was already completed in this period of the given frequency.
    AlreadyDone(HabitFrequency),
}

/// A selection that names no habit of the listing.
#[derive(Clone, Copy, Debug, PartialEq, Eq, Structural)]
pub enum SelectionError {
    /// The 1-based position is zero or past the end of the listing.
    OutOfRange,
}

/// The period that a frequency tracks, as it is named to the user.
pub fn period_name(frequency: HabitFrequency) -> (r: &'static str)
    ensures
        frequency == HabitFrequency::Daily ==> r@ == "this day"@,
        frequency == HabitFrequency::Weekly ==> r@ == "this week"@,
        frequency == HabitFrequency::Monthly ==> r@ == "this month"@,
{
    match frequency {
        HabitFrequency::Daily => "this day",
        HabitFrequency::Monthly => "this month",
        HabitFrequency::Weekly => "this week",
    }
}

impl Habit {
    /// A new habit, not completed, with no streak, recorded at `now`.
    pub fn new(habit: String, frequency: HabitFrequency, now: &Timestamp) -> (r: Habit)
        ensures
            r@ == (HabitView {
                habit: habit@,
                completed: false,
                frequency,
                last_recorded_timestamp: *now,
                streak: 0,
            }),
    {
        Habit { habit, frequency, completed: false, streak: 0, last_recorded_timestamp: *now }
    }

    /// Marks this habit complete at `now` (see `completed_at`); returns whether it
    /// was not already completed.
    pub fn mark_complete(&mut self, now: &Timestamp) -> (r: bool)
        ensures
            r == !old(self).completed,
            final(self)@ == completed_at(old(self)@, *now),
    {
        if self.completed {
            false
        } else {
            self.completed = true;
            self.streak = self.streak.saturating_add(1);
            self.last_recorded_timestamp = *now;
            true
        }
    }

    /// Marks complete at `now` the habit at the 1-based position `selection` of
    /// `habits`, leaving the others as they are.
    pub fn complete(habits: &mut Vec<Habit>, selection: usize, now: &Timestamp) -> (r: Result<
        Completion,
        SelectionError,
    >)
        ensures
            1 <= selection <= old(habits)@.len() ==> r is Ok,
            (selection == 0 || selection > old(habits)@.len()) <==> r == Err::<
                Completion,
                SelectionError,
            >(SelectionError::OutOfRange),
            r is Err ==> final(habits)@ == old(habits)@,
            r is Ok ==> {
                let i = selection - 1;
                &&& final(habits)@.len() == old(habits)@.len()
                &&& forall|j: int|
                    0 <= j < old(habits)@.len() && j != i ==> final(habits)@[j] == old(habits)@[j]
                &&& final(habits)@[i]@ == completed_at(old(habits)@[i]@, *now)
                &&& old(habits)@[i].completed ==> r == Ok::<Completion, SelectionError>(
                    Completion::AlreadyDone(old(habits)@[i].frequency),
                )
                &&& !old(habits)@[i].completed ==> r == Ok::<Completion, SelectionError>(
                    Completion::Recorded,
                )
            },
    {
        if selection == 0 || selection > habits.len() {
            return Err(SelectionError::OutOfRange);
        }
        let i = selection - 1;
        let mut h = habits.remove(i);
        let frequency = h.frequency;
        let recorded = h.mark_complete(now);
        habits.insert(i, h);
        if recorded {
            Ok(Completion::Recorded)
        } else {
            Ok(Completion::AlreadyDone(frequency))
        }
    }

    /// Reconciles every habit of `habits` with the single instant `now`.
    pub fn init(habits: &mut Vec<Habit>, now: &Timestamp)
        requires
            now.wf(),
            forall|j: int| 0 <= j < old(habits)@.len() ==> (#[trigger] old(habits)@[j])@.wf(),
        ensures
            final(habits)@.len() == old(habits)@.len(),
            forall|j: int|
                0 <= j < old(habits)@.len() ==> (#[trigger] final(habits)@[j])@ == reconciled(
                    old(habits)@[j]@,
                    *now,
                ),
    {
        let n = habits.len();
        let mut i: usize = 0;
        while i < n
            invariant
                i <= n,
                n == old(habits)@.len(),
                habits@.len() == n,
                now.wf(),
                forall|j: int| 0 <= j < i ==> (#[trigger] habits@[j])@ == reconciled(
                    old(habits)@[j]@,
                    *now,
                ),
                forall|j: int| i <= j < n ==> #[trigger] habits@[j] == old(habits)@[j],
                forall|j: int| 0 <= j < n ==> (#[trigger] old(habits)@[j])@.wf(),
            decreases n - i,
        {
            let mut h = habits.remove(i);
            h.reconcile(now);
            habits.insert(i, h);
            i += 1;
        }
    }

    /// Reconciles this habit with the instant `now` (see `reconciled`).
    pub fn reconcile(&mut self, now: &Timestamp)
        requires
            old(self)@.wf(),
            now.wf(),
        ensures
            final(self)@ == reconciled(old(self)@, *now),
            final(self)@.wf(),
    {
        let t = self.last_recorded_timestamp;
        match self.frequency {
            HabitFrequency::Daily => {
                if t.day == now.day {
                    return ;
                }
                self.completed = false;
                if !is_yesterday(&t, now) {
                    self.streak = 0;
                }
            },
            HabitFrequency::Weekly => {
                if !(t.iso_year == now.iso_year && t.iso_week == now.iso_week && t.year
                    == now.year) {
                    self.completed = false;
                }
                if is_older_than_last_full_week(&t, now) {
                    self.streak = 0;
                }
            },
            HabitFrequency::Monthly => {
                if !(t.year == now.year && t.month == now.month) {
                    self.completed = false;
                }
                if is_older_than_last_full_month(&t, now) {
                    self.streak = 0;
                }
            },
        }
    }
}

} // verus!
