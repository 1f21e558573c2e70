use vstd::prelude::*;
use crate::habit::{
    completed_at, in_current_period, last_full_week_start, reconciled, same_week, HabitFrequency,
    HabitView,
};
use crate::codec::{bool_text, frequency_of, frequency_text, line_with, record_of, LoadError};
use crate::text::{
    decimal, free_of, lemma_decimal_value, lemma_split_join, lemma_split_single, padded,
    split_on, u16_value, all_spaces,
};
use crate::timestamp::{date_exists, iso_week_of_day, monday_of, timestamp_of_text, Timestamp};

verus! {

/// A daily habit last recorded today is left exactly as it is by reconciliation,
/// whatever its completion flag and streak.
pub proof fn daily_same_day_is_unchanged(h: HabitView, now: Timestamp)
    requires
        h.frequency == HabitFrequency::Daily,
        h.last_recorded_timestamp.day == now.day,
    ensures
        reconciled(h, now) == h,
{
}

/// A daily habit last recorded yesterday keeps its streak and loses its completion
/// flag; one last recorded two or more days ago loses its streak.
pub proof fn daily_grace_window(h: HabitView, now: Timestamp)
    requires
        h.frequency == HabitFrequency::Daily,
    ensures
        h.last_recorded_timestamp.day + 1 == now.day ==> {
            &&& !reconciled(h, now).completed
            &&& reconciled(h, now).streak == h.streak
        },
        h.last_recorded_timestamp.day + 2 <= now.day ==> reconciled(h, now).streak == 0,
{
}

/// A weekly habit last recorded on the Monday of the week before the current one keeps
/// its streak and loses its completion flag; one last recorded before that Monday loses
/// both.
pub proof fn weekly_boundary(h: HabitView, now: Timestamp)
    requires
        h.wf(),
        now.wf(),
        h.frequency == HabitFrequency::Weekly,
    ensures
        h.last_recorded_timestamp.day == last_full_week_start(now) ==> {
            &&& reconciled(h, now).streak == h.streak
            &&& !reconciled(h, now).completed
        },
        h.last_recorded_timestamp.day < last_full_week_start(now) ==> {
            &&& reconciled(h, now).streak == 0
            &&& !reconciled(h, now).completed
        },
{
    let t = h.last_recorded_timestamp;
    if t.day <= last_full_week_start(now) {
        assert(date_exists(now.day as int));
        assert(monday_of(t.day as int) < monday_of(now.day as int));
        assert((t.iso_year, t.iso_week) != iso_week_of_day(now.day as int));
        assert(!same_week(t, now));
    }
}

/// With `now` in January, a monthly habit last recorded in November of the year before
/// loses its streak, and one last recorded in December of the year before keeps its
/// streak and loses its completion flag.
pub proof fn monthly_year_wraparound(h: HabitView, now: Timestamp)
    requires
        h.frequency == HabitFrequency::Monthly,
        now.month == 1,
        h.last_recorded_timestamp.year == now.year - 1,
    ensures
        h.last_recorded_timestamp.month == 11 ==> reconciled(h, now).streak == 0,
        h.last_recorded_timestamp.month == 12 ==> {
            &&& reconciled(h, now).streak == h.streak
            &&& !reconciled(h, now).completed
        },
{
}

/// Marking complete a habit that is already completed changes nothing, its streak and
/// recorded instant included; so marking any habit complete a second time, at any
/// instant, leaves it as the first marking did.
pub proof fn completing_twice_is_a_no_op(h: HabitView, first: Timestamp, second: Timestamp)
    ensures
        h.completed ==> completed_at(h, second) == h,
        completed_at(completed_at(h, first), second) == completed_at(h, first),
{
}

/// After reconciliation with `now`, and after marking complete at `now` what was
/// reconciled, a habit that is completed was recorded within the current period.
pub proof fn completion_lies_in_current_period(h: HabitView, now: Timestamp)
    ensures
        reconciled(h, now).completed ==> in_current_period(
            h.frequency,
            h.last_recorded_timestamp,
            now,
        ),
        ({
            let c = completed_at(reconciled(h, now), now);
            c.completed && in_current_period(c.frequency, c.last_recorded_timestamp, now)
        }),
{
}

/// A stored line reads back as the habit it was written from, given that the name holds
/// no `/` and that the instant's text holds no `/` and reads back as the same instant.
pub proof fn lemma_line_round_trip(h: HabitView, stamp: Seq<char>)
    requires
        h.wf(),
        free_of(h.habit, '/'),
        free_of(stamp, '/'),
        timestamp_of_text(stamp) == Some(h.last_recorded_timestamp),
    ensures
        record_of(line_with(h, stamp)) == Ok::<Option<HabitView>, LoadError>(Some(h)),
{
    reveal_strlit("true");
    reveal_strlit("false");
    reveal_strlit("daily");
    reveal_strlit("weekly");
    reveal_strlit("monthly");
    let b = bool_text(h.completed);
    let f = frequency_text(h.frequency);
    let d = decimal(h.streak as nat);
    lemma_decimal_value(h.streak as nat);
    assert(free_of(b, '/'));
    assert(free_of(f, '/'));
    assert(free_of(d, '/')) by {
        assert forall|i: int| 0 <= i < d.len() implies #[trigger] d[i] != '/' by {
            assert(crate::text::is_digit(d[i]));
        }
    }
    let p1 = h.habit.push('/') + b;
    let p2 = p1.push('/') + f;
    let p3 = p2.push('/') + stamp;
    lemma_split_single(h.habit, '/');
    lemma_split_join(h.habit, b, '/');
    assert(split_on(p1, '/') == seq![h.habit, b]);
    lemma_split_join(p1, f, '/');
    assert(split_on(p2, '/') == seq![h.habit, b, f]);
    lemma_split_join(p2, stamp, '/');
    assert(split_on(p3, '/') == seq![h.habit, b, f, stamp]);
    lemma_split_join(p3, d, '/');
    assert(line_with(h, stamp) == p3.push('/') + d);
    let fields = split_on(line_with(h, stamp), '/');
    assert(fields =~= seq![h.habit, b, f, stamp, d]);
    assert(d.skip(0) == d);
    assert(u16_value(d) == Some(h.streak));
    assert(frequency_of(f) == h.frequency);
    if h.completed {
        assert(b.take(0) =~= Seq::<char>::empty());
        assert(b.subrange(0, 4) =~= b);
        assert(b.skip(4) =~= Seq::<char>::empty());
        assert(all_spaces(b.take(0)));
        assert(all_spaces(b.skip(4)));
        assert(b == "true"@);
        assert(b.subrange(0, 0 + "true"@.len() as int) == "true"@);
        assert(padded(b, "true"@));
    } else {
        assert(!padded(b, "true"@)) by {
            if padded(b, "true"@) {
                let i = choose|i: int|
                    0 <= i && i + 4 <= b.len() && all_spaces(b.take(i)) && #[trigger] b.subrange(
                        i,
                        i + 4,
                    ) == "true"@ && all_spaces(b.skip(i + 4));
                if i == 0 {
                    assert(b.subrange(0, 4)[0] == 'f');
                } else {
                    assert(b.take(i)[0] == 'f');
                }
            }
        }
    }
}

} // verus!
