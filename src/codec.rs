use vstd::prelude::*;
use crate::habit::{Habit, HabitFrequency, HabitView};
use crate::text::{
    chars_of, decimal, decimal_chars, free_of, is_padded, padded, parse_u16, same_text,
    split_chars, split_on, string_of, text_lines, lines_of, u16_value, is_digit,
    lemma_decimal_value, lemma_split_extend, lemma_split_nonempty, strip_cr,
};
use crate::timestamp::{in_four_digit_years, rfc3339_text, timestamp_of_text, Timestamp};

verus! {

/// How a frequency is stored.
pub open spec fn frequency_text(f: HabitFrequency) -> Seq<char> {
    match f {
        HabitFrequency::Daily => "daily"@,
        HabitFrequency::Weekly => "weekly"@,
        HabitFrequency::Monthly => "monthly"@,
    }
}

/// The frequency that a stored text names; any unknown text reads as daily.
pub open spec fn frequency_of(s: Seq<char>) -> HabitFrequency {
    if s == "weekly"@ {
        HabitFrequency::Weekly
    } else if s == "monthly"@ {
        HabitFrequency::Monthly
    } else {
        HabitFrequency::Daily
    }
}

/// How a completion flag is stored.
pub open spec fn bool_text(b: bool) -> Seq<char> {
    if b {
        "true"@
    } else {
        "false"@
    }
}

/// The stored line of a habit, given the text of its recorded instant: five fields
/// separated by `/`, namely name, completion flag, frequency, instant and streak.
pub open spec fn line_with(h: HabitView, stamp: Seq<char>) -> Seq<char> {
    (((h.habit.push('/') + bool_text(h.completed)).push('/') + frequency_text(h.frequency)).push(
        '/',
    ) + stamp).push('/') + decimal(h.streak as nat)
}

/// The stored line of a habit, its instant written as RFC 3339.
pub open spec fn line_of(h: HabitView) -> Seq<char> {
    line_with(
        h,
        rfc3339_text(h.last_recorded_timestamp.secs as int, h.last_recorded_timestamp.nanos as int),
    )
}

/// Why a stored line that has five fields cannot be loaded.
#[derive(Clone, Copy, Debug, PartialEq, Eq, Structural)]
pub enum LoadError {
    /// The fourth field is not an RFC 3339 instant that can be represented.
    BadTimestamp,
    /// The fifth field is not a 16-bit unsigned number.
    BadStreak,
}

/// What a stored line reads as: nothing where it has other than five fields, an
/// error where its instant or its streak cannot be read, and else the habit. The
/// completion flag is set only by `true` (with white space around it, if any).
pub open spec fn record_of(line: Seq<char>) -> Result<Option<HabitView>, LoadError> {
    let f = split_on(line, '/');
    if f.len() != 5 {
        Ok(None)
    } else {
        match timestamp_of_text(f[3]) {
            None => Err(LoadError::BadTimestamp),
            Some(t) => match u16_value(f[4]) {
                None => Err(LoadError::BadStreak),
                Some(n) => Ok(
                    Some(
                        HabitView {
                            habit: f[0],
                            completed: padded(f[1], "true"@),
                            frequency: frequency_of(f[2]),
                            last_recorded_timestamp: t,
                            streak: n,
                        },
                    ),
                ),
            },
        }
    }
}

/// The habits that stored lines read as, in order, skipping lines that read as
/// nothing; the first error, if any line has one.
pub open spec fn records_of(lines: Seq<Seq<char>>) -> Result<Seq<HabitView>, LoadError>
    decreases lines.len(),
{
    if lines.len() == 0 {
        Ok(Seq::empty())
    } else {
        match records_of(lines.drop_last()) {
            Err(e) => Err(e),
            Ok(v) => match record_of(lines.last()) {
                Err(e) => Err(e),
                Ok(None) => Ok(v),
                Ok(Some(h)) => Ok(v.push(h)),
            },
        }
    }
}

/// The stored text of habits: the line of each, in order, each ended by `\n`.
pub open spec fn text_of(hs: Seq<HabitView>) -> Seq<char>
    decreases hs.len(),
{
    if hs.len() == 0 {
        Seq::empty()
    } else {
        text_of(hs.drop_last()) + line_of(hs.last()).push('\n')
    }
}

/// A habit whose line reads back as itself: its name holds neither `/` nor a line
/// feed, and its instant lies in a four-digit year.
pub open spec fn storable(h: HabitView) -> bool {
    free_of(h.habit, '/') && free_of(h.habit, '\n') && in_four_digit_years(
        h.last_recorded_timestamp.secs as int,
    )
}

/// The mathematical value of a loaded line.
pub open spec fn loaded_view(r: Result<Option<Habit>, LoadError>) -> Result<Option<HabitView>, LoadError> {
    match r {
        Ok(Some(h)) => Ok(Some(h@)),
        Ok(None) => Ok(None),
        Err(e) => Err(e),
    }
}

/// The listing entry of the habit at 0-based position `j`:
/// `position: name - frequency   streak` and a flame.
pub open spec fn listing_entry(j: int, h: HabitView) -> Seq<char> {
    decimal((j + 1) as nat) + ": "@ + h.habit + " - "@ + frequency_text(h.frequency) + "   "@
        + decimal(h.streak as nat) + "\u{1F525}"@
}

impl Habit {
    /// The stored line of this habit (see `line_of`). A habit whose name holds no `/`
    /// and whose instant lies in a four-digit year reads back from it unchanged.
    pub fn to_line(&self) -> (r: String)
        requires
            self@.wf(),
        ensures
            r@ == line_of(self@),
            free_of(self.habit@, '/') && in_four_digit_years(
                self.last_recorded_timestamp.secs as int,
            ) ==> record_of(r@) == Ok::<Option<HabitView>, LoadError>(Some(self@)),
            free_of(self.habit@, '\n') ==> free_of(r@, '\n'),
            r@.len() > 0 && is_digit(r@.last()),
    {
        let mut v = chars_of(self.habit.as_str());
        v.push('/');
        let mut b = if self.completed {
            chars_of("true")
        } else {
            chars_of("false")
        };
        v.append(&mut b);
        v.push('/');
        let mut f = match self.frequency {
            HabitFrequency::Daily => chars_of("daily"),
            HabitFrequency::Weekly => chars_of("weekly"),
            HabitFrequency::Monthly => chars_of("monthly"),
        };
        v.append(&mut f);
        v.push('/');
        let stamp = self.last_recorded_timestamp.to_rfc3339();
        let mut t = chars_of(stamp.as_str());
        v.append(&mut t);
        v.push('/');
        let mut d = decimal_chars(self.streak as u64);
        v.append(&mut d);
        proof {
            let ghost d = decimal(self.streak as nat);
            lemma_decimal_value(self.streak as nat);
            assert(v@.last() == d.last());
            assert(is_digit(d[d.len() - 1]));
            reveal_strlit("true");
            reveal_strlit("false");
            reveal_strlit("daily");
            reveal_strlit("weekly");
            reveal_strlit("monthly");
            if free_of(self.habit@, '\n') {
                assert forall|k: int| 0 <= k < d.len() implies #[trigger] d[k] != '\n' by {
                    assert(is_digit(d[k]));
                }
                assert(free_of(v@, '\n'));
            }
            if free_of(self.habit@, '/') && in_four_digit_years(
                self.last_recorded_timestamp.secs as int,
            ) {
                crate::laws::lemma_line_round_trip(self@, stamp@);
            }
        }
        string_of(&v)
    }

    /// The habit that a stored line reads as (see `record_of`).
    pub fn from_line(line: &str) -> (r: Result<Option<Habit>, LoadError>)
        ensures
            loaded_view(r) == record_of(line@),
            r matches Ok(Some(h)) ==> h@.wf(),
    {
        let v = chars_of(line);
        let fields = split_chars(&v, '/');
        let ghost f = split_on(line@, '/');
        assert(fields@.len() == f.len());
        if fields.len() != 5 {
            return Ok(None);
        }
        assert(forall|i: int| 0 <= i < 5 ==> #[trigger] fields@[i]@ == f[i]) by {
            assert forall|i: int| 0 <= i < 5 implies #[trigger] fields@[i]@ == f[i] by {
                assert(fields@.map_values(|x: Vec<char>| x@)[i] == fields@[i]@);
            }
        }
        let stamp_text = string_of(&fields[3]);
        let stamp = match Timestamp::parse_rfc3339(stamp_text.as_str()) {
            Some(t) => t,
            None => return Err(LoadError::BadTimestamp),
        };
        let streak = match parse_u16(&fields[4]) {
            Some(n) => n,
            None => return Err(LoadError::BadStreak),
        };
        proof {
            reveal_strlit("true");
        }
        let completed = is_padded(&fields[1], "true");
        let frequency = if same_text(&fields[2], "weekly") {
            HabitFrequency::Weekly
        } else if same_text(&fields[2], "monthly") {
            HabitFrequency::Monthly
        } else {
            HabitFrequency::Daily
        };
        let habit = string_of(&fields[0]);
        Ok(Some(Habit { habit, completed, frequency, last_recorded_timestamp: stamp, streak }))
    }

    /// The listing of `habits`, one entry per habit, numbered from 1.
    pub fn list_all(habits: &Vec<Habit>) -> (r: Vec<String>)
        ensures
            r@.len() == habits@.len(),
            forall|j: int| 0 <= j < r@.len() ==> (#[trigger] r@[j])@ == listing_entry(j, habits@[j]@),
    {
        let mut r: Vec<String> = Vec::new();
        let mut i: usize = 0;
        while i < habits.len()
            invariant
                i <= habits@.len(),
                r@.len() == i,
                forall|j: int| 0 <= j < i ==> (#[trigger] r@[j])@ == listing_entry(j, habits@[j]@),
            decreases habits@.len() - i,
        {
            let h = &habits[i];
            let mut v = decimal_chars(i as u64 + 1);
            v.append(&mut chars_of(": "));
            v.append(&mut chars_of(h.habit.as_str()));
            v.append(&mut chars_of(" - "));
            let mut f = match h.frequency {
                HabitFrequency::Daily => chars_of("daily"),
                HabitFrequency::Weekly => chars_of("weekly"),
                HabitFrequency::Monthly => chars_of("monthly"),
            };
            v.append(&mut f);
            v.append(&mut chars_of("   "));
            v.append(&mut decimal_chars(h.streak as u64));
            v.append(&mut chars_of("\u{1F525}"));
            r.push(string_of(&v));
            i += 1;
        }
        r
    }

    /// The stored text of `habits` (see `text_of`). Where every name holds neither `/`
    /// nor a line feed and every instant lies in a four-digit year, the text reads
    /// back as the same habits.
    pub fn to_text(habits: &Vec<Habit>) -> (r: String)
        requires
            forall|j: int| 0 <= j < habits@.len() ==> (#[trigger] habits@[j])@.wf(),
        ensures
            r@ == text_of(habits@.map_values(|h: Habit| h@)),
            (forall|j: int|
                0 <= j < habits@.len() ==> storable(#[trigger] habits@[j]@)) ==> records_of(
                text_lines(r@),
            ) == Ok::<Seq<HabitView>, LoadError>(habits@.map_values(|h: Habit| h@)),
    {
        let ghost ok = forall|j: int| 0 <= j < habits@.len() ==> storable(#[trigger] habits@[j]@);
        let ghost mut lines: Seq<Seq<char>> = Seq::empty();
        let ghost all = habits@.map_values(|h: Habit| h@);
        let mut v: Vec<char> = Vec::new();
        let mut i: usize = 0;
        assert(all.take(0) =~= Seq::<HabitView>::empty());
        while i < habits.len()
            invariant
                i <= habits@.len(),
                all == habits@.map_values(|h: Habit| h@),
                forall|j: int| 0 <= j < habits@.len() ==> (#[trigger] habits@[j])@.wf(),
                v@ == text_of(all.take(i as int)),
                ok == forall|j: int| 0 <= j < habits@.len() ==> storable(#[trigger] habits@[j]@),
                ok ==> split_on(v@, '\n') == lines.push(Seq::<char>::empty()),
                ok ==> records_of(lines) == Ok::<Seq<HabitView>, LoadError>(all.take(i as int)),
                ok ==> forall|k: int| 0 <= k < lines.len() ==> strip_cr(#[trigger] lines[k]) == lines[k],
            decreases habits@.len() - i,
        {
            let line = habits[i].to_line();
            let mut l = chars_of(line.as_str());
            let ghost before = v@;
            v.append(&mut l);
            proof {
                assert(all.take(i + 1).drop_last() == all.take(i as int));
                assert(all.take(i + 1).last() == habits@[i as int]@);
                if ok {
                    assert(storable(habits@[i as int]@));
                    lemma_split_extend(before, line@, '\n');
                    lemma_split_nonempty(before, '\n');
                    assert(Seq::<char>::empty() + line@ == line@);
                    assert(split_on(v@, '\n') =~= lines.push(line@));
                    assert(lines.push(line@).drop_last() == lines);
                    assert(is_digit(line@.last()));
                    assert(lines.push(line@).last() == line@);
                    assert(record_of(line@) == Ok::<Option<HabitView>, LoadError>(
                        Some(habits@[i as int]@),
                    ));
                    assert(all.take(i + 1) =~= all.take(i as int).push(habits@[i as int]@));
                    lines = lines.push(line@);
                }
            }
            v.push('\n');
            proof {
                if ok {
                    assert(v@.drop_last() == before + line@);
                }
            }
            i += 1;
        }
        assert(all.take(habits@.len() as int) == all);
        proof {
            if ok {
                lemma_split_nonempty(v@, '\n');
                assert(lines.push(Seq::<char>::empty()).drop_last() == lines);
                assert(lines.map_values(|p: Seq<char>| strip_cr(p)) =~= lines);
            }
        }
        string_of(&v)
    }

    /// The habits that a stored text reads as: those of its lines (see `text_lines`
    /// and `records_of`).
    pub fn from_text(content: &str) -> (r: Result<Vec<Habit>, LoadError>)
        ensures
            match r {
                Ok(v) => records_of(text_lines(content@)) == Ok::<Seq<HabitView>, LoadError>(
                    v@.map_values(|h: Habit| h@),
                ),
                Err(e) => records_of(text_lines(content@)) == Err::<Seq<HabitView>, LoadError>(e),
            },
            r matches Ok(v) ==> forall|j: int| 0 <= j < v@.len() ==> (#[trigger] v@[j])@.wf(),
    {
        let lines = lines_of(content);
        Habit::from_lines(&lines)
    }

    /// The habits that stored lines read as (see `records_of`).
    pub fn from_lines(lines: &Vec<String>) -> (r: Result<Vec<Habit>, LoadError>)
        ensures
            match r {
                Ok(v) => records_of(lines@.map_values(|l: String| l@)) == Ok::<
                    Seq<HabitView>,
                    LoadError,
                >(v@.map_values(|h: Habit| h@)),
                Err(e) => records_of(lines@.map_values(|l: String| l@)) == Err::<
                    Seq<HabitView>,
                    LoadError,
                >(e),
            },
            r matches Ok(v) ==> forall|j: int| 0 <= j < v@.len() ==> (#[trigger] v@[j])@.wf(),
    {
        let ghost all = lines@.map_values(|l: String| l@);
        let mut habits: Vec<Habit> = Vec::new();
        let mut i: usize = 0;
        assert(all.take(0) =~= Seq::<Seq<char>>::empty());
        assert(habits@.map_values(|h: Habit| h@) =~= Seq::<HabitView>::empty());
        while i < lines.len()
            invariant
                i <= lines@.len(),
                all == lines@.map_values(|l: String| l@),
                records_of(all.take(i as int)) == Ok::<Seq<HabitView>, LoadError>(
                    habits@.map_values(|h: Habit| h@),
                ),
                forall|j: int| 0 <= j < habits@.len() ==> (#[trigger] habits@[j])@.wf(),
            decreases lines@.len() - i,
        {
            proof {
                assert(all.take(i + 1).drop_last() == all.take(i as int));
                assert(all.take(i + 1).last() == lines@[i as int]@);
            }
            let ghost before = habits@.map_values(|h: Habit| h@);
            let r = Habit::from_line(lines[i].as_str());
            assert(record_of(all.take(i + 1).last()) == loaded_view(r));
            match r {
                Err(e) => {
                    proof {
                        lemma_records_error_stays(all, i as int + 1, e);
                    }
                    return Err(e);
                },
                Ok(None) => {},
                Ok(Some(h)) => {
                    habits.push(h);
                    assert(habits@.map_values(|h: Habit| h@) =~= before.push(h@));
                },
            }
            i += 1;
        }
        assert(all.take(lines@.len() as int) == all);
        Ok(habits)
    }
}

/// Once the lines up to `k` read as an error, all of them read as that error.
proof fn lemma_records_error_stays(all: Seq<Seq<char>>, k: int, e: LoadError)
    requires
        0 <= k <= all.len(),
        records_of(all.take(k)) == Err::<Seq<HabitView>, LoadError>(e),
    ensures
        records_of(all) == Err::<Seq<HabitView>, LoadError>(e),
    decreases all.len() - k,
{
    if k < all.len() {
        assert(all.take(k + 1).drop_last() == all.take(k));
        lemma_records_error_stays(all, k + 1, e);
    } else {
        assert(all.take(k) == all);
    }
}

} // verus!
