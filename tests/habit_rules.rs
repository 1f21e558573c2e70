use habit_tracker::codec::LoadError;
use habit_tracker::{
    is_older_than_last_full_month, is_older_than_last_full_week, is_yesterday, period_name,
    Completion, Habit, HabitFrequency, SelectionError, Timestamp,
};

fn at(text: &str) -> Timestamp {
    Timestamp::parse_rfc3339(text).expect("a valid RFC 3339 instant")
}

fn habit(frequency: HabitFrequency, completed: bool, streak: u16, last: &str) -> Habit {
    Habit {
        habit: String::from("read"),
        completed,
        frequency,
        last_recorded_timestamp: at(last),
        streak,
    }
}

#[test]
fn timestamp_fields_from_unix() {
    let t = Timestamp::from_unix(1705312800, 0).unwrap();
    assert_eq!(t.day, 738900);
    assert_eq!(t.weekday, 0);
    assert_eq!(t.year, 2024);
    assert_eq!(t.month, 1);
    assert_eq!(t.iso_year, 2024);
    assert_eq!(t.iso_week, 3);
    assert_eq!(Timestamp::from_unix(0, 1_000_000_000), None);
    let before_epoch = Timestamp::from_unix(-1, 0).unwrap();
    assert_eq!(before_epoch.day, 719162);
    assert_eq!(before_epoch.weekday, 2);
    assert_eq!(before_epoch.year, 1969);
    assert_eq!(before_epoch.month, 12);
}

#[test]
fn timestamp_rfc3339_text() {
    let t = Timestamp::from_unix(1705312800, 0).unwrap();
    assert_eq!(t.to_rfc3339(), "2024-01-15T10:00:00+00:00");
    assert_eq!(at("2024-01-15T12:00:00+02:00"), t);
    assert_eq!(Timestamp::parse_rfc3339("N/A"), None);
}

#[test]
fn daily_same_day_is_unchanged() {
    let now = at("2024-01-15T23:00:00Z");
    for (completed, streak) in [(true, 4), (false, 0), (false, 7)] {
        let mut h = habit(HabitFrequency::Daily, completed, streak, "2024-01-15T01:00:00Z");
        h.reconcile(&now);
        assert_eq!(h.completed, completed);
        assert_eq!(h.streak, streak);
    }
}

#[test]
fn daily_grace_window() {
    let now = at("2024-01-15T08:00:00Z");
    let mut h = habit(HabitFrequency::Daily, true, 3, "2024-01-14T22:00:00Z");
    h.reconcile(&now);
    assert!(!h.completed);
    assert_eq!(h.streak, 3);
    let mut old = habit(HabitFrequency::Daily, true, 3, "2024-01-13T22:00:00Z");
    old.reconcile(&now);
    assert!(!old.completed);
    assert_eq!(old.streak, 0);
}

#[test]
fn weekly_boundary() {
    // 2024-01-17 is a Wednesday; the week before starts on Monday 2024-01-08.
    let now = at("2024-01-17T12:00:00Z");
    let mut kept = habit(HabitFrequency::Weekly, true, 5, "2024-01-08T08:00:00Z");
    kept.reconcile(&now);
    assert!(!kept.completed);
    assert_eq!(kept.streak, 5);
    let mut lost = habit(HabitFrequency::Weekly, true, 5, "2024-01-07T23:00:00Z");
    lost.reconcile(&now);
    assert!(!lost.completed);
    assert_eq!(lost.streak, 0);
    let mut same = habit(HabitFrequency::Weekly, true, 5, "2024-01-15T08:00:00Z");
    same.reconcile(&now);
    assert!(same.completed);
    assert_eq!(same.streak, 5);
}

#[test]
fn weekly_same_iso_week_across_new_year() {
    // 2024-12-30 and 2025-01-01 share ISO week 1 of 2025 but not the calendar year.
    let now = at("2025-01-01T12:00:00Z");
    let mut h = habit(HabitFrequency::Weekly, true, 2, "2024-12-30T12:00:00Z");
    h.reconcile(&now);
    assert!(!h.completed);
    assert_eq!(h.streak, 2);
}

#[test]
fn monthly_year_wraparound() {
    let now = at("2024-01-10T09:00:00Z");
    let mut november = habit(HabitFrequency::Monthly, false, 6, "2023-11-30T23:59:59Z");
    november.reconcile(&now);
    assert_eq!(november.streak, 0);
    let mut december = habit(HabitFrequency::Monthly, true, 6, "2023-12-01T00:00:00Z");
    december.reconcile(&now);
    assert!(!december.completed);
    assert_eq!(december.streak, 6);
    let mut january = habit(HabitFrequency::Monthly, true, 6, "2024-01-01T00:00:00Z");
    january.reconcile(&now);
    assert!(january.completed);
    assert_eq!(january.streak, 6);
}

#[test]
fn period_predicates() {
    let now = at("2024-03-06T10:00:00Z");
    assert!(is_yesterday(&at("2024-03-05T23:59:59Z"), &now));
    assert!(!is_yesterday(&at("2024-03-06T00:00:00Z"), &now));
    assert!(!is_yesterday(&at("2024-03-04T10:00:00Z"), &now));
    // 2024-03-06 is a Wednesday; the week before starts on Monday 2024-02-26.
    assert!(!is_older_than_last_full_week(&at("2024-02-26T00:00:00Z"), &now));
    assert!(is_older_than_last_full_week(&at("2024-02-25T23:59:59Z"), &now));
    assert!(!is_older_than_last_full_month(&at("2024-02-01T00:00:00Z"), &now));
    assert!(is_older_than_last_full_month(&at("2024-01-31T23:59:59Z"), &now));
}

#[test]
fn completing_twice_is_a_no_op() {
    let first = at("2024-01-15T10:00:00Z");
    let second = at("2024-01-15T18:00:00Z");
    let mut h = Habit::new(String::from("run"), HabitFrequency::Weekly, &first);
    assert!(h.mark_complete(&first));
    assert_eq!(h.streak, 1);
    assert!(!h.mark_complete(&second));
    assert!(h.completed);
    assert_eq!(h.streak, 1);
    assert_eq!(h.last_recorded_timestamp, first);
}

#[test]
fn streak_saturates() {
    let now = at("2024-01-15T10:00:00Z");
    let mut h = habit(HabitFrequency::Daily, false, u16::MAX, "2024-01-14T10:00:00Z");
    assert!(h.mark_complete(&now));
    assert_eq!(h.streak, u16::MAX);
}

#[test]
fn daily_end_to_end() {
    let t0 = Timestamp::from_unix(1705312800, 0).unwrap();
    let mut habits = vec![Habit::new(String::from("stretch"), HabitFrequency::Daily, &t0)];
    assert_eq!(Habit::complete(&mut habits, 1, &t0), Ok(Completion::Recorded));
    assert_eq!(habits[0].streak, 1);
    let t1 = Timestamp::from_unix(1705312800 + 86400, 0).unwrap();
    Habit::init(&mut habits, &t1);
    assert!(!habits[0].completed);
    assert_eq!(habits[0].streak, 1);
    assert_eq!(Habit::complete(&mut habits, 1, &t1), Ok(Completion::Recorded));
    assert_eq!(habits[0].streak, 2);
    let t3 = Timestamp::from_unix(1705312800 + 3 * 86400, 0).unwrap();
    Habit::init(&mut habits, &t3);
    assert!(!habits[0].completed);
    assert_eq!(habits[0].streak, 0);
}

#[test]
fn complete_reports_and_selects() {
    let now = at("2024-01-15T10:00:00Z");
    let mut habits = vec![
        habit(HabitFrequency::Daily, false, 0, "2024-01-15T09:00:00Z"),
        habit(HabitFrequency::Monthly, true, 2, "2024-01-02T09:00:00Z"),
    ];
    assert_eq!(Habit::complete(&mut habits, 0, &now), Err(SelectionError::OutOfRange));
    assert_eq!(Habit::complete(&mut habits, 3, &now), Err(SelectionError::OutOfRange));
    assert_eq!(
        Habit::complete(&mut habits, 2, &now),
        Ok(Completion::AlreadyDone(HabitFrequency::Monthly))
    );
    assert_eq!(habits[1].streak, 2);
    assert_eq!(habits[1].last_recorded_timestamp, at("2024-01-02T09:00:00Z"));
    assert!(!habits[0].completed);
    assert_eq!(period_name(HabitFrequency::Daily), "this day");
    assert_eq!(period_name(HabitFrequency::Weekly), "this week");
    assert_eq!(period_name(HabitFrequency::Monthly), "this month");
}

#[test]
fn new_habit_starts_fresh() {
    let now = at("2024-05-05T05:05:05Z");
    let h = Habit::new(String::from("walk"), HabitFrequency::Monthly, &now);
    assert_eq!(h.habit, "walk");
    assert!(!h.completed);
    assert_eq!(h.frequency, HabitFrequency::Monthly);
    assert_eq!(h.streak, 0);
    assert_eq!(h.last_recorded_timestamp, now);
}

#[test]
fn line_format() {
    let h = Habit {
        habit: String::from("drink water"),
        completed: true,
        frequency: HabitFrequency::Weekly,
        last_recorded_timestamp: Timestamp::from_unix(1705312800, 500_000_000).unwrap(),
        streak: 12,
    };
    assert_eq!(h.to_line(), "drink water/true/weekly/2024-01-15T10:00:00.500+00:00/12");
}

#[test]
fn line_round_trip() {
    for (completed, frequency, nanos, streak) in [
        (true, HabitFrequency::Daily, 0, 0),
        (false, HabitFrequency::Weekly, 123_456_789, 65535),
        (true, HabitFrequency::Monthly, 1_000, 7),
    ] {
        let h = Habit {
            habit: String::from("meditate"),
            completed,
            frequency,
            last_recorded_timestamp: Timestamp::from_unix(1_600_000_000, nanos).unwrap(),
            streak,
        };
        let back = Habit::from_line(&h.to_line()).unwrap().unwrap();
        assert_eq!(back.habit, h.habit);
        assert_eq!(back.completed, h.completed);
        assert_eq!(back.frequency, h.frequency);
        assert_eq!(back.last_recorded_timestamp, h.last_recorded_timestamp);
        assert_eq!(back.streak, h.streak);
    }
}

#[test]
fn lenient_fields() {
    let h = Habit::from_line("yoga/ true /yearly/2024-01-15T10:00:00Z/+3").unwrap().unwrap();
    assert_eq!(h.habit, "yoga");
    assert!(h.completed);
    assert_eq!(h.frequency, HabitFrequency::Daily);
    assert_eq!(h.streak, 3);
    let g = Habit::from_line("yoga/True/monthly/2024-01-15T10:00:00Z/03").unwrap().unwrap();
    assert!(!g.completed);
    assert_eq!(g.frequency, HabitFrequency::Monthly);
    assert_eq!(g.streak, 3);
}

#[test]
fn malformed_lines() {
    assert!(matches!(Habit::from_line("only/four/fields/here"), Ok(None)));
    assert!(matches!(Habit::from_line(""), Ok(None)));
    assert!(matches!(Habit::from_line("a/b/c/d/e/f"), Ok(None)));
    assert!(matches!(
        Habit::from_line("x/true/daily/N/A/1"),
        Ok(None)
    ));
    assert!(matches!(
        Habit::from_line("x/true/daily/yesterday/1"),
        Err(LoadError::BadTimestamp)
    ));
    assert!(matches!(
        Habit::from_line("x/true/daily/2024-01-15T10:00:00Z/65536"),
        Err(LoadError::BadStreak)
    ));
    assert!(matches!(
        Habit::from_line("x/true/daily/2024-01-15T10:00:00Z/-1"),
        Err(LoadError::BadStreak)
    ));
    assert!(matches!(
        Habit::from_line("x/true/daily/2024-01-15T10:00:00Z/"),
        Err(LoadError::BadStreak)
    ));
}

#[test]
fn load_skips_and_stops() {
    let lines = vec![
        String::from("a/false/daily/2024-01-15T10:00:00Z/1"),
        String::from("garbage"),
        String::from("b/true/weekly/2024-01-16T10:00:00Z/2"),
    ];
    let habits = Habit::from_lines(&lines).unwrap();
    assert_eq!(habits.len(), 2);
    assert_eq!(habits[0].habit, "a");
    assert_eq!(habits[1].habit, "b");
    let bad = vec![String::from("a/false/daily/2024-01-15T10:00:00Z/1"), String::from("c/true/daily/soon/1")];
    assert!(matches!(Habit::from_lines(&bad), Err(LoadError::BadTimestamp)));
}

#[test]
fn listing_entries() {
    let habits = vec![
        habit(HabitFrequency::Daily, false, 0, "2024-01-15T09:00:00Z"),
        habit(HabitFrequency::Monthly, true, 42, "2024-01-02T09:00:00Z"),
    ];
    let lines = Habit::list_all(&habits);
    assert_eq!(lines, vec!["1: read - daily   0\u{1F525}", "2: read - monthly   42\u{1F525}"]);
}

#[test]
fn stored_text_lines() {
    let content = "a/false/daily/2024-01-15T10:00:00Z/1\r\nnot a record\n\nb/true/weekly/2024-01-16T10:00:00Z/2";
    let habits = Habit::from_text(content).unwrap();
    assert_eq!(habits.len(), 2);
    assert_eq!(habits[0].habit, "a");
    assert_eq!(habits[0].streak, 1);
    assert_eq!(habits[1].habit, "b");
    assert!(habits[1].completed);
    assert_eq!(Habit::from_text("").unwrap().len(), 0);
    assert_eq!(Habit::from_text("\n").unwrap().len(), 0);
    // A carriage return that no line feed follows stays in the last field.
    assert!(matches!(
        Habit::from_text("a/false/daily/2024-01-15T10:00:00Z/1\r"),
        Err(LoadError::BadStreak)
    ));
}

#[test]
fn stored_text_round_trip() {
    let t = at("2024-02-29T23:59:59.25Z");
    let habits = vec![
        Habit::new(String::from("one"), HabitFrequency::Daily, &t),
        habit(HabitFrequency::Monthly, true, 9, "2023-12-31T00:00:00Z"),
    ];
    let text = Habit::to_text(&habits);
    assert_eq!(
        text,
        "one/false/daily/2024-02-29T23:59:59.250+00:00/0\nread/true/monthly/2023-12-31T00:00:00+00:00/9\n"
    );
    let back = Habit::from_text(&text).unwrap();
    assert_eq!(back.len(), 2);
    assert_eq!(back[0].last_recorded_timestamp, t);
    assert_eq!(back[1].streak, 9);
    assert_eq!(back[1].frequency, HabitFrequency::Monthly);
}

#[test]
fn clock_reads_a_recent_instant() {
    let clock = chrono::Utc::now();
    let now = Timestamp::from_unix(clock.timestamp(), clock.timestamp_subsec_nanos())
        .expect("a representable clock reading");
    assert!(now.secs > 1_700_000_000);
    assert!(now.year >= 2023);
    assert!(now.nanos < 1_000_000_000);
}
