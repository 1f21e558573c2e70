//! Recurring habits with streaks, and the calendar rules that clear a habit's
//! completion when a new period begins and reset its streak when a whole period
//! goes by without it.

pub mod codec;
pub mod habit;
pub mod laws;
pub mod text;
pub mod timestamp;

pub use codec::LoadError;
pub use habit::{
    is_older_than_last_full_month, is_older_than_last_full_week, is_yesterday, period_name,
    Completion, Habit, HabitFrequency, SelectionError,
};
pub use timestamp::Timestamp;
