//! Plain-value data model: timestamps, tasks, renderings, channel messages and
//! the outbound messages the planner decides to send.

use vstd::prelude::*;

verus! {

/// A time-zone-resolved point in time: a day number and the second of that
/// day. Midnight of day `d` is `Timestamp { day: d, sec: 0 }`.
#[derive(Clone, Copy, PartialEq, Eq, Structural, Debug)]
pub struct Timestamp {
    pub day: i64,
    pub sec: u32,
}

/// Lexicographic strict order on timestamps.
pub open spec fn ts_lt(a: Timestamp, b: Timestamp) -> bool {
    a.day < b.day || (a.day == b.day && a.sec < b.sec)
}

/// Lexicographic order on timestamps.
pub open spec fn ts_le(a: Timestamp, b: Timestamp) -> bool {
    a.day < b.day || (a.day == b.day && a.sec <= b.sec)
}

impl Timestamp {
    pub fn le(self, other: Timestamp) -> (r: bool)
        ensures
            r == ts_le(self, other),
    {
        self.day < other.day || (self.day == other.day && self.sec <= other.sec)
    }

    pub fn lt(self, other: Timestamp) -> (r: bool)
        ensures
            r == ts_lt(self, other),
    {
        self.day < other.day || (self.day == other.day && self.sec < other.sec)
    }
}

/// One display field of a notification: a name/value pair and the inline flag
/// of the chat platform's field layout.
#[derive(Debug)]
pub struct Field {
    pub name: String,
    pub value: String,
    pub inline: bool,
}

/// Mathematical image of a `Field`.
pub ghost struct FieldView {
    pub name: Seq<char>,
    pub value: Seq<char>,
    pub inline: bool,
}

impl View for Field {
    type V = FieldView;

    open spec fn view(&self) -> FieldView {
        FieldView { name: self.name@, value: self.value@, inline: self.inline }
    }
}

impl Clone for Field {
    fn clone(&self) -> (r: Self)
        ensures
            r == *self,
    {
        Field { name: self.name.clone(), value: self.value.clone(), inline: self.inline }
    }
}

/// A task: when it is due, and the display field that stands for it in a
/// notification. The store owns tasks; this is a snapshot value.
#[derive(Debug)]
pub struct Task {
    pub due: Timestamp,
    pub field: Field,
}

impl Clone for Task {
    fn clone(&self) -> (r: Self)
        ensures
            r == *self,
    {
        Task { due: self.due, field: self.field.clone() }
    }
}

impl Task {
    /// Returns a copy of the task's display field.
    pub fn to_field(&self) -> (f: Field)
        ensures
            f == self.field,
    {
        self.field.clone()
    }
}

} // verus!
