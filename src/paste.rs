//! The stored record and the times it carries.

use vstd::prelude::*;

verus! {

/// A point in time: whole seconds since the Unix epoch plus a fraction in
/// nanoseconds.
#[derive(Debug, Clone, Copy, PartialEq, Eq, Structural)]
pub struct Timestamp {
    pub secs: u64,
    pub nanos: u32,
}

/// -1, 0 or 1 as `a` is earlier than, equal to or later than `b`.
pub open spec fn spec_ts_cmp(a: Timestamp, b: Timestamp) -> int {
    if a.secs < b.secs || (a.secs == b.secs && a.nanos < b.nanos) {
        -1
    } else if a == b {
        0
    } else {
        1
    }
}

impl Timestamp {
    pub open spec fn wf(self) -> bool {
        self.nanos < 1_000_000_000
    }

    /// The moment `secs` whole seconds after the epoch.
    pub fn from_secs(secs: u64) -> (r: Timestamp)
        ensures
            r == (Timestamp { secs, nanos: 0 }),
            r.wf(),
    {
        Timestamp { secs, nanos: 0 }
    }

    /// Compares two moments: -1, 0 or 1 as `self` is earlier, equal or later.
    pub fn compare(&self, other: &Timestamp) -> (r: i8)
        ensures
            r as int == spec_ts_cmp(*self, *other),
    {
        if self.secs < other.secs || (self.secs == other.secs && self.nanos < other.nanos) {
            -1
        } else if self.secs == other.secs && self.nanos == other.nanos {
            0
        } else {
            1
        }
    }
}

/// A stored paste.
#[derive(Debug, Clone)]
pub struct Paste {
    pub id: i64,
    pub title: String,
    pub body: String,
    pub created_at: Timestamp,
    pub modified_at: Timestamp,
}

/// A paste's fields as plain values.
pub struct PasteView {
    pub id: i64,
    pub title: Seq<char>,
    pub body: Seq<char>,
    pub created_at: Timestamp,
    pub modified_at: Timestamp,
}

impl View for Paste {
    type V = PasteView;

    open spec fn view(&self) -> PasteView {
        PasteView {
            id: self.id,
            title: self.title@,
            body: self.body@,
            created_at: self.created_at,
            modified_at: self.modified_at,
        }
    }
}

impl PartialEq for Paste {
    fn eq(&self, other: &Paste) -> (r: bool) {
        self.id == other.id && self.title == other.title && self.body == other.body
            && self.created_at == other.created_at && self.modified_at == other.modified_at
    }
}

impl vstd::std_specs::cmp::PartialEqSpecImpl for Paste {
    open spec fn obeys_eq_spec() -> bool {
        true
    }

    open spec fn eq_spec(&self, other: &Paste) -> bool {
        self@ == other@
    }
}

/// A record about to be stored; the storage assigns its id.
#[derive(Debug, Clone)]
pub struct NewPaste {
    pub title: String,
    pub body: String,
    pub created_at: Timestamp,
    pub modified_at: Timestamp,
}

} // verus!
