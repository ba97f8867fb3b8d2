//! One story record, as the detail endpoint describes it.

use vstd::prelude::*;
use vstd::string::*;
use crate::time::{get_relative_time, relative_label, representable, TIMESTAMP_LIMIT};

verus! {

/// A story with its metadata; `time` is in seconds since the epoch.
pub struct Story {
    pub id: i64,
    pub by: String,
    pub descendants: i64,
    pub kids: Option<Vec<i64>>,
    pub score: i64,
    pub time: i64,
    pub title: String,
    pub kind: String,
    pub url: Option<String>,
}

/// The title followed by how long before `now` the story was posted, in
/// parentheses; the bare title when either instant lies out of range.
pub open spec fn labelled_title(title: Seq<char>, time: i64, now: i64) -> Seq<char> {
    if representable(time as int) && representable(now as int) {
        title + " ("@ + relative_label(now - time) + ")"@
    } else {
        title
    }
}

/// Relies on chrono's `Utc::now` and `DateTime::timestamp`: the current time
/// in whole seconds since the epoch, read from the system clock.
#[verifier::external_body]
fn now_seconds() -> (r: i64) {
    chrono::Utc::now().timestamp()
}

impl Story {
    /// The line shown for this story, with its age measured at `now`.
    pub fn title_label_at(&self, now: i64) -> (r: String)
        ensures
            r@ == labelled_title(self.title@, self.time, now),
    {
        let mut s = self.title.clone();
        if -TIMESTAMP_LIMIT <= self.time && self.time <= TIMESTAMP_LIMIT && -TIMESTAMP_LIMIT <= now
            && now <= TIMESTAMP_LIMIT {
            let rel = get_relative_time(self.time, now);
            s.append(" (");
            s.append(rel.as_str());
            s.append(")");
            assert(s@ =~= self.title@ + " ("@ + relative_label(now - self.time) + ")"@);
        }
        s
    }

    /// The line shown for this story, with its age measured now.
    pub fn title_label(&self) -> (r: String)
        ensures
            exists|now: i64| r@ == labelled_title(self.title@, self.time, now),
    {
        let now = now_seconds();
        self.title_label_at(now)
    }
}

} // verus!
