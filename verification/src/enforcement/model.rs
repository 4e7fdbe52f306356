//! What is recorded of a mediated attempt.
use vstd::prelude::*;

verus! {

/// Metadata that is safe to record for a mediated attempt; no secret,
/// request body or credential is part of it.
#[derive(Clone, Debug, PartialEq, Eq)]
pub struct Attempt {
    pub artifact_id: String,
    pub nonce: String,
    pub boundary: String,
    pub operation: String,
    pub target_digest: String,
    pub snapshot_digest: String,
    pub generation: u64,
}

/// Where an attempt stands.
#[derive(Clone, Copy, Debug, PartialEq, Eq, Structural)]
pub enum Lifecycle {
    Prepared,
    Completed,
    Failed,
    Blocked,
    Uncertain,
}

/// The text a lifecycle is recorded as.
pub open spec fn lifecycle_text(l: Lifecycle) -> Seq<char> {
    match l {
        Lifecycle::Prepared => "prepared"@,
        Lifecycle::Completed => "completed"@,
        Lifecycle::Failed => "failed"@,
        Lifecycle::Blocked => "blocked"@,
        Lifecycle::Uncertain => "uncertain"@,
    }
}

impl Lifecycle {
    /// The lifecycle recorded as `text`, if any.
    pub fn from_text(text: &str) -> (r: Option<Lifecycle>)
        ensures
            match r {
                Some(l) => lifecycle_text(l) == text@,
                None => forall|l: Lifecycle| lifecycle_text(l) != text@,
            },
    {
        if crate::text::text_eq(text, "prepared") {
            Some(Lifecycle::Prepared)
        } else if crate::text::text_eq(text, "completed") {
            Some(Lifecycle::Completed)
        } else if crate::text::text_eq(text, "failed") {
            Some(Lifecycle::Failed)
        } else if crate::text::text_eq(text, "blocked") {
            Some(Lifecycle::Blocked)
        } else if crate::text::text_eq(text, "uncertain") {
            Some(Lifecycle::Uncertain)
        } else {
            None
        }
    }

    /// The text this lifecycle is recorded as (see `lifecycle_text`).
    pub fn text(&self) -> (r: &'static str)
        ensures
            r@ == lifecycle_text(*self),
    {
        match self {
            Lifecycle::Prepared => "prepared",
            Lifecycle::Completed => "completed",
            Lifecycle::Failed => "failed",
            Lifecycle::Blocked => "blocked",
            Lifecycle::Uncertain => "uncertain",
        }
    }
}

} // verus!
