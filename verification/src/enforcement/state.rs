//! The durable state of one broker boundary: a generation and whether the
//! boundary is disabled, and the paths of its private files.
use vstd::prelude::*;

verus! {

/// Why the broker state refuses.
#[derive(Clone, Debug, PartialEq, Eq)]
pub enum StateError {
    Io(String),
    Malformed,
    Disabled,
    Generation,
}

/// The contents of the state file.
#[derive(Clone, Copy, Debug, PartialEq, Eq, Structural)]
pub struct StateRecord {
    pub generation: u64,
    pub disabled: bool,
}

/// `name` under the directory `root`, as `Path::join` forms it for a
/// relative name: a separator is added unless `root` is empty or already
/// ends with one.
pub open spec fn joined_path(root: Seq<char>, name: Seq<char>) -> Seq<char> {
    if root.len() == 0 {
        name
    } else if root.last() == '/' {
        root + name
    } else {
        root + seq!['/'] + name
    }
}

/// Joins a relative name under a directory (see `joined_path`).
pub fn join_path(root: &str, name: &str) -> (r: String)
    ensures
        r@ == joined_path(root@, name@),
{
    let n = root.unicode_len();
    if n == 0 {
        return String::from_str(name);
    }
    if root.get_char(n - 1) == '/' {
        crate::text::concat2(root, name)
    } else {
        proof {
            reveal_strlit("/");
        }
        crate::text::concat3(root, "/", name)
    }
}

/// The state a boundary is in when its state file does not exist yet.
pub open spec fn fresh_record() -> StateRecord {
    StateRecord { generation: 0, disabled: false }
}

/// A boundary accepts work bound to `generation` only while enabled and
/// at that generation.
pub open spec fn active_for(record: StateRecord, generation: u64) -> bool {
    !record.disabled && record.generation == generation
}

/// Owns the durable private state of one broker boundary: its root
/// directory and the state record read from it.
#[derive(Clone, Debug)]
pub struct BrokerState {
    root: String,
    record: StateRecord,
}

impl View for BrokerState {
    type V = (Seq<char>, StateRecord);

    closed spec fn view(&self) -> (Seq<char>, StateRecord) {
        (self.root@, self.record)
    }
}

impl BrokerState {
    /// The state under `root`, with the record its state file holds, or
    /// the fresh record when there is no file yet.
    pub fn open(root: String, stored: Option<StateRecord>) -> (r: BrokerState)
        ensures
            r@.0 == root@,
            r@.1 == match stored {
                Some(x) => x,
                None => fresh_record(),
            },
    {
        let record = match stored {
            Some(x) => x,
            None => StateRecord { generation: 0, disabled: false },
        };
        BrokerState { root, record }
    }

    /// A copy of this state.
    pub fn duplicate(&self) -> (r: BrokerState)
        ensures
            r@ == self@,
    {
        BrokerState { root: self.root.clone(), record: self.record }
    }

    /// The state record as it stands.
    pub fn record(&self) -> (r: StateRecord)
        ensures
            r == self@.1,
    {
        self.record
    }

    pub fn root(&self) -> (r: &str)
        ensures
            r@ == self@.0,
    {
        self.root.as_str()
    }

    /// The directory of consumed nonces.
    pub fn nonce_dir(&self) -> (r: String)
        ensures
            r@ == joined_path(self@.0, "nonces"@),
    {
        join_path(self.root.as_str(), "nonces")
    }

    /// The audit log.
    pub fn audit_path(&self) -> (r: String)
        ensures
            r@ == joined_path(self@.0, "audit.jsonl"@),
    {
        join_path(self.root.as_str(), "audit.jsonl")
    }

    /// The recovery checkpoint.
    pub fn checkpoint_path(&self) -> (r: String)
        ensures
            r@ == joined_path(self@.0, "checkpoint.json"@),
    {
        join_path(self.root.as_str(), "checkpoint.json")
    }

    /// The state file.
    pub fn state_path(&self) -> (r: String)
        ensures
            r@ == joined_path(self@.0, "state.json"@),
    {
        join_path(self.root.as_str(), "state.json")
    }

    /// The current generation.
    pub fn generation(&self) -> (r: u64)
        ensures
            r == self@.1.generation,
    {
        self.record.generation
    }

    /// Fails unless the boundary is enabled and at `expected_generation`:
    /// `Disabled` first, then `Generation`.
    pub fn require_active(&self, expected_generation: u64) -> (r: Result<(), StateError>)
        ensures
            r is Ok <==> active_for(self@.1, expected_generation),
            self@.1.disabled ==> (r matches Err(StateError::Disabled)),
            !self@.1.disabled && self@.1.generation != expected_generation ==> (r matches Err(
                StateError::Generation,
            )),
    {
        if self.record.disabled {
            return Err(StateError::Disabled);
        }
        if self.record.generation != expected_generation {
            return Err(StateError::Generation);
        }
        Ok(())
    }

    /// Disables the boundary and moves to the next generation, which
    /// invalidates everything bound to the prior one; gives the new
    /// generation. At the last generation it fails with `Generation` and
    /// changes nothing.
    pub fn disable(&mut self) -> (r: Result<u64, StateError>)
        ensures
            final(self)@.0 == old(self)@.0,
            old(self)@.1.generation < u64::MAX ==> r == Ok::<u64, StateError>(
                (old(self)@.1.generation + 1) as u64,
            ) && final(self)@.1 == (StateRecord {
                generation: (old(self)@.1.generation + 1) as u64,
                disabled: true,
            }),
            old(self)@.1.generation == u64::MAX ==> (r matches Err(StateError::Generation))
                && final(self)@.1 == old(self)@.1,
    {
        match self.record.generation.checked_add(1) {
            None => Err(StateError::Generation),
            Some(next) => {
                self.record = StateRecord { generation: next, disabled: true };
                Ok(next)
            },
        }
    }

    /// Enables the boundary again after recovery, if it is still at
    /// `expected_generation`; otherwise fails with `Generation` and
    /// changes nothing. The generation itself never changes here.
    pub fn enable_after_recovery(&mut self, expected_generation: u64) -> (r: Result<(), StateError>)
        ensures
            final(self)@.0 == old(self)@.0,
            old(self)@.1.generation == expected_generation ==> r is Ok && final(self)@.1
                == (StateRecord { generation: expected_generation, disabled: false }),
            old(self)@.1.generation != expected_generation ==> (r matches Err(
                StateError::Generation,
            )) && final(self)@.1 == old(self)@.1,
    {
        if self.record.generation != expected_generation {
            return Err(StateError::Generation);
        }
        self.record = StateRecord { generation: expected_generation, disabled: false };
        Ok(())
    }
}

/// Disabling a boundary leaves no generation at which it is active: work
/// bound to any generation, the prior one included, is refused.
pub proof fn lemma_disabled_accepts_nothing(record: StateRecord, generation: u64)
    requires
        record.disabled,
    ensures
        !active_for(record, generation),
{
}

/// Disabling moves strictly forward and recovery stays put: the
/// generation after either step is never below the one before.
pub proof fn lemma_generation_never_rewinds(before: StateRecord, after: StateRecord, expected: u64)
    requires
        (after == (StateRecord { generation: (before.generation + 1) as u64, disabled: true })
            && before.generation < u64::MAX) || (after == (StateRecord {
            generation: expected,
            disabled: false,
        }) && before.generation == expected),
    ensures
        after.generation >= before.generation,
        after.disabled ==> after.generation == before.generation + 1,
{
}

/// After recovery at the current generation, work bound to that
/// generation is accepted again.
pub proof fn lemma_recovery_reactivates(record: StateRecord)
    ensures
        active_for((StateRecord { generation: record.generation, disabled: false }), record.generation),
{
}

} // verus!
