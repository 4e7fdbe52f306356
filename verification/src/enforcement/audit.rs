//! The audit log: one canonical JSON event per line, each naming the
//! digest of the line before it, from `sha256:genesis` on.
use crate::crypto::{canonical_audit_event, jcs_audit_event_of, sha256, sha256_text};
use crate::enforcement::model::{lifecycle_text, Attempt, Lifecycle};
use vstd::prelude::*;

verus! {

/// One audit event: an attempt, where it stands, and the digest of the
/// event before it.
#[derive(Clone, Debug, PartialEq, Eq)]
pub struct AuditEvent {
    pub schema: String,
    pub attempt: Attempt,
    pub lifecycle: Lifecycle,
    pub previous: String,
}

/// Why the audit log cannot be used.
#[derive(Clone, Debug, PartialEq, Eq)]
pub enum AuditError {
    Io(String),
    Malformed,
    Canonical(String),
}

/// How one line of the log reads: it does not parse as an event, or it is
/// the event it parses as.
#[derive(Clone, Debug)]
pub enum LineReading {
    Unparsed,
    Read(AuditEvent),
}

/// One line of the log: its bytes and how they read.
#[derive(Clone, Debug)]
pub struct AuditLine {
    pub bytes: Vec<u8>,
    pub reading: LineReading,
}

/// The digest the chain starts from.
pub open spec fn genesis() -> Seq<char> {
    "sha256:genesis"@
}

/// The canonical JSON of an event: the bytes its line must be.
pub open spec fn event_bytes(e: AuditEvent) -> Seq<u8> {
    jcs_audit_event_of(
        e.schema@,
        e.attempt.artifact_id@,
        e.attempt.nonce@,
        e.attempt.boundary@,
        e.attempt.operation@,
        e.attempt.target_digest@,
        e.attempt.snapshot_digest@,
        e.attempt.generation,
        lifecycle_text(e.lifecycle),
        e.previous@,
    )
}

/// The line an event is written as: its canonical JSON.
pub fn event_line(e: &AuditEvent) -> (r: Vec<u8>)
    ensures
        r@ == event_bytes(*e),
{
    canonical_audit_event(e, e.lifecycle.text())
}

/// A line's fault, given the digest it must name: a line that does not
/// parse, is not the canonical JSON of its event, or names another digest
/// is malformed (2).
pub open spec fn line_fault(line: AuditLine, previous: Seq<char>) -> Option<(int, Seq<char>)> {
    match line.reading {
        LineReading::Unparsed => Some((2, Seq::empty())),
        LineReading::Read(e) => if event_bytes(e) != line.bytes@ || e.previous@ != previous {
            Some((2, Seq::empty()))
        } else {
            None
        },
    }
}

/// Walking the chain over the first `k` lines: the digest of the last good
/// line, or the first fault.
pub open spec fn chain_upto(lines: Seq<AuditLine>, k: int) -> Result<Seq<char>, (int, Seq<char>)>
    decreases k,
{
    if k <= 0 {
        Ok(genesis())
    } else {
        match chain_upto(lines, k - 1) {
            Err(f) => Err(f),
            Ok(previous) => match line_fault(lines[k - 1], previous) {
                Some(f) => Err(f),
                None => Ok(sha256_text(lines[k - 1].bytes@)),
            },
        }
    }
}

/// An audit error as `(kind, text)`: 1 io, 2 malformed, 3 canonical.
pub open spec fn audit_fault(e: AuditError) -> (int, Seq<char>) {
    match e {
        AuditError::Io(s) => (1, s@),
        AuditError::Malformed => (2, Seq::empty()),
        AuditError::Canonical(s) => (3, s@),
    }
}

/// `r` is what walking the chain gives.
pub open spec fn chain_agrees(r: Result<String, AuditError>, c: Result<Seq<char>, (int, Seq<char>)>) -> bool {
    match c {
        Ok(d) => r matches Ok(s) && s@ == d,
        Err(f) => r matches Err(e) && audit_fault(e) == f,
    }
}

proof fn lemma_chain_stuck(lines: Seq<AuditLine>, k: int, n: int)
    requires
        0 <= k <= n,
        chain_upto(lines, k) is Err,
    ensures
        chain_upto(lines, n) == chain_upto(lines, k),
    decreases n - k,
{
    if n > k {
        lemma_chain_stuck(lines, k, n - 1);
    }
}

/// The audit log at a path.
#[derive(Clone, Debug)]
pub struct AuditLog {
    path: String,
}

impl View for AuditLog {
    type V = Seq<char>;

    closed spec fn view(&self) -> Seq<char> {
        self.path@
    }
}

impl AuditLog {
    pub fn new(path: String) -> (r: AuditLog)
        ensures
            r@ == path@,
    {
        AuditLog { path }
    }

    /// The path of the log.
    pub fn path(&self) -> (r: &str)
        ensures
            r@ == self@,
    {
        self.path.as_str()
    }

    /// Checks the whole chain, line by line: each line must be the
    /// canonical form of its event and name the digest of the line before
    /// it. Gives the digest of the last line (`sha256:genesis` for an empty
    /// log).
    pub fn verify(&self, lines: &Vec<AuditLine>) -> (r: Result<String, AuditError>)
        ensures
            chain_agrees(r, chain_upto(lines@, lines@.len() as int)),
    {
        let mut previous = String::from_str("sha256:genesis");
        let mut i: usize = 0;
        while i < lines.len()
            invariant
                i <= lines@.len(),
                chain_upto(lines@, i as int) == Ok::<Seq<char>, (int, Seq<char>)>(previous@),
            decreases lines.len() - i,
        {
            let line = &lines[i];
            match &line.reading {
                LineReading::Unparsed => {
                    proof {
                        lemma_chain_stuck(lines@, i + 1, lines@.len() as int);
                    }
                    return Err(AuditError::Malformed);
                },
                LineReading::Read(e) => {
                    let c = event_line(e);
                    if !bytes_equal(&c, &line.bytes) || !crate::text::text_eq(e.previous.as_str(), previous.as_str()) {
                        proof {
                            lemma_chain_stuck(lines@, i + 1, lines@.len() as int);
                        }
                        return Err(AuditError::Malformed);
                    }
                },
            }
            previous = sha256(line.bytes.as_slice());
            i = i + 1;
        }
        Ok(previous)
    }

    /// Verifies the chain and then gives the event that records `attempt`
    /// at `lifecycle` after it; the caller appends its line (`event_line`).
    pub fn append(&self, lines: &Vec<AuditLine>, attempt: Attempt, lifecycle: Lifecycle) -> (r: Result<
        AuditEvent,
        AuditError,
    >)
        ensures
            match chain_upto(lines@, lines@.len() as int) {
                Ok(d) => r matches Ok(e) && e.schema@ == "scope/audit-event/v1"@ && e.attempt
                    == attempt && e.lifecycle == lifecycle && e.previous@ == d,
                Err(f) => r matches Err(e) && audit_fault(e) == f,
            },
    {
        let previous = match self.verify(lines) {
            Err(e) => return Err(e),
            Ok(p) => p,
        };
        Ok(
            AuditEvent {
                schema: String::from_str("scope/audit-event/v1"),
                attempt,
                lifecycle,
                previous,
            },
        )
    }

    /// The digest of the last line of the log, checked to be a canonical
    /// event (`sha256:genesis` when the log has no line).
    pub fn head(&self, last: Option<&AuditLine>) -> (r: Result<String, AuditError>)
        ensures
            match last {
                None => r matches Ok(s) && s@ == genesis(),
                Some(line) => match line.reading {
                    LineReading::Unparsed => r matches Err(AuditError::Malformed),
                    LineReading::Read(e) => if event_bytes(e) != line.bytes@ {
                        r matches Err(AuditError::Malformed)
                    } else {
                        r matches Ok(s) && s@ == sha256_text(line.bytes@)
                    },
                },
            },
    {
        match last {
            None => Ok(String::from_str("sha256:genesis")),
            Some(line) => match &line.reading {
                LineReading::Unparsed => Err(AuditError::Malformed),
                LineReading::Read(e) => {
                    let c = event_line(e);
                    if !bytes_equal(&c, &line.bytes) {
                        Err(AuditError::Malformed)
                    } else {
                        Ok(sha256(c.as_slice()))
                    }
                },
            },
        }
    }
}

/// Whether two byte strings are equal.
pub fn bytes_equal(a: &Vec<u8>, b: &Vec<u8>) -> (r: bool)
    ensures
        r == (a@ == b@),
{
    if a.len() != b.len() {
        return false;
    }
    let mut i: usize = 0;
    while i < a.len()
        invariant
            a.len() == b.len(),
            i <= a.len(),
            forall|j: int| 0 <= j < i ==> a@[j] == b@[j],
        decreases a.len() - i,
    {
        if a[i] != b[i] {
            return false;
        }
        i = i + 1;
    }
    assert(a@ =~= b@);
    true
}

proof fn lemma_chain_prefix(lines: Seq<AuditLine>, line: AuditLine, k: int)
    requires
        0 <= k <= lines.len(),
    ensures
        chain_upto(lines.push(line), k) == chain_upto(lines, k),
    decreases k,
{
    if k > 0 {
        lemma_chain_prefix(lines, line, k - 1);
        assert(lines.push(line)[k - 1] == lines[k - 1]);
    }
}

/// A log with no line (one that does not exist) verifies to the genesis
/// digest.
pub proof fn lemma_empty_log_is_genesis(lines: Seq<AuditLine>)
    requires
        lines.len() == 0,
    ensures
        chain_upto(lines, lines.len() as int) == Ok::<Seq<char>, (int, Seq<char>)>(genesis()),
{
}

/// What `append` gives extends a chain that verifies: the event it gives
/// after a log whose chain ends at `head`, written as its line
/// (`event_line`) and read back as that event, makes the log verify to the
/// digest of the new line.
pub proof fn lemma_append_extends_chain(lines: Seq<AuditLine>, line: AuditLine, head: Seq<char>)
    requires
        chain_upto(lines, lines.len() as int) == Ok::<Seq<char>, (int, Seq<char>)>(head),
        line.reading matches LineReading::Read(e) && e.previous@ == head && line.bytes@ == event_bytes(e),
    ensures
        chain_upto(lines.push(line), lines.len() + 1int) == Ok::<Seq<char>, (int, Seq<char>)>(
            sha256_text(line.bytes@),
        ),
{
    lemma_chain_prefix(lines, line, lines.len() as int);
    assert(lines.push(line)[lines.len() as int] == line);
}

/// The chain is linked line by line: after lines that verify up to the
/// digest `previous`, a line whose event names any other digest, or whose
/// bytes are not the canonical JSON of its event, or that does not parse,
/// makes the whole log fail to verify.
pub proof fn lemma_unlinked_line_is_refused(lines: Seq<AuditLine>, k: int, previous: Seq<char>)
    requires
        0 <= k < lines.len(),
        chain_upto(lines, k) == Ok::<Seq<char>, (int, Seq<char>)>(previous),
        match lines[k].reading {
            LineReading::Unparsed => true,
            LineReading::Read(e) => e.previous@ != previous || lines[k].bytes@ != event_bytes(e),
        },
    ensures
        chain_upto(lines, lines.len() as int) is Err,
{
    lemma_chain_stuck(lines, k + 1, lines.len() as int);
}

/// A corrupted line, one that is not the canonical JSON of an event naming
/// the digest of the line before it, makes the whole log fail to verify,
/// whatever follows it.
pub proof fn lemma_corruption_is_detected(lines: Seq<AuditLine>, k: int, previous: Seq<char>)
    requires
        0 <= k < lines.len(),
        chain_upto(lines, k) == Ok::<Seq<char>, (int, Seq<char>)>(previous),
        line_fault(lines[k], previous) is Some,
    ensures
        chain_upto(lines, lines.len() as int) is Err,
{
    lemma_chain_stuck(lines, k + 1, lines.len() as int);
}

} // verus!
