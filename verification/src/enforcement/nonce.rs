//! Single-use nonces: a nonce is consumed by creating its file, once.
use crate::crypto::hex_value;
use crate::enforcement::state::{active_for, joined_path, BrokerState, StateError};
use vstd::prelude::*;

verus! {

/// Why a nonce cannot be admitted.
#[derive(Clone, Debug, PartialEq, Eq)]
pub enum NonceError {
    State(StateError),
    Invalid,
    Replay,
    Io(String),
}

/// A well-formed nonce: 64 hex digits.
pub open spec fn nonce_well_formed(nonce: Seq<char>) -> bool {
    nonce.len() == 64 && forall|i: int| 0 <= i < nonce.len() ==> hex_value(#[trigger] nonce[i]) is Some
}

/// The consumed nonces of one boundary.
#[derive(Clone, Debug)]
pub struct NonceStore {
    state: BrokerState,
}

impl View for NonceStore {
    type V = (Seq<char>, crate::enforcement::state::StateRecord);

    closed spec fn view(&self) -> (Seq<char>, crate::enforcement::state::StateRecord) {
        self.state@
    }
}

fn hex_char(c: char) -> (r: bool)
    ensures
        r == hex_value(c) is Some,
{
    ('0' <= c && c <= '9') || ('a' <= c && c <= 'f') || ('A' <= c && c <= 'F')
}

impl NonceStore {
    pub fn new(state: BrokerState) -> (r: NonceStore)
        ensures
            r@ == state@,
    {
        NonceStore { state }
    }

    /// Checks a nonce for admission at `generation`: the boundary must be
    /// active at it, then the nonce well formed. Gives the file whose
    /// creation consumes it; the caller creates that file exclusively, and
    /// an existing file is a replay. Admission is durable and irrevocable.
    pub fn admit_nonce(&self, nonce: &str, generation: u64) -> (r: Result<String, NonceError>)
        ensures
            !active_for(self@.1, generation) ==> (r matches Err(NonceError::State(e)) && e == if self@.1.disabled {
                StateError::Disabled
            } else {
                StateError::Generation
            }),
            active_for(self@.1, generation) && !nonce_well_formed(nonce@) ==> (r matches Err(
                NonceError::Invalid,
            )),
            active_for(self@.1, generation) && nonce_well_formed(nonce@) ==> (r matches Ok(p) && p@
                == joined_path(joined_path(self@.0, "nonces"@), nonce@)),
    {
        match self.state.require_active(generation) {
            Err(e) => return Err(NonceError::State(e)),
            Ok(_) => {},
        }
        let chars = crate::text::chars_of(nonce);
        if chars.len() != 64 {
            return Err(NonceError::Invalid);
        }
        let mut i: usize = 0;
        while i < chars.len()
            invariant
                active_for(self@.1, generation),
                chars@ == nonce@,
                i <= chars.len(),
                forall|j: int| 0 <= j < i ==> hex_value(#[trigger] chars@[j]) is Some,
            decreases chars.len() - i,
        {
            if !hex_char(chars[i]) {
                return Err(NonceError::Invalid);
            }
            i = i + 1;
        }
        let dir = self.state.nonce_dir();
        Ok(crate::enforcement::state::join_path(dir.as_str(), nonce))
    }
}

/// The nonces a boundary admits are exactly the texts of 64 hexadecimal
/// digits, in either case.
pub proof fn lemma_nonce_shape(nonce: Seq<char>)
    ensures
        nonce_well_formed(nonce) <==> (nonce.len() == 64 && forall|i: int|
            0 <= i < nonce.len() ==> ('0' <= #[trigger] nonce[i] && nonce[i] <= '9') || ('a' <= nonce[i]
                && nonce[i] <= 'f') || ('A' <= nonce[i] && nonce[i] <= 'F')),
{
}

/// A nonce is consumed through exactly one file of its boundary: two
/// well-formed nonces name the same file exactly when they are the same
/// nonce, so a nonce admits once and distinct nonces never collide.
pub proof fn lemma_nonce_files_distinct(root: Seq<char>, a: Seq<char>, b: Seq<char>)
    requires
        nonce_well_formed(a),
        nonce_well_formed(b),
    ensures
        (joined_path(joined_path(root, "nonces"@), a) == joined_path(joined_path(root, "nonces"@), b)) <==> a
            == b,
{
    reveal_strlit("nonces");
    let d = joined_path(root, "nonces"@);
    assert(d.len() > 0);
    assert(d.last() == 's');
    let pre = d + seq!['/'];
    if joined_path(d, a) == joined_path(d, b) {
        assert(joined_path(d, a) == pre + a);
        assert(joined_path(d, b) == pre + b);
        assert((pre + a).skip(pre.len() as int) =~= a);
        assert((pre + b).skip(pre.len() as int) =~= b);
    }
}

} // verus!
