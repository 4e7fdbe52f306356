//! Bounded collection of a child process's output, and decimal text.
use vstd::prelude::*;

verus! {

/// How long a child process may run, as a duration of whole seconds and
/// nanoseconds.
#[derive(Clone, Copy, Debug, PartialEq, Eq, Structural)]
pub struct Timeout {
    pub secs: u64,
    pub nanos: u32,
}

/// The duration is zero.
pub open spec fn timeout_zero(t: Timeout) -> bool {
    t.secs == 0 && t.nanos == 0
}

/// How a watched child process ended: it exited, successfully or not, or
/// its deadline passed first and it was killed.
#[derive(Clone, Copy, Debug, PartialEq, Eq, Structural)]
pub enum ChildEnd {
    Exited { success: bool },
    TimedOut,
}

/// How much more output fits under `limit` after `held` bytes.
pub open spec fn room(held: int, limit: int) -> int {
    if held >= limit {
        0
    } else {
        limit - held
    }
}

/// Keeps as much of `chunk` as still fits under `limit` and tells whether
/// any of it did not fit.
pub fn accept_output(out: &mut Vec<u8>, chunk: &[u8], limit: usize) -> (overflow: bool)
    ensures
        final(out)@ == old(out)@ + chunk@.take(
            if chunk@.len() <= room(old(out)@.len() as int, limit as int) {
                chunk@.len() as int
            } else {
                room(old(out)@.len() as int, limit as int)
            },
        ),
        overflow == (chunk@.len() > room(old(out)@.len() as int, limit as int)),
        final(out)@.len() <= limit || final(out)@.len() == old(out)@.len(),
{
    let available = if out.len() >= limit {
        0
    } else {
        limit - out.len()
    };
    let keep = if chunk.len() <= available {
        chunk.len()
    } else {
        available
    };
    let ghost start = out@;
    let mut i: usize = 0;
    while i < keep
        invariant
            keep <= chunk@.len(),
            i <= keep,
            out@ == start + chunk@.take(i as int),
        decreases keep - i,
    {
        out.push(chunk[i]);
        assert(out@ =~= start + chunk@.take(i + 1));
        i = i + 1;
    }
    chunk.len() > available
}

/// The decimal digit of a value below ten.
pub open spec fn digit(n: int) -> char {
    (('0' as int) + n) as char
}

/// The decimal text of a natural number.
pub open spec fn decimal(n: nat) -> Seq<char>
    decreases n,
{
    if n < 10 {
        seq![digit(n as int)]
    } else {
        decimal(n / 10) + seq![digit((n % 10) as int)]
    }
}

/// The number that a text of decimal digits spells.
pub open spec fn digits_value(s: Seq<char>) -> int
    decreases s.len(),
{
    if s.len() == 0 {
        0
    } else {
        digits_value(s.drop_last()) * 10 + (s.last() as int - '0' as int)
    }
}

/// Decimal text reads back: the text of `n` is made of ASCII digits only,
/// has no leading zero unless `n` is zero, and spells `n`.
pub proof fn lemma_decimal_reads_back(n: nat)
    ensures
        decimal(n).len() > 0,
        forall|i: int| 0 <= i < decimal(n).len() ==> '0' <= #[trigger] decimal(n)[i] && decimal(n)[i] <= '9',
        decimal(n)[0] != '0' || n == 0,
        digits_value(decimal(n)) == n,
    decreases n,
{
    if n < 10 {
        let s = decimal(n);
        assert(s.drop_last() =~= Seq::<char>::empty());
        assert(digit(n as int) as int == '0' as int + n);
        assert(s.last() == digit(n as int));
        assert(digits_value(s) == digits_value(Seq::<char>::empty()) * 10 + (s.last() as int - '0' as int));
    } else {
        let q = (n / 10) as nat;
        assert(digit((n % 10) as int) as int == '0' as int + n % 10);
        lemma_decimal_reads_back(q);
        let s = decimal(n);
        let d = digit((n % 10) as int);
        assert(s == decimal(q) + seq![d]);
        assert(s.drop_last() =~= decimal(q));
        assert(s[0] == decimal(q)[0]);
        assert forall|i: int| 0 <= i < s.len() implies '0' <= #[trigger] s[i] && s[i] <= '9' by {
            if i < decimal(q).len() {
                assert(s[i] == decimal(q)[i]);
            }
        }
        assert(q > 0);
        assert(s.last() == d);
        assert(digits_value(s) == digits_value(decimal(q)) * 10 + (d as int - '0' as int));
        assert(q * 10 + n % 10 == n);
    }
}

fn digit_text(d: u64) -> (r: &'static str)
    requires
        d < 10,
    ensures
        r@ == seq![digit(d as int)],
{
    proof {
        reveal_strlit("0");
        reveal_strlit("1");
        reveal_strlit("2");
        reveal_strlit("3");
        reveal_strlit("4");
        reveal_strlit("5");
        reveal_strlit("6");
        reveal_strlit("7");
        reveal_strlit("8");
        reveal_strlit("9");
    }
    let r = if d == 0 {
        "0"
    } else if d == 1 {
        "1"
    } else if d == 2 {
        "2"
    } else if d == 3 {
        "3"
    } else if d == 4 {
        "4"
    } else if d == 5 {
        "5"
    } else if d == 6 {
        "6"
    } else if d == 7 {
        "7"
    } else if d == 8 {
        "8"
    } else {
        "9"
    };
    assert(r@ =~= seq![digit(d as int)]);
    r
}

/// The decimal text of `n`, as `u64::to_string` gives it.
pub fn decimal_text(n: u64) -> (r: String)
    ensures
        r@ == decimal(n as nat),
    decreases n,
{
    let d = digit_text(n % 10);
    if n < 10 {
        String::from_str(d)
    } else {
        let s = decimal_text(n / 10);
        crate::text::concat2(s.as_str(), d)
    }
}

} // verus!
