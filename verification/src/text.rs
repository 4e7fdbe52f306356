//! Character-level helpers over `str` and `String`, each stated over the
//! character sequence that the text views as.
use vstd::prelude::*;

verus! {

/// Strict lexicographic order on character sequences; a proper prefix comes
/// first. This is the order of `String` in Rust, since UTF-8 byte order and
/// code point order agree.
pub open spec fn seq_lt(a: Seq<char>, b: Seq<char>) -> bool
    decreases a.len(),
{
    if a.len() == 0 {
        b.len() > 0
    } else if b.len() == 0 {
        false
    } else if a[0] != b[0] {
        (a[0] as int) < (b[0] as int)
    } else {
        seq_lt(a.drop_first(), b.drop_first())
    }
}

/// Strict lexicographic order on sequences of texts, by `seq_lt` on each entry.
pub open spec fn chain_lt(a: Seq<Seq<char>>, b: Seq<Seq<char>>) -> bool
    decreases a.len(),
{
    if a.len() == 0 {
        b.len() > 0
    } else if b.len() == 0 {
        false
    } else if a[0] != b[0] {
        seq_lt(a[0], b[0])
    } else {
        chain_lt(a.drop_first(), b.drop_first())
    }
}

/// Each entry precedes the next: the sequence is sorted with no repeats.
pub open spec fn sorted_texts(s: Seq<Seq<char>>) -> bool {
    forall|i: int, j: int| 0 <= i < j < s.len() ==> seq_lt(#[trigger] s[i], #[trigger] s[j])
}

/// Each chain precedes the next: the sequence is sorted with no repeats.
pub open spec fn sorted_chains(s: Seq<Seq<Seq<char>>>) -> bool {
    forall|i: int, j: int| 0 <= i < j < s.len() ==> chain_lt(#[trigger] s[i], #[trigger] s[j])
}

pub proof fn lemma_seq_lt_irreflexive(a: Seq<char>)
    ensures
        !seq_lt(a, a),
    decreases a.len(),
{
    if a.len() > 0 {
        lemma_seq_lt_irreflexive(a.drop_first());
    }
}

pub proof fn lemma_seq_lt_trans(a: Seq<char>, b: Seq<char>, c: Seq<char>)
    requires
        seq_lt(a, b),
        seq_lt(b, c),
    ensures
        seq_lt(a, c),
    decreases a.len(),
{
    if a.len() > 0 && b.len() > 0 && c.len() > 0 && a[0] == b[0] && b[0] == c[0] {
        lemma_seq_lt_trans(a.drop_first(), b.drop_first(), c.drop_first());
    }
}

pub proof fn lemma_seq_lt_total(a: Seq<char>, b: Seq<char>)
    ensures
        a == b || seq_lt(a, b) || seq_lt(b, a),
    decreases a.len(),
{
    if a.len() > 0 && b.len() > 0 && a[0] == b[0] {
        lemma_seq_lt_total(a.drop_first(), b.drop_first());
        if a.drop_first() == b.drop_first() {
            assert(a =~= seq![a[0]] + a.drop_first());
            assert(b =~= seq![b[0]] + b.drop_first());
        }
    } else if a.len() == 0 && b.len() == 0 {
        assert(a =~= b);
    } else if a.len() > 0 && b.len() > 0 {
        assert(a[0] != b[0]);
    }
}

pub proof fn lemma_chain_lt_irreflexive(a: Seq<Seq<char>>)
    ensures
        !chain_lt(a, a),
    decreases a.len(),
{
    if a.len() > 0 {
        lemma_chain_lt_irreflexive(a.drop_first());
    }
}

pub proof fn lemma_chain_lt_trans(a: Seq<Seq<char>>, b: Seq<Seq<char>>, c: Seq<Seq<char>>)
    requires
        chain_lt(a, b),
        chain_lt(b, c),
    ensures
        chain_lt(a, c),
    decreases a.len(),
{
    if a.len() > 0 && b.len() > 0 && c.len() > 0 {
        if a[0] == b[0] && b[0] == c[0] {
            lemma_chain_lt_trans(a.drop_first(), b.drop_first(), c.drop_first());
        } else if a[0] != b[0] && b[0] != c[0] {
            lemma_seq_lt_trans(a[0], b[0], c[0]);
            if a[0] == c[0] {
                lemma_seq_lt_irreflexive(a[0]);
            }
        } else if a[0] != b[0] {
            assert(b[0] == c[0]);
        }
    }
}

pub proof fn lemma_chain_lt_total(a: Seq<Seq<char>>, b: Seq<Seq<char>>)
    ensures
        a == b || chain_lt(a, b) || chain_lt(b, a),
    decreases a.len(),
{
    if a.len() > 0 && b.len() > 0 && a[0] == b[0] {
        lemma_chain_lt_total(a.drop_first(), b.drop_first());
        if a.drop_first() == b.drop_first() {
            assert(a =~= seq![a[0]] + a.drop_first());
            assert(b =~= seq![b[0]] + b.drop_first());
        }
    } else if a.len() == 0 && b.len() == 0 {
        assert(a =~= b);
    } else if a.len() > 0 && b.len() > 0 {
        lemma_seq_lt_total(a[0], b[0]);
    }
}

pub proof fn lemma_chain_lt_asym(a: Seq<Seq<char>>, b: Seq<Seq<char>>)
    requires
        chain_lt(a, b),
    ensures
        !chain_lt(b, a),
{
    if chain_lt(b, a) {
        lemma_chain_lt_trans(a, b, a);
        lemma_chain_lt_irreflexive(a);
    }
}

/// The characters of `s`, one per entry.
pub fn chars_of(s: &str) -> (v: Vec<char>)
    ensures
        v@ == s@,
{
    let n = s.unicode_len();
    let mut v: Vec<char> = Vec::new();
    let mut i: usize = 0;
    while i < n
        invariant
            n == s@.len(),
            i <= n,
            v@ == s@.subrange(0, i as int),
        decreases n - i,
    {
        v.push(s.get_char(i));
        i = i + 1;
        assert(v@ =~= s@.subrange(0, i as int));
    }
    assert(v@ =~= s@);
    v
}

/// Whether two texts hold the same characters.
pub fn text_eq(a: &str, b: &str) -> (r: bool)
    ensures
        r == (a@ == b@),
{
    let x = chars_of(a);
    let y = chars_of(b);
    if x.len() != y.len() {
        return false;
    }
    let mut i: usize = 0;
    while i < x.len()
        invariant
            x@ == a@,
            y@ == b@,
            x.len() == y.len(),
            i <= x.len(),
            forall|j: int| 0 <= j < i ==> x@[j] == y@[j],
        decreases x.len() - i,
    {
        if x[i] != y[i] {
            return false;
        }
        i = i + 1;
    }
    assert(a@ =~= b@);
    true
}

/// Whether the characters of `p` begin `s`.
pub fn has_prefix(s: &[char], p: &[char]) -> (r: bool)
    ensures
        r == p@.is_prefix_of(s@),
{
    if p.len() > s.len() {
        return false;
    }
    let mut i: usize = 0;
    while i < p.len()
        invariant
            p.len() <= s.len(),
            i <= p.len(),
            forall|j: int| 0 <= j < i ==> p@[j] == s@[j],
        decreases p.len() - i,
    {
        if p[i] != s[i] {
            return false;
        }
        i = i + 1;
    }
    assert(p@ =~= s@.subrange(0, p@.len() as int));
    true
}

/// Whether the characters of `p` end `s`.
pub fn has_suffix(s: &[char], p: &[char]) -> (r: bool)
    ensures
        r == p@.is_suffix_of(s@),
{
    if p.len() > s.len() {
        return false;
    }
    let off = s.len() - p.len();
    let mut i: usize = 0;
    while i < p.len()
        invariant
            p.len() <= s.len(),
            off == s.len() - p.len(),
            i <= p.len(),
            forall|j: int| 0 <= j < i ==> p@[j] == s@[off + j],
        decreases p.len() - i,
    {
        if p[i] != s[off + i] {
            return false;
        }
        i = i + 1;
    }
    assert(p@ =~= s@.subrange(s@.len() - p@.len(), s@.len() as int));
    true
}

/// Whether `c` occurs in `s`.
pub fn has_char(s: &[char], c: char) -> (r: bool)
    ensures
        r == s@.contains(c),
{
    let mut i: usize = 0;
    while i < s.len()
        invariant
            i <= s.len(),
            forall|j: int| 0 <= j < i ==> s@[j] != c,
        decreases s.len() - i,
    {
        if s[i] == c {
            assert(s@[i as int] == c);
            return true;
        }
        i = i + 1;
    }
    false
}

/// Whether `a` precedes `b` in the order of `String`.
pub fn text_lt(a: &[char], b: &[char]) -> (r: bool)
    ensures
        r == seq_lt(a@, b@),
{
    let mut i: usize = 0;
    assert(a@.skip(0) =~= a@);
    assert(b@.skip(0) =~= b@);
    while i < a.len() && i < b.len() && a[i] == b[i]
        invariant
            i <= a.len(),
            i <= b.len(),
            forall|j: int| 0 <= j < i ==> a@[j] == b@[j],
            seq_lt(a@, b@) == seq_lt(a@.skip(i as int), b@.skip(i as int)),
        decreases a.len() - i,
    {
        assert(a@.skip(i as int).drop_first() =~= a@.skip(i + 1));
        assert(b@.skip(i as int).drop_first() =~= b@.skip(i + 1));
        i = i + 1;
    }
    if i == a.len() {
        i < b.len()
    } else if i == b.len() {
        false
    } else {
        a[i] < b[i]
    }
}

/// Whether `a` precedes `b` in the order of `String`.
pub fn string_lt(a: &String, b: &String) -> (r: bool)
    ensures
        r == seq_lt(a@, b@),
{
    let x = chars_of(a.as_str());
    let y = chars_of(b.as_str());
    text_lt(&x, &y)
}

/// The characters of `s` from `from` up to `to`, as a new `String`.
pub fn slice_text(s: &str, from: usize, to: usize) -> (r: String)
    requires
        from <= to <= s@.len(),
    ensures
        r@ == s@.subrange(from as int, to as int),
{
    String::from_str(s.substring_char(from, to))
}

/// `a` followed by `b`.
pub fn concat2(a: &str, b: &str) -> (r: String)
    ensures
        r@ == a@ + b@,
{
    String::from_str(a).concat(b)
}

/// `a`, then `b`, then `c`.
pub fn concat3(a: &str, b: &str, c: &str) -> (r: String)
    ensures
        r@ == a@ + b@ + c@,
{
    String::from_str(a).concat(b).concat(c)
}

/// A copy of `s`.
pub fn copy_text(s: &String) -> (r: String)
    ensures
        r@ == s@,
{
    s.clone()
}

/// A copy of every text in `v`.
pub fn copy_texts(v: &Vec<String>) -> (r: Vec<String>)
    ensures
        r.deep_view() == v.deep_view(),
{
    let mut r: Vec<String> = Vec::new();
    let mut i: usize = 0;
    while i < v.len()
        invariant
            i <= v.len(),
            r.len() == i,
            forall|j: int| 0 <= j < i ==> r@[j]@ == v@[j]@,
        decreases v.len() - i,
    {
        r.push(v[i].clone());
        i = i + 1;
    }
    assert(r.deep_view() =~= v.deep_view());
    r
}

/// Whether some entry of `v` holds the characters of `x`.
pub fn texts_contain(v: &Vec<String>, x: &str) -> (r: bool)
    ensures
        r == v.deep_view().contains(x@),
{
    let mut i: usize = 0;
    while i < v.len()
        invariant
            i <= v.len(),
            forall|j: int| 0 <= j < i ==> v.deep_view()[j] != x@,
        decreases v.len() - i,
    {
        if text_eq(v[i].as_str(), x) {
            assert(v.deep_view()[i as int] == x@);
            return true;
        }
        i = i + 1;
    }
    false
}

/// Inserts `x` into a sorted text list unless an equal entry is present.
pub fn insert_text_sorted(v: &mut Vec<String>, x: String)
    requires
        sorted_texts(old(v).deep_view()),
    ensures
        sorted_texts(final(v).deep_view()),
        final(v).deep_view().to_set() == old(v).deep_view().to_set().insert(x@),
{
    let ghost old_v = v.deep_view();
    let mut i: usize = 0;
    while i < v.len() && string_lt(&v[i], &x)
        invariant
            v.deep_view() == old_v,
            sorted_texts(old_v),
            i <= v.len(),
            forall|j: int| 0 <= j < i ==> seq_lt(old_v[j], x@),
        decreases v.len() - i,
    {
        i = i + 1;
    }
    if i < v.len() {
        if !string_lt(&x, &v[i]) {
            proof {
                lemma_seq_lt_total(old_v[i as int], x@);
                assert(old_v[i as int] == x@);
                assert(old_v.to_set().insert(x@) =~= old_v.to_set());
            }
            return;
        }
    }
    v.insert(i, x);
    proof {
        let nv = v.deep_view();
        assert(nv =~= old_v.insert(i as int, x@));
        assert forall|a: int, b: int| 0 <= a < b < nv.len() implies seq_lt(
            #[trigger] nv[a],
            #[trigger] nv[b],
        ) by {
            if b < i {
            } else if a < i && b == i {
            } else if a < i && b > i {
                assert(nv[b] == old_v[b - 1]);
            } else if a == i {
                if b - 1 > i {
                    assert(seq_lt(old_v[i as int], old_v[b - 1]));
                    lemma_seq_lt_trans(x@, old_v[i as int], old_v[b - 1]);
                }
            } else {
                assert(nv[a] == old_v[a - 1]);
                assert(nv[b] == old_v[b - 1]);
            }
        }
        assert(nv.to_set() =~= old_v.to_set().insert(x@)) by {
            assert forall|e: Seq<char>| nv.to_set().contains(e) implies old_v.to_set().insert(
                x@,
            ).contains(e) by {
                let k = choose|k: int| 0 <= k < nv.len() && nv[k] == e;
                if k < i {
                    assert(old_v[k] == e);
                } else if k > i {
                    assert(old_v[k - 1] == e);
                }
            }
            assert forall|e: Seq<char>| old_v.to_set().insert(x@).contains(e) implies nv.to_set().contains(
                e,
            ) by {
                if e == x@ {
                    assert(nv[i as int] == e);
                } else {
                    let k = choose|k: int| 0 <= k < old_v.len() && old_v[k] == e;
                    if k < i {
                        assert(nv[k] == e);
                    } else {
                        assert(nv[k + 1] == e);
                    }
                }
            }
        }
    }
}

/// Whether two character slices hold the same characters.
pub fn chars_eq(a: &[char], b: &[char]) -> (r: bool)
    ensures
        r == (a@ == b@),
{
    if a.len() != b.len() {
        return false;
    }
    let mut i: usize = 0;
    while i < a.len()
        invariant
            a.len() == b.len(),
            i <= a.len(),
            forall|j: int| 0 <= j < i ==> a@[j] == b@[j],
        decreases a.len() - i,
    {
        if a[i] != b[i] {
            return false;
        }
        i = i + 1;
    }
    assert(a@ =~= b@);
    true
}

/// The first `n` characters of `v`.
pub fn take_chars(v: &[char], n: usize) -> (r: Vec<char>)
    requires
        n <= v@.len(),
    ensures
        r@ == v@.subrange(0, n as int),
{
    let mut r: Vec<char> = Vec::new();
    let mut i: usize = 0;
    while i < n
        invariant
            n <= v@.len(),
            i <= n,
            r@ == v@.subrange(0, i as int),
        decreases n - i,
    {
        r.push(v[i]);
        i = i + 1;
        assert(r@ =~= v@.subrange(0, i as int));
    }
    r
}

/// Whether `c` is an ASCII letter or digit.
pub open spec fn ascii_alnum(c: char) -> bool {
    ('a' <= c && c <= 'z') || ('A' <= c && c <= 'Z') || ('0' <= c && c <= '9')
}

/// Whether `c` is an ASCII letter or digit.
pub fn is_ascii_alnum(c: char) -> (r: bool)
    ensures
        r == ascii_alnum(c),
{
    ('a' <= c && c <= 'z') || ('A' <= c && c <= 'Z') || ('0' <= c && c <= '9')
}

/// Whether chain `a` precedes chain `b` (see `chain_lt`).
pub fn chain_less(a: &Vec<String>, b: &Vec<String>) -> (r: bool)
    ensures
        r == chain_lt(a.deep_view(), b.deep_view()),
{
    let ghost av = a.deep_view();
    let ghost bv = b.deep_view();
    let mut i: usize = 0;
    assert(av.skip(0) =~= av);
    assert(bv.skip(0) =~= bv);
    while i < a.len() && i < b.len() && a[i] == b[i]
        invariant
            av == a.deep_view(),
            bv == b.deep_view(),
            i <= a.len(),
            i <= b.len(),
            chain_lt(av, bv) == chain_lt(av.skip(i as int), bv.skip(i as int)),
        decreases a.len() - i,
    {
        assert(av.skip(i as int).drop_first() =~= av.skip(i + 1));
        assert(bv.skip(i as int).drop_first() =~= bv.skip(i + 1));
        assert(av[i as int] == bv[i as int]);
        i = i + 1;
    }
    if i == a.len() {
        i < b.len()
    } else if i == b.len() {
        false
    } else {
        assert(av[i as int] != bv[i as int]);
        string_lt(&a[i], &b[i])
    }
}

/// Inserts chain `x` into a sorted chain list unless an equal one is present.
pub fn insert_chain_sorted(v: &mut Vec<Vec<String>>, x: Vec<String>)
    requires
        sorted_chains(old(v).deep_view()),
    ensures
        sorted_chains(final(v).deep_view()),
        final(v).deep_view().to_set() == old(v).deep_view().to_set().insert(x.deep_view()),
{
    let ghost old_v = v.deep_view();
    let ghost xv = x.deep_view();
    let mut i: usize = 0;
    while i < v.len() && chain_less(&v[i], &x)
        invariant
            v.deep_view() == old_v,
            xv == x.deep_view(),
            sorted_chains(old_v),
            i <= v.len(),
            forall|j: int| 0 <= j < i ==> chain_lt(old_v[j], xv),
        decreases v.len() - i,
    {
        i = i + 1;
    }
    if i < v.len() {
        if !chain_less(&x, &v[i]) {
            proof {
                lemma_chain_lt_total(old_v[i as int], xv);
                assert(old_v[i as int] == xv);
                assert(old_v.to_set().insert(xv) =~= old_v.to_set());
            }
            return;
        }
    }
    v.insert(i, x);
    proof {
        let nv = v.deep_view();
        assert(nv =~= old_v.insert(i as int, xv));
        assert forall|a: int, b: int| 0 <= a < b < nv.len() implies chain_lt(
            #[trigger] nv[a],
            #[trigger] nv[b],
        ) by {
            if b < i {
            } else if a < i && b == i {
            } else if a < i && b > i {
                assert(nv[b] == old_v[b - 1]);
            } else if a == i {
                if b - 1 > i {
                    assert(chain_lt(old_v[i as int], old_v[b - 1]));
                    lemma_chain_lt_trans(xv, old_v[i as int], old_v[b - 1]);
                }
            } else {
                assert(nv[a] == old_v[a - 1]);
                assert(nv[b] == old_v[b - 1]);
            }
        }
        assert(nv.to_set() =~= old_v.to_set().insert(xv)) by {
            assert forall|e: Seq<Seq<char>>| nv.to_set().contains(e) implies old_v.to_set().insert(
                xv,
            ).contains(e) by {
                let k = choose|k: int| 0 <= k < nv.len() && nv[k] == e;
                if k < i {
                    assert(old_v[k] == e);
                } else if k > i {
                    assert(old_v[k - 1] == e);
                }
            }
            assert forall|e: Seq<Seq<char>>| old_v.to_set().insert(xv).contains(e) implies nv.to_set().contains(
                e,
            ) by {
                if e == xv {
                    assert(nv[i as int] == e);
                } else {
                    let k = choose|k: int| 0 <= k < old_v.len() && old_v[k] == e;
                    if k < i {
                        assert(nv[k] == e);
                    } else {
                        assert(nv[k + 1] == e);
                    }
                }
            }
        }
    }
}

/// `t` occurs in `s`.
pub open spec fn occurs_in(s: Seq<char>, t: Seq<char>) -> bool {
    exists|i: int| 0 <= i <= s.len() - t.len() && #[trigger] s.subrange(i, i + t.len()) == t
}

/// Whether the characters of `t` occur in `s`.
pub fn has_text(s: &[char], t: &[char]) -> (r: bool)
    ensures
        r == occurs_in(s@, t@),
{
    if t.len() > s.len() {
        return false;
    }
    let mut i: usize = 0;
    while i <= s.len() - t.len()
        invariant
            t.len() <= s.len(),
            i <= s.len() - t.len() + 1,
            forall|k: int| 0 <= k < i ==> #[trigger] s@.subrange(k, k + t@.len()) != t@,
        decreases s.len() - t.len() + 1 - i,
    {
        let mut j: usize = 0;
        let mut same = true;
        while j < t.len()
            invariant
                t.len() <= s.len(),
                i <= s.len() - t.len(),
                j <= t.len(),
                same == forall|q: int| 0 <= q < j ==> s@[i + q] == t@[q],
            decreases t.len() - j,
        {
            if s[i + j] != t[j] {
                same = false;
            }
            j = j + 1;
        }
        if same {
            assert(s@.subrange(i as int, i + t@.len()) =~= t@);
            return true;
        }
        proof {
            let q = choose|q: int| 0 <= q < t.len() && s@[i + q] != t@[q];
            assert(s@.subrange(i as int, i + t@.len())[q] != t@[q]);
        }
        i = i + 1;
    }
    false
}

/// ASCII letters made lowercase, every other character kept.
pub open spec fn ascii_lower(c: char) -> char {
    if 'A' <= c && c <= 'Z' {
        ((c as int) + 32) as char
    } else {
        c
    }
}

/// Whether `c`, made lowercase, is `lower`.
pub fn lowers_to(c: char, lower: char) -> (r: bool)
    ensures
        r == (ascii_lower(c) == lower),
{
    if 'A' <= c && c <= 'Z' {
        (c as u32) + 32 == (lower as u32)
    } else {
        c == lower
    }
}

} // verus!
