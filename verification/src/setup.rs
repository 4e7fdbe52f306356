//! The decisions of first-run setup and of the command line around it:
//! which location the user picked, whether they confirmed it, which global
//! root `global init` uses, and the exit status of a policy decision.
use crate::layout::{DiscoveryError, DIRECTORY};
use crate::enforcement::state::{join_path, joined_path};
use crate::text::{chars_of, has_text, occurs_in, slice_text};
use vstd::prelude::*;

verus! {

/// The characters Rust counts as whitespace (`char::is_whitespace`).
pub open spec fn is_space(c: char) -> bool {
    ||| ('\t' <= c && c <= '\r')
    ||| c == ' '
    ||| c == '\u{85}'
    ||| c == '\u{A0}'
    ||| c == '\u{1680}'
    ||| ('\u{2000}' <= c && c <= '\u{200A}')
    ||| c == '\u{2028}'
    ||| c == '\u{2029}'
    ||| c == '\u{202F}'
    ||| c == '\u{205F}'
    ||| c == '\u{3000}'
}

fn space(c: char) -> (r: bool)
    ensures
        r == is_space(c),
{
    ('\t' <= c && c <= '\r') || c == ' ' || c == '\u{85}' || c == '\u{A0}' || c == '\u{1680}' || ('\u{2000}' <= c
        && c <= '\u{200A}') || c == '\u{2028}' || c == '\u{2029}' || c == '\u{202F}' || c == '\u{205F}' || c
        == '\u{3000}'
}

/// `s` without the whitespace at either end, as `str::trim` gives it.
pub open spec fn trimmed(s: Seq<char>, start: int, end: int) -> bool {
    &&& 0 <= start <= end <= s.len()
    &&& forall|i: int| 0 <= i < start ==> is_space(#[trigger] s[i])
    &&& forall|i: int| end <= i < s.len() ==> is_space(#[trigger] s[i])
    &&& start < end ==> !is_space(s[start]) && !is_space(s[end - 1])
}

/// The trimmed text of `s`: the part between its first and last characters
/// that are not whitespace.
pub open spec fn trim_text(s: Seq<char>) -> Seq<char> {
    let (a, b) = choose|a: int, b: int| trimmed(s, a, b);
    s.subrange(a, b)
}

proof fn lemma_trim_unique(s: Seq<char>, a: int, b: int)
    requires
        trimmed(s, a, b),
    ensures
        trim_text(s) == s.subrange(a, b),
{
    let (x, y) = choose|x: int, y: int| trimmed(s, x, y);
    if a < b {
        if x < a {
            assert(is_space(s[x]));
        }
        if a < x {
            assert(is_space(s[a]));
        }
        if y > b {
            assert(is_space(s[y - 1]));
        }
        if y < b {
            assert(is_space(s[b - 1]));
        }
    } else {
        if x < y {
            if x < a {
                assert(is_space(s[x]));
            } else {
                assert(is_space(s[x]));
            }
        }
        assert(s.subrange(x, y) =~= Seq::<char>::empty());
        assert(s.subrange(a, b) =~= Seq::<char>::empty());
    }
}

/// `s` without surrounding whitespace (see `trim_text`).
pub fn trim(s: &str) -> (r: String)
    ensures
        r@ == trim_text(s@),
{
    let v = chars_of(s);
    let mut a: usize = 0;
    while a < v.len() && space(v[a])
        invariant
            v@ == s@,
            a <= v@.len(),
            forall|i: int| 0 <= i < a ==> is_space(#[trigger] v@[i]),
        decreases v.len() - a,
    {
        a = a + 1;
    }
    let mut b: usize = v.len();
    while b > a && space(v[b - 1])
        invariant
            v@ == s@,
            a <= b <= v@.len(),
            forall|i: int| b <= i < v@.len() ==> is_space(#[trigger] v@[i]),
        decreases b,
    {
        b = b - 1;
    }
    proof {
        assert(trimmed(s@, a as int, b as int));
        lemma_trim_unique(s@, a as int, b as int);
    }
    slice_text(s, a, b)
}

/// What the user chose for the global location.
#[derive(Clone, Copy, Debug, PartialEq, Eq, Structural)]
pub enum SetupChoice {
    Recommended,
    Other,
    Invalid,
}

/// A selection picks the recommended location when it is empty or `1`, asks
/// for another location when it is `2`, and is invalid otherwise; the
/// whitespace around it does not count.
pub fn setup_choice(answer: &str) -> (r: SetupChoice)
    ensures
        r == if trim_text(answer@) == Seq::<char>::empty() || trim_text(answer@) == "1"@ {
            SetupChoice::Recommended
        } else if trim_text(answer@) == "2"@ {
            SetupChoice::Other
        } else {
            SetupChoice::Invalid
        },
{
    let t = trim(answer);
    proof {
        reveal_strlit("1");
        reveal_strlit("2");
    }
    if t.unicode_len() == 0 || crate::text::text_eq(t.as_str(), "1") {
        assert(t@.len() == 0 ==> t@ =~= Seq::<char>::empty());
        SetupChoice::Recommended
    } else if crate::text::text_eq(t.as_str(), "2") {
        SetupChoice::Other
    } else {
        SetupChoice::Invalid
    }
}

/// The location typed in for "another location": the line without its
/// surrounding whitespace, or none when nothing is left.
pub fn entered_location(line: &str) -> (r: Option<String>)
    ensures
        trim_text(line@).len() == 0 ==> r is None,
        trim_text(line@).len() > 0 ==> (r matches Some(p) && p@ == trim_text(line@)),
{
    let t = trim(line);
    if t.unicode_len() == 0 {
        None
    } else {
        Some(t)
    }
}

/// ASCII letters made lowercase, as `to_ascii_lowercase` does.
pub open spec fn ascii_lowered(s: Seq<char>) -> Seq<char> {
    s.map_values(|c: char| crate::text::ascii_lower(c))
}

/// A confirmation declines only when it is `n` or `no`, in any letter case,
/// with whitespace around it; anything else, the empty answer too, accepts.
pub fn confirmed(answer: &str) -> (r: bool)
    ensures
        r == !(ascii_lowered(trim_text(answer@)) == "n"@ || ascii_lowered(trim_text(answer@)) == "no"@),
{
    let t = chars_of(trim(answer).as_str());
    proof {
        reveal_strlit("n");
        reveal_strlit("no");
    }
    let ghost low = ascii_lowered(t@);
    if t.len() == 1 {
        let r = !crate::text::lowers_to(t[0], 'n');
        assert(!r ==> low =~= "n"@);
        assert(r ==> low[0] != "n"@[0]);
        assert(low.len() != "no"@.len());
        r
    } else if t.len() == 2 {
        let r = !(crate::text::lowers_to(t[0], 'n') && crate::text::lowers_to(t[1], 'o'));
        assert(!r ==> low =~= "no"@);
        assert(r ==> low[0] != "no"@[0] || low[1] != "no"@[1]);
        assert(low.len() != "n"@.len());
        r
    } else {
        assert(low.len() == t@.len());
        assert(low.len() != "no"@.len());
        assert(low.len() != "n"@.len());
        true
    }
}

/// The root `global init` initializes: the one given, else the configured
/// global root, else `.kero` under the home directory when no global
/// environment is configured yet (and an error naming `--root` without a
/// home directory); any other discovery failure is reported as it is.
pub fn global_init_root(
    explicit: Option<String>,
    discovered: Result<String, DiscoveryError>,
    home: Option<String>,
) -> (r: Result<String, Result<DiscoveryError, String>>)
    ensures
        explicit matches Some(e) ==> r == Ok::<String, Result<DiscoveryError, String>>(e),
        explicit is None ==> match discovered {
            Ok(c) => r == Ok::<String, Result<DiscoveryError, String>>(c),
            Err(DiscoveryError::GlobalUnconfigured) => match home {
                Some(h) => r matches Ok(p) && p@ == joined_path(h@, DIRECTORY@),
                None => r matches Err(Err(m)) && m@ == "HOME is unavailable; pass --root"@,
            },
            Err(e) => r == Err::<String, Result<DiscoveryError, String>>(Ok(e)),
        },
{
    if let Some(e) = explicit {
        return Ok(e);
    }
    match discovered {
        Ok(c) => Ok(c),
        Err(DiscoveryError::GlobalUnconfigured) => match home {
            Some(h) => Ok(join_path(h.as_str(), DIRECTORY)),
            None => Err(Err(String::from_str("HOME is unavailable; pass --root"))),
        },
        Err(e) => Err(Ok(e)),
    }
}

/// The exit status of a policy command: 0 when the request is allowed, 2
/// when it is denied, 1 when no decision could be made.
pub fn policy_exit(decision: Option<&str>) -> (r: i32)
    ensures
        r == match decision {
            None => 1i32,
            Some(d) => if d@ == "ALLOW"@ {
                0i32
            } else {
                2i32
            },
        },
{
    match decision {
        None => 1,
        Some(d) => if crate::text::text_eq(d, "ALLOW") {
            0
        } else {
            2
        },
    }
}

/// The whitespace-separated words of `s`, in order, as `split_whitespace`
/// gives them.
pub open spec fn words(s: Seq<char>) -> Seq<Seq<char>>
    decreases s.len(),
{
    if s.len() == 0 {
        Seq::empty()
    } else {
        let w = words(s.drop_last());
        let c = s.last();
        if is_space(c) {
            w
        } else if s.len() >= 2 && !is_space(s[s.len() - 2]) && w.len() > 0 {
            w.update(w.len() - 1, w.last().push(c))
        } else {
            w.push(seq![c])
        }
    }
}

/// The pieces of `s` between line feeds, the empty ones included.
pub open spec fn lines_of(s: Seq<char>) -> Seq<Seq<char>>
    decreases s.len(),
{
    if s.len() == 0 {
        seq![Seq::empty()]
    } else {
        let prev = lines_of(s.drop_last());
        if s.last() == '\n' {
            prev.push(Seq::empty())
        } else {
            prev.update(prev.len() - 1, prev.last().push(s.last()))
        }
    }
}

/// File systems whose mounts are never offered as storage locations.
pub open spec fn ignored_fs(t: Seq<char>) -> bool {
    ||| t == "proc"@
    ||| t == "sysfs"@
    ||| t == "devtmpfs"@
    ||| t == "devpts"@
    ||| t == "cgroup"@
    ||| t == "cgroup2"@
    ||| t == "tmpfs"@
    ||| t == "overlay"@
}

/// The comma-separated options include `rw`.
pub open spec fn rw_option(options: Seq<char>) -> bool {
    occurs_in(","@ + options + ","@, ",rw,"@)
}

/// A mount point as `/proc/mounts` writes it, with each `\040` read back
/// as a space, from the left.
pub open spec fn unescape_spaces(s: Seq<char>) -> Seq<char>
    decreases s.len(),
{
    if s.len() == 0 {
        Seq::empty()
    } else if s.len() >= 4 && s.take(4) == "\\040"@ {
        seq![' '] + unescape_spaces(s.skip(4))
    } else {
        seq![s[0]] + unescape_spaces(s.skip(1))
    }
}

/// The mount point of a line of `/proc/mounts` that is offered: one with at
/// least four fields whose file system is not ignored and whose options
/// include `rw`.
pub open spec fn offered_mount(line: Seq<char>) -> Option<Seq<char>> {
    let f = words(line);
    if f.len() >= 4 && !ignored_fs(f[2]) && rw_option(f[3]) {
        Some(unescape_spaces(f[1]))
    } else {
        None
    }
}

/// Which mounts are offered as storage locations: never a line with fewer
/// than four fields, never one of the pseudo or volatile file systems
/// `proc`, `sysfs`, `devtmpfs`, `devpts`, `cgroup`, `cgroup2`, `tmpfs` and
/// `overlay`, and never a mount whose only option is `ro`; a mount of any
/// other file system whose options are just `rw` is offered at its mount
/// point.
pub proof fn lemma_offered_mounts(line: Seq<char>)
    ensures
        words(line).len() < 4 ==> offered_mount(line) is None,
        words(line).len() >= 4 && ({
            let t = words(line)[2];
            ||| t == "proc"@
            ||| t == "sysfs"@
            ||| t == "devtmpfs"@
            ||| t == "devpts"@
            ||| t == "cgroup"@
            ||| t == "cgroup2"@
            ||| t == "tmpfs"@
            ||| t == "overlay"@
        }) ==> offered_mount(line) is None,
        words(line).len() >= 4 && words(line)[3] == "ro"@ ==> offered_mount(line) is None,
        words(line).len() >= 4 && words(line)[3] == "rw"@ && !({
            let t = words(line)[2];
            ||| t == "proc"@
            ||| t == "sysfs"@
            ||| t == "devtmpfs"@
            ||| t == "devpts"@
            ||| t == "cgroup"@
            ||| t == "cgroup2"@
            ||| t == "tmpfs"@
            ||| t == "overlay"@
        }) ==> offered_mount(line) == Some(unescape_spaces(words(line)[1])),
{
    reveal_strlit(",");
    reveal_strlit(",rw,");
    reveal_strlit("rw");
    reveal_strlit("ro");
    let padded_rw = ","@ + "rw"@ + ","@;
    assert(padded_rw.subrange(0int, 0int + ",rw,"@.len()) =~= ",rw,"@);
    assert(occurs_in(padded_rw, ",rw,"@));
    assert(rw_option("rw"@));
    let padded_ro = ","@ + "ro"@ + ","@;
    assert(!rw_option("ro"@)) by {
        if occurs_in(padded_ro, ",rw,"@) {
            let i = choose|i: int| 0 <= i <= padded_ro.len() - ",rw,"@.len() && #[trigger] padded_ro.subrange(
                i,
                i + ",rw,"@.len(),
            ) == ",rw,"@;
            assert(i == 0);
            assert(padded_ro.subrange(0, 4)[2] == padded_ro[2]);
            assert(",rw,"@[2] == 'w');
        }
    }
}

/// The offered mount points of the lines, in order.
pub open spec fn offered_mounts(lines: Seq<Seq<char>>) -> Seq<Seq<char>>
    decreases lines.len(),
{
    if lines.len() == 0 {
        Seq::empty()
    } else {
        match offered_mount(lines.last()) {
            Some(p) => offered_mounts(lines.drop_last()).push(p),
            None => offered_mounts(lines.drop_last()),
        }
    }
}

proof fn lemma_words_step(v: Seq<char>, i: int, done: Seq<Seq<char>>, start: int, inside: bool)
    requires
        0 <= i < v.len(),
        inside ==> 0 <= start < i && !is_space(v[i - 1]),
        !inside ==> (i == 0 || is_space(v[i - 1])),
        words(v.take(i)) == if inside {
            done.push(v.subrange(start, i))
        } else {
            done
        },
    ensures
        is_space(v[i]) ==> words(v.take(i + 1)) == if inside {
            done.push(v.subrange(start, i))
        } else {
            done
        },
        !is_space(v[i]) && inside ==> words(v.take(i + 1)) == done.push(v.subrange(start, i + 1)),
        !is_space(v[i]) && !inside ==> words(v.take(i + 1)) == done.push(v.subrange(i, i + 1)),
{
    let w = v.take(i + 1);
    assert(w.drop_last() =~= v.take(i));
    assert(w.last() == v[i]);
    if i >= 1 {
        assert(w[w.len() - 2] == v[i - 1]);
    }
    if inside {
        assert(v.subrange(start, i + 1) =~= v.subrange(start, i).push(v[i]));
    }
    assert(v.subrange(i, i + 1) =~= seq![v[i]]);
    if !is_space(v[i]) && inside {
        assert(words(w) =~= done.push(v.subrange(start, i + 1)));
    }
}

fn word_list(line: &str) -> (r: Vec<String>)
    ensures
        r.deep_view() == words(line@),
{
    let v = chars_of(line);
    let mut out: Vec<String> = Vec::new();
    let mut inside = false;
    let mut start: usize = 0;
    let mut i: usize = 0;
    assert(v@.take(0) =~= Seq::<char>::empty());
    while i < v.len()
        invariant
            v@ == line@,
            i <= v@.len(),
            inside ==> start < i && !is_space(v@[i - 1]),
            !inside ==> (i == 0 || is_space(v@[i - 1])),
            words(v@.take(i as int)) == if inside {
                out.deep_view().push(v@.subrange(start as int, i as int))
            } else {
                out.deep_view()
            },
        decreases v.len() - i,
    {
        proof {
            lemma_words_step(v@, i as int, out.deep_view(), start as int, inside);
        }
        if space(v[i]) {
            if inside {
                let ghost before = out.deep_view();
                out.push(slice_text(line, start, i));
                assert(out.deep_view() =~= before.push(v@.subrange(start as int, i as int)));
                inside = false;
            }
        } else if !inside {
            inside = true;
            start = i;
        }
        i = i + 1;
    }
    assert(v@.take(i as int) =~= v@);
    if inside {
        let ghost before = out.deep_view();
        out.push(slice_text(line, start, i));
        assert(out.deep_view() =~= before.push(v@.subrange(start as int, i as int)));
    }
    out
}

fn unescape(s: &str) -> (r: String)
    ensures
        r@ == unescape_spaces(s@),
{
    let v = chars_of(s);
    let mut out = String::new();
    let mut i: usize = 0;
    proof {
        reveal_strlit("\\040");
        reveal_strlit(" ");
    }
    assert(out@ =~= Seq::<char>::empty());
    assert(v@.skip(0) =~= v@);
    while i < v.len()
        invariant
            v@ == s@,
            i <= v@.len(),
            unescape_spaces(s@) == out@ + unescape_spaces(v@.skip(i as int)),
        decreases v.len() - i,
    {
        let ghost rest = v@.skip(i as int);
        let ghost before = out@;
        proof {
            reveal_strlit("\\040");
            reveal_strlit(" ");
        }
        if v.len() - i >= 4 && v[i] == '\\' && v[i + 1] == '0' && v[i + 2] == '4' && v[i + 3] == '0' {
            assert(rest.take(4) =~= "\\040"@);
            assert(rest.skip(4) =~= v@.skip(i + 4));
            out = crate::text::concat2(out.as_str(), " ");
            assert(out@ + unescape_spaces(v@.skip(i + 4)) =~= before + (seq![' '] + unescape_spaces(rest.skip(4))));
            i = i + 4;
        } else {
            assert(!(rest.len() >= 4 && rest.take(4) == "\\040"@)) by {
                if rest.len() >= 4 && rest.take(4) == "\\040"@ {
                    assert(rest.take(4)[0] == v@[i as int]);
                    assert(rest.take(4)[1] == v@[i + 1]);
                    assert(rest.take(4)[2] == v@[i + 2]);
                    assert(rest.take(4)[3] == v@[i + 3]);
                }
            }
            assert(rest.skip(1) =~= v@.skip(i + 1));
            assert(rest[0] == v@[i as int]);
            let piece = slice_text(s, i, i + 1);
            assert(piece@ =~= seq![rest[0]]);
            out = crate::text::concat2(out.as_str(), piece.as_str());
            assert(out@ + unescape_spaces(v@.skip(i + 1)) =~= before + (seq![rest[0]] + unescape_spaces(
                rest.skip(1),
            )));
            i = i + 1;
        }
    }
    assert(v@.skip(i as int) =~= Seq::<char>::empty());
    assert(out@ + Seq::<char>::empty() =~= out@);
    out
}

fn ignored(t: &str) -> (r: bool)
    ensures
        r == ignored_fs(t@),
{
    crate::text::text_eq(t, "proc") || crate::text::text_eq(t, "sysfs") || crate::text::text_eq(t, "devtmpfs")
        || crate::text::text_eq(t, "devpts") || crate::text::text_eq(t, "cgroup") || crate::text::text_eq(
        t,
        "cgroup2",
    ) || crate::text::text_eq(t, "tmpfs") || crate::text::text_eq(t, "overlay")
}

/// The mount point a line of `/proc/mounts` offers (see `offered_mount`).
pub fn mount_point(line: &str) -> (r: Option<String>)
    ensures
        match offered_mount(line@) {
            Some(p) => r matches Some(x) && x@ == p,
            None => r is None,
        },
{
    let f = word_list(line);
    if f.len() < 4 || ignored(f[2].as_str()) {
        return None;
    }
    let wrapped = crate::text::concat3(",", f[3].as_str(), ",");
    proof {
        reveal_strlit(",");
    }
    if !has_text(&chars_of(wrapped.as_str()), &chars_of(",rw,")) {
        return None;
    }
    Some(unescape(f[1].as_str()))
}

proof fn lemma_lines_step(v: Seq<char>, i: int, done: Seq<Seq<char>>, start: int)
    requires
        0 <= start <= i < v.len(),
        lines_of(v.take(i)) == done.push(v.subrange(start, i)),
    ensures
        v[i] == '\n' ==> lines_of(v.take(i + 1)) == done.push(v.subrange(start, i)).push(
            v.subrange(i + 1, i + 1),
        ),
        v[i] != '\n' ==> lines_of(v.take(i + 1)) == done.push(v.subrange(start, i + 1)),
{
    let w = v.take(i + 1);
    assert(w.drop_last() =~= v.take(i));
    assert(w.last() == v[i]);
    assert(v.subrange(i + 1, i + 1) =~= Seq::<char>::empty());
    assert(v.subrange(start, i + 1) =~= v.subrange(start, i).push(v[i]));
    if v[i] != '\n' {
        assert(lines_of(w) =~= done.push(v.subrange(start, i + 1)));
    }
}

/// The mount points offered by the text of `/proc/mounts`, line by line
/// (see `offered_mount`); the caller keeps those that are directories.
pub fn mount_candidates(mounts: &str) -> (r: Vec<String>)
    ensures
        r.deep_view() == offered_mounts(lines_of(mounts@)),
{
    let v = chars_of(mounts);
    let mut out: Vec<String> = Vec::new();
    let mut start: usize = 0;
    let mut i: usize = 0;
    let ghost mut done: Seq<Seq<char>> = Seq::empty();
    assert(v@.take(0) =~= Seq::<char>::empty());
    assert(v@.subrange(0, 0) =~= Seq::<char>::empty());
    assert(lines_of(v@.take(0)) =~= done.push(v@.subrange(0, 0)));
    while i < v.len()
        invariant
            v@ == mounts@,
            start <= i <= v@.len(),
            lines_of(v@.take(i as int)) == done.push(v@.subrange(start as int, i as int)),
            out.deep_view() == offered_mounts(done),
        decreases v.len() - i,
    {
        proof {
            lemma_lines_step(v@, i as int, done, start as int);
        }
        if v[i] == '\n' {
            let line = slice_text(mounts, start, i);
            let ghost lv = v@.subrange(start as int, i as int);
            let ghost before = out.deep_view();
            match mount_point(line.as_str()) {
                Some(p) => {
                    out.push(p);
                    assert(out.deep_view() =~= before.push(offered_mount(lv)->0));
                },
                None => {},
            }
            proof {
                let nd = done.push(lv);
                assert(nd.drop_last() =~= done);
                assert(nd.last() == lv);
                done = nd;
            }
            start = i + 1;
        }
        i = i + 1;
    }
    let line = slice_text(mounts, start, i);
    let ghost lv = v@.subrange(start as int, i as int);
    let ghost before = out.deep_view();
    match mount_point(line.as_str()) {
        Some(p) => {
            out.push(p);
            assert(out.deep_view() =~= before.push(offered_mount(lv)->0));
        },
        None => {},
    }
    proof {
        let nd = done.push(lv);
        assert(v@.take(i as int) =~= v@);
        assert(nd.drop_last() =~= done);
        assert(nd.last() == lv);
    }
    out
}

} // verus!
