//! The exact-destination HTTPS boundary: which requests are accepted and
//! the Curl command that performs one.
use crate::boundary::output::{decimal, decimal_text, timeout_zero, ChildEnd, Timeout};
use crate::crypto::{sha256, sha256_text};
use crate::result::Capability;
use crate::text::{ascii_lower, chars_of, has_char, has_prefix, lowers_to, text_eq};
use vstd::prelude::*;

verus! {

/// A request: the URL, method, headers and body (with the body's digest),
/// the host name and the address it must resolve to (as text), the time it
/// may take, the most response bytes accepted, and the CA file.
#[derive(Clone, Debug, PartialEq, Eq)]
pub struct HttpsSpec {
    pub url: String,
    pub method: String,
    pub headers: Vec<String>,
    pub body: Vec<u8>,
    pub body_digest: String,
    pub hostname: String,
    pub address: String,
    pub timeout: Timeout,
    pub response_limit: usize,
    pub ca_file: String,
}

/// Why a request is refused or failed.
#[derive(Clone, Debug, PartialEq, Eq)]
pub enum HttpsError {
    Invalid,
    Unavailable,
    Execution(String),
    Nonzero,
    Overflow,
    Timeout,
}

/// A boundary can call out when its Curl binary is a file.
pub fn capability(binary_is_file: bool) -> (r: Capability)
    ensures
        r == if binary_is_file {
            Capability::Can
        } else {
            Capability::Cannot
        },
{
    if binary_is_file {
        Capability::Can
    } else {
        Capability::Cannot
    }
}

/// Ends the authority of a URL.
pub open spec fn authority_end(c: char) -> bool {
    c == '/' || c == '?' || c == '#'
}

/// The authority of an `https://` URL: what follows the scheme up to the
/// first `/`, `?` or `#`.
pub open spec fn url_authority(url: Seq<char>) -> Option<Seq<char>> {
    if "https://"@.is_prefix_of(url) {
        let rest = url.skip(8);
        let cut = if exists|i: int| 0 <= i < rest.len() && authority_end(#[trigger] rest[i]) {
            choose|i: int|
                0 <= i < rest.len() && authority_end(rest[i]) && forall|j: int|
                    0 <= j < i ==> !authority_end(#[trigger] rest[j])
        } else {
            rest.len() as int
        };
        Some(rest.take(cut))
    } else {
        None
    }
}

/// A header that could smuggle a line or steer a proxy.
pub open spec fn header_unsafe(h: Seq<char>) -> bool {
    h.contains('\r') || h.contains('\n') || (h.len() >= 6 && h.take(6).map_values(|c: char| ascii_lower(c))
        == "proxy-"@)
}

/// A request is acceptable when it goes to exactly its host over HTTPS,
/// with no user info, fragment or query; its host is named; its timeout
/// and response limit are not zero; its CA file exists; its body matches
/// its digest; and no header is unsafe.
pub open spec fn request_acceptable(spec: HttpsSpec, ca_is_file: bool) -> bool {
    &&& url_authority(spec.url@) == Some(spec.hostname@)
    &&& !spec.url@.contains('@')
    &&& !spec.url@.contains('#')
    &&& !spec.url@.contains('?')
    &&& spec.hostname@.len() > 0
    &&& !timeout_zero(spec.timeout)
    &&& spec.response_limit != 0
    &&& ca_is_file
    &&& sha256_text(spec.body@) == spec.body_digest@
    &&& forall|i: int| 0 <= i < spec.headers@.len() ==> !header_unsafe(#[trigger] spec.headers@[i]@)
}

proof fn lemma_no_char(x: Seq<char>, c: char)
    requires
        !x.contains(c),
    ensures
        forall|i: int| 0 <= i < x.len() ==> #[trigger] x[i] != c,
{
    assert forall|i: int| 0 <= i < x.len() implies #[trigger] x[i] != c by {
        if x[i] == c {
            assert(x.contains(c));
        }
    }
}

proof fn lemma_cut(url: Seq<char>, cut: int)
    requires
        url.len() >= 8,
        0 <= cut < url.len() - 8,
        authority_end(url.skip(8)[cut]),
        !url.contains('#'),
        !url.contains('?'),
    ensures
        url[8 + cut] == '/',
{
    assert(url.skip(8)[cut] == url[8 + cut]);
    if url[8 + cut] == '#' {
        assert(url.contains('#'));
    }
    if url[8 + cut] == '?' {
        assert(url.contains('?'));
    }
}

proof fn lemma_first_end(rest: Seq<char>, k: int)
    requires
        0 <= k < rest.len(),
        authority_end(rest[k]),
    ensures
        exists|i: int|
            0 <= i < rest.len() && authority_end(rest[i]) && forall|j: int|
                0 <= j < i ==> !authority_end(#[trigger] rest[j]),
    decreases k,
{
    if exists|j: int| 0 <= j < k && authority_end(#[trigger] rest[j]) {
        let j = choose|j: int| 0 <= j < k && authority_end(#[trigger] rest[j]);
        lemma_first_end(rest, j);
    } else {
        assert(forall|j: int| 0 <= j < k ==> !authority_end(#[trigger] rest[j]));
    }
}

proof fn lemma_host_in_url(url: Seq<char>, host: Seq<char>)
    requires
        url_authority(url) == Some(host),
        !url.contains('#'),
        !url.contains('?'),
    ensures
        url.len() >= 8 + host.len(),
        url.subrange(0, 8) == seq!['h', 't', 't', 'p', 's', ':', '/', '/'],
        url.subrange(8, 8 + host.len() as int) == host,
        url.len() == 8 + host.len() || url[8 + host.len() as int] == '/',
{
    reveal_strlit("https://");
    assert("https://"@ =~= seq!['h', 't', 't', 'p', 's', ':', '/', '/']);
    assert("https://"@.is_prefix_of(url));
    assert(url.len() >= 8);
    assert(url.subrange(0, 8) =~= "https://"@);
    let rest = url.skip(8);
    assert(rest.len() == url.len() - 8);
    if exists|i: int| 0 <= i < rest.len() && authority_end(#[trigger] rest[i]) {
        let k = choose|i: int| 0 <= i < rest.len() && authority_end(#[trigger] rest[i]);
        lemma_first_end(rest, k);
        let cut = choose|i: int|
            0 <= i < rest.len() && authority_end(rest[i]) && forall|j: int|
                0 <= j < i ==> !authority_end(#[trigger] rest[j]);
        assert(host == rest.take(cut));
        lemma_cut(url, cut);
        assert(url.subrange(8, 8 + cut) =~= rest.take(cut));
    } else {
        assert(host == rest.take(rest.len() as int));
        assert(url.subrange(8, url.len() as int) =~= rest.take(rest.len() as int));
    }
}

/// An acceptable request goes to exactly its host over HTTPS: its URL is
/// `https://`, then the host name, then the end or a `/`; it carries no
/// `@`, `#` or `?`; its CA file exists, its limits are above zero, and no
/// header holds a line break.
pub proof fn lemma_acceptable_requests_stay_on_host(spec: HttpsSpec, ca_is_file: bool)
    requires
        request_acceptable(spec, ca_is_file),
    ensures
        spec.url@.len() >= 8 + spec.hostname@.len(),
        spec.url@.subrange(0, 8) == seq!['h', 't', 't', 'p', 's', ':', '/', '/'],
        spec.url@.subrange(8, 8 + spec.hostname@.len() as int) == spec.hostname@,
        spec.hostname@.len() > 0,
        spec.url@.len() == 8 + spec.hostname@.len() || spec.url@[8 + spec.hostname@.len() as int] == '/',
        forall|i: int|
            0 <= i < spec.url@.len() ==> #[trigger] spec.url@[i] != '@' && spec.url@[i] != '#' && spec.url@[i]
                != '?',
        ca_is_file,
        spec.response_limit > 0,
        !(spec.timeout.secs == 0 && spec.timeout.nanos == 0),
        forall|h: int, j: int|
            0 <= h < spec.headers@.len() && 0 <= j < spec.headers@[h]@.len() ==> #[trigger] spec.headers@[h]@[j]
                != '\r' && spec.headers@[h]@[j] != '\n',
{
    let url = spec.url@;
    lemma_no_char(url, '@');
    lemma_no_char(url, '#');
    lemma_no_char(url, '?');
    lemma_host_in_url(url, spec.hostname@);
    assert forall|h: int, j: int|
        0 <= h < spec.headers@.len() && 0 <= j < spec.headers@[h]@.len() implies #[trigger] spec.headers@[h]@[j]
            != '\r' && spec.headers@[h]@[j] != '\n' by {
        assert(!header_unsafe(spec.headers@[h]@));
        lemma_no_char(spec.headers@[h]@, '\r');
        lemma_no_char(spec.headers@[h]@, '\n');
    }
}

/// A header that starts with `proxy-`, in any case, is never sent.
pub proof fn lemma_proxy_headers_are_refused(spec: HttpsSpec, ca_is_file: bool, h: int)
    requires
        0 <= h < spec.headers@.len(),
        spec.headers@[h]@.len() >= 6,
        spec.headers@[h]@[0] == 'p' || spec.headers@[h]@[0] == 'P',
        spec.headers@[h]@[1] == 'r' || spec.headers@[h]@[1] == 'R',
        spec.headers@[h]@[2] == 'o' || spec.headers@[h]@[2] == 'O',
        spec.headers@[h]@[3] == 'x' || spec.headers@[h]@[3] == 'X',
        spec.headers@[h]@[4] == 'y' || spec.headers@[h]@[4] == 'Y',
        spec.headers@[h]@[5] == '-',
    ensures
        !request_acceptable(spec, ca_is_file),
{
    reveal_strlit("proxy-");
    let x = spec.headers@[h]@;
    assert(x.take(6).map_values(|c: char| ascii_lower(c)) =~= "proxy-"@);
    assert(header_unsafe(x));
}

proof fn lemma_authority_of_host(host: Seq<char>, tail: Seq<char>)
    requires
        forall|i: int| 0 <= i < host.len() ==> !authority_end(#[trigger] host[i]),
        tail.len() == 0 || tail[0] == '/',
    ensures
        url_authority(seq!['h', 't', 't', 'p', 's', ':', '/', '/'] + host + tail) == Some(host),
{
    reveal_strlit("https://");
    let url = seq!['h', 't', 't', 'p', 's', ':', '/', '/'] + host + tail;
    assert("https://"@ =~= seq!['h', 't', 't', 'p', 's', ':', '/', '/']);
    assert(url.subrange(0, 8) =~= "https://"@);
    assert("https://"@.is_prefix_of(url));
    let rest = url.skip(8);
    assert(rest =~= host + tail);
    if tail.len() > 0 {
        assert(rest[host.len() as int] == '/');
        lemma_first_end(rest, host.len() as int);
        let cut = choose|i: int|
            0 <= i < rest.len() && authority_end(rest[i]) && forall|j: int|
                0 <= j < i ==> !authority_end(#[trigger] rest[j]);
        if cut < host.len() {
            assert(rest[cut] == host[cut]);
        } else if cut > host.len() {
            assert(!authority_end(rest[host.len() as int]));
        }
        assert(rest.take(cut) =~= host);
    } else {
        assert forall|i: int| 0 <= i < rest.len() implies !authority_end(#[trigger] rest[i]) by {
            assert(rest[i] == host[i]);
        }
        assert(rest.take(rest.len() as int) =~= host);
    }
}

/// Every plain request to its own host is accepted: a URL that is
/// `https://`, then a non-empty host name free of `/`, `?`, `#` and `@`,
/// then nothing or a `/` and a path free of `?`, `#` and `@`; headers with
/// no line break and none beginning with `proxy-` in any case; a timeout
/// and response limit above zero; an existing CA file; and a body that
/// matches its digest.
pub proof fn lemma_plain_requests_are_accepted(spec: HttpsSpec, ca_is_file: bool, tail: Seq<char>)
    requires
        spec.url@ == seq!['h', 't', 't', 'p', 's', ':', '/', '/'] + spec.hostname@ + tail,
        spec.hostname@.len() > 0,
        forall|i: int|
            0 <= i < spec.hostname@.len() ==> #[trigger] spec.hostname@[i] != '/' && spec.hostname@[i] != '?'
                && spec.hostname@[i] != '#' && spec.hostname@[i] != '@',
        tail.len() == 0 || tail[0] == '/',
        forall|i: int| 0 <= i < tail.len() ==> #[trigger] tail[i] != '?' && tail[i] != '#' && tail[i] != '@',
        forall|h: int, j: int|
            0 <= h < spec.headers@.len() && 0 <= j < spec.headers@[h]@.len() ==> #[trigger] spec.headers@[h]@[j]
                != '\r' && spec.headers@[h]@[j] != '\n',
        forall|h: int|
            0 <= h < spec.headers@.len() && (#[trigger] spec.headers@[h]@).len() >= 6 ==> !((spec.headers@[h]@[0]
                == 'p' || spec.headers@[h]@[0] == 'P') && (spec.headers@[h]@[1] == 'r' || spec.headers@[h]@[1] == 'R')
                && (spec.headers@[h]@[2] == 'o' || spec.headers@[h]@[2] == 'O') && (spec.headers@[h]@[3] == 'x'
                || spec.headers@[h]@[3] == 'X') && (spec.headers@[h]@[4] == 'y' || spec.headers@[h]@[4] == 'Y')
                && spec.headers@[h]@[5] == '-'),
        spec.timeout.secs > 0 || spec.timeout.nanos > 0,
        spec.response_limit > 0,
        ca_is_file,
        sha256_text(spec.body@) == spec.body_digest@,
    ensures
        request_acceptable(spec, ca_is_file),
{
    let host = spec.hostname@;
    let url = spec.url@;
    lemma_authority_of_host(host, tail);
    assert forall|c: char| c == '@' || c == '#' || c == '?' implies !url.contains(c) by {
        if url.contains(c) {
            let i = choose|i: int| 0 <= i < url.len() && url[i] == c;
            if i < 8 {
                assert(url[i] == seq!['h', 't', 't', 'p', 's', ':', '/', '/'][i]);
            } else if i < 8 + host.len() {
                assert(url[i] == host[i - 8]);
            } else {
                assert(url[i] == tail[i - 8 - host.len()]);
            }
        }
    }
    reveal_strlit("proxy-");
    assert forall|k: int| 0 <= k < spec.headers@.len() implies !header_unsafe(#[trigger] spec.headers@[k]@) by {
        let x = spec.headers@[k]@;
        if x.contains('\r') {
            let j = choose|j: int| 0 <= j < x.len() && x[j] == '\r';
            assert(spec.headers@[k]@[j] != '\r');
        }
        if x.contains('\n') {
            let j = choose|j: int| 0 <= j < x.len() && x[j] == '\n';
            assert(spec.headers@[k]@[j] != '\n');
        }
        if x.len() >= 6 && x.take(6).map_values(|c: char| ascii_lower(c)) == "proxy-"@ {
            let l = x.take(6).map_values(|c: char| ascii_lower(c));
            assert(l[0] == 'p' && l[1] == 'r' && l[2] == 'o' && l[3] == 'x' && l[4] == 'y' && l[5] == '-');
            assert(l[0] == ascii_lower(x[0]));
            assert(l[1] == ascii_lower(x[1]));
            assert(l[2] == ascii_lower(x[2]));
            assert(l[3] == ascii_lower(x[3]));
            assert(l[4] == ascii_lower(x[4]));
            assert(l[5] == ascii_lower(x[5]));
        }
    }
}

fn authority_of(url: &Vec<char>) -> (r: Option<Vec<char>>)
    ensures
        match url_authority(url@) {
            Some(a) => r matches Some(v) && v@ == a,
            None => r is None,
        },
{
    let scheme = chars_of("https://");
    proof {
        reveal_strlit("https://");
    }
    if !has_prefix(url, &scheme) {
        return None;
    }
    let ghost rest = url@.skip(8);
    let mut out: Vec<char> = Vec::new();
    let mut i: usize = 8;
    while i < url.len() && !(url[i] == '/' || url[i] == '?' || url[i] == '#')
        invariant
            8 <= i <= url@.len(),
            rest == url@.skip(8),
            out@ == rest.take(i - 8),
            forall|j: int| 0 <= j < i - 8 ==> !authority_end(#[trigger] rest[j]),
        decreases url.len() - i,
    {
        out.push(url[i]);
        assert(out@ =~= rest.take(i - 7));
        i = i + 1;
    }
    proof {
        let cut = i - 8;
        if i < url.len() {
            assert(authority_end(rest[cut]));
            let c = choose|c: int|
                0 <= c < rest.len() && authority_end(rest[c]) && forall|j: int|
                    0 <= j < c ==> !authority_end(#[trigger] rest[j]);
            if c < cut {
                assert(!authority_end(rest[c]));
            } else if c > cut {
                assert(!authority_end(rest[cut as int]));
            }
        } else {
            assert(!exists|c: int| 0 <= c < rest.len() && authority_end(#[trigger] rest[c]));
        }
    }
    Some(out)
}

fn header_bad(h: &str) -> (r: bool)
    ensures
        r == header_unsafe(h@),
{
    let v = chars_of(h);
    if has_char(&v, '\r') || has_char(&v, '\n') {
        return true;
    }
    if v.len() < 6 {
        return false;
    }
    let p = chars_of("proxy-");
    proof {
        reveal_strlit("proxy-");
    }
    assert(p@.len() == 6);
    let ghost lowered = h@.take(6).map_values(|c: char| ascii_lower(c));
    let mut k: usize = 0;
    while k < 6
        invariant
            v@ == h@,
            v@.len() >= 6,
            !h@.contains('\r'),
            !h@.contains('\n'),
            p@ == "proxy-"@,
            p@.len() == 6,
            lowered == h@.take(6).map_values(|c: char| ascii_lower(c)),
            k <= 6,
            forall|j: int| 0 <= j < k ==> ascii_lower(#[trigger] v@[j]) == p@[j],
        decreases 6 - k,
    {
        if !lowers_to(v[k], p[k]) {
            assert(lowered[k as int] != "proxy-"@[k as int]);
            assert(lowered != "proxy-"@);
            return false;
        }
        k = k + 1;
    }
    assert(h@.take(6).map_values(|c: char| ascii_lower(c)) =~= "proxy-"@);
    true
}

/// Fails with `Invalid` unless the request is acceptable (see
/// `request_acceptable`).
pub fn validate(spec: &HttpsSpec, ca_is_file: bool) -> (r: Result<(), HttpsError>)
    ensures
        r is Ok <==> request_acceptable(*spec, ca_is_file),
        r is Err ==> (r matches Err(HttpsError::Invalid)),
{
    let url = chars_of(spec.url.as_str());
    let authority_ok = match authority_of(&url) {
        None => false,
        Some(a) => crate::text::chars_eq(&a, &chars_of(spec.hostname.as_str())),
    };
    if !authority_ok || has_char(&url, '@') || has_char(&url, '#') || has_char(&url, '?')
        || spec.hostname.unicode_len() == 0 || (spec.timeout.secs == 0 && spec.timeout.nanos == 0)
        || spec.response_limit == 0 || !ca_is_file || !text_eq(
        sha256(spec.body.as_slice()).as_str(),
        spec.body_digest.as_str(),
    ) {
        return Err(HttpsError::Invalid);
    }
    let mut i: usize = 0;
    while i < spec.headers.len()
        invariant
            i <= spec.headers@.len(),
            forall|j: int| 0 <= j < i ==> !header_unsafe(#[trigger] spec.headers@[j]@),
        decreases spec.headers.len() - i,
    {
        if header_bad(spec.headers[i].as_str()) {
            return Err(HttpsError::Invalid);
        }
        i = i + 1;
    }
    Ok(())
}

/// The fixed options of every call: quiet, failing with the body, no
/// proxy, no netrc, no redirects, HTTPS only.
pub open spec fn curl_fixed() -> Seq<Seq<char>> {
    seq![
        "-q"@,
        "--fail-with-body"@,
        "--silent"@,
        "--show-error"@,
        "--noproxy"@,
        "*"@,
        "--no-netrc"@,
        "--proxy"@,
        ""@,
        "--max-redirs"@,
        "0"@,
        "--proto"@,
        "=https"@,
    ]
}

/// The `-H` options of the headers, in order.
pub open spec fn header_args(headers: Seq<Seq<char>>) -> Seq<Seq<char>>
    decreases headers.len(),
{
    if headers.len() == 0 {
        Seq::empty()
    } else {
        header_args(headers.drop_last()) + seq!["-H"@, headers.last()]
    }
}

/// The arguments of the Curl call for a request: the fixed options, the
/// timeouts in whole seconds, the CA file, the pinned resolution of the
/// host to its address, the method, the headers, the body from standard
/// input, and the URL.
pub open spec fn curl_args(spec: HttpsSpec) -> Seq<Seq<char>> {
    let secs = decimal(spec.timeout.secs as nat);
    curl_fixed() + seq![
        "--connect-timeout"@,
        secs,
        "--max-time"@,
        secs,
        "--cacert"@,
        spec.ca_file@,
        "--resolve"@,
        spec.hostname@ + ":443:"@ + spec.address@,
        "-X"@,
        spec.method@,
    ] + header_args(spec.headers.deep_view()) + seq!["--data-binary"@, "@-"@, spec.url@]
}

fn push_text(v: &mut Vec<String>, t: &str)
    ensures
        final(v).deep_view() == old(v).deep_view().push(t@),
{
    let ghost before = v.deep_view();
    v.push(String::from_str(t));
    assert(v.deep_view() =~= before.push(t@));
}

/// The arguments of the Curl call for a request (see `curl_args`); it runs
/// with a cleared environment.
pub fn curl_arguments(spec: &HttpsSpec) -> (r: Vec<String>)
    ensures
        r.deep_view() == curl_args(*spec),
{
    let mut args: Vec<String> = Vec::new();
    push_text(&mut args, "-q");
    push_text(&mut args, "--fail-with-body");
    push_text(&mut args, "--silent");
    push_text(&mut args, "--show-error");
    push_text(&mut args, "--noproxy");
    push_text(&mut args, "*");
    push_text(&mut args, "--no-netrc");
    push_text(&mut args, "--proxy");
    push_text(&mut args, "");
    push_text(&mut args, "--max-redirs");
    push_text(&mut args, "0");
    push_text(&mut args, "--proto");
    push_text(&mut args, "=https");
    let secs = decimal_text(spec.timeout.secs);
    push_text(&mut args, "--connect-timeout");
    push_text(&mut args, secs.as_str());
    push_text(&mut args, "--max-time");
    push_text(&mut args, secs.as_str());
    push_text(&mut args, "--cacert");
    push_text(&mut args, spec.ca_file.as_str());
    push_text(&mut args, "--resolve");
    let resolve = crate::text::concat3(spec.hostname.as_str(), ":443:", spec.address.as_str());
    push_text(&mut args, resolve.as_str());
    push_text(&mut args, "-X");
    push_text(&mut args, spec.method.as_str());
    let ghost base = args.deep_view();
    let mut i: usize = 0;
    while i < spec.headers.len()
        invariant
            i <= spec.headers@.len(),
            args.deep_view() == base + header_args(spec.headers.deep_view().take(i as int)),
        decreases spec.headers.len() - i,
    {
        push_text(&mut args, "-H");
        push_text(&mut args, spec.headers[i].as_str());
        proof {
            let hv = spec.headers.deep_view();
            assert(hv.take(i + 1).drop_last() =~= hv.take(i as int));
            assert(hv.take(i + 1).last() == spec.headers@[i as int]@);
            assert(args.deep_view() =~= base + header_args(hv.take(i + 1)));
        }
        i = i + 1;
    }
    assert(spec.headers.deep_view().take(i as int) =~= spec.headers.deep_view());
    push_text(&mut args, "--data-binary");
    push_text(&mut args, "@-");
    push_text(&mut args, spec.url.as_str());
    assert(args.deep_view() =~= curl_args(*spec));
    args
}

/// Decides a request before any process starts: an unacceptable request
/// is `Invalid` whatever the binary; then a binary that is not a file is
/// `Unavailable`; otherwise the Curl arguments (see `curl_args`).
pub fn prepare(spec: &HttpsSpec, ca_is_file: bool, binary_is_file: bool) -> (r: Result<Vec<String>, HttpsError>)
    ensures
        !request_acceptable(*spec, ca_is_file) ==> (r matches Err(HttpsError::Invalid)),
        request_acceptable(*spec, ca_is_file) && !binary_is_file ==> (r matches Err(HttpsError::Unavailable)),
        request_acceptable(*spec, ca_is_file) && binary_is_file ==> (r matches Ok(a) && a.deep_view()
            == curl_args(*spec)),
{
    match validate(spec, ca_is_file) {
        Err(e) => return Err(e),
        Ok(_) => {},
    }
    if capability(binary_is_file) != Capability::Can {
        return Err(HttpsError::Unavailable);
    }
    Ok(curl_arguments(spec))
}

/// What a watched request gives: when Curl exited, `Overflow` if some of
/// the response did not fit, else the response on success and `Nonzero`
/// otherwise; `Timeout` when its deadline passed first.
pub fn finish(end: ChildEnd, response: Vec<u8>, overflow: bool) -> (r: Result<Vec<u8>, HttpsError>)
    ensures
        r == match end {
            ChildEnd::TimedOut => Err(HttpsError::Timeout),
            ChildEnd::Exited { success } => if overflow {
                Err(HttpsError::Overflow)
            } else if success {
                Ok(response)
            } else {
                Err(HttpsError::Nonzero)
            },
        },
{
    match end {
        ChildEnd::TimedOut => Err(HttpsError::Timeout),
        ChildEnd::Exited { success } => if overflow {
            Err(HttpsError::Overflow)
        } else if success {
            Ok(response)
        } else {
            Err(HttpsError::Nonzero)
        },
    }
}

} // verus!
