//! The network scheme's wire behaviour: the exact bytes of the size probe and
//! of the ranged fetch request, and the reading of response header lines for
//! the content-length field. The socket work around these functions stays
//! outside the library; they decide what is sent and what a response means.
use vstd::prelude::*;
use vstd::string::StringSliceAdditionalSpecFns;

use crate::meta::Location;
use crate::utility::{parse_decimal, spec_parse_decimal};

verus! {

/// The network (HTTP-style) scheme provider.
pub struct Http {}

/// An ASCII string's bytes, one per character.
pub open spec fn ascii(s: Seq<char>) -> Seq<u8> {
    Seq::new(s.len(), |i: int| s[i] as u8)
}

/// Append an ASCII string's bytes to `out`.
pub fn push_ascii(out: &mut Vec<u8>, s: &str)
    requires
        vstd::string::is_ascii(s),
    ensures
        final(out)@ == old(out)@ + ascii(s@),
{
    proof {
        vstd::string::is_ascii_spec_bytes(s);
        assert(s.spec_bytes() =~= ascii(s@));
    }
    let ghost prefix = out@;
    out.extend_from_slice(s.as_bytes());
    proof {
        assert forall|i: int| 0 <= i < final(out)@.len() implies final(out)@[i] == (prefix + ascii(
            s@,
        ))[i] by {
            if i >= prefix.len() {
                assert(vstd::pervasive::cloned::<u8>(s.spec_bytes()[i - prefix.len()], out@[i]));
            }
        }
        assert(out@ =~= prefix + ascii(s@));
    }
}

/// Append the whole of `src` to `out`.
pub fn push_bytes(out: &mut Vec<u8>, src: &Vec<u8>)
    ensures
        final(out)@ == old(out)@ + src@,
{
    let ghost prefix = out@;
    out.extend_from_slice(src.as_slice());
    proof {
        assert forall|i: int| 0 <= i < out@.len() implies out@[i] == (prefix + src@)[i] by {
            if i >= prefix.len() {
                assert(vstd::pervasive::cloned::<u8>(src@[i - prefix.len()], out@[i]));
            }
        }
        assert(out@ =~= prefix + src@);
    }
}

/// The canonical decimal digits of `n`, most significant first; zero is the
/// single digit `0`.
pub open spec fn dec_digits(n: int) -> Seq<u8>
    recommends
        n >= 0,
    decreases n,
{
    if n < 10 {
        seq![(('0' as u8) + n) as u8]
    } else {
        dec_digits(n / 10).push((('0' as u8) + n % 10) as u8)
    }
}

/// Append `n`'s decimal digits to `out`.
pub fn push_decimal(out: &mut Vec<u8>, n: usize)
    ensures
        final(out)@ == old(out)@ + dec_digits(n as int),
    decreases n,
{
    if n >= 10 {
        push_decimal(out, n / 10);
        out.push('0' as u8 + (n % 10) as u8);
        proof {
            assert(out@ =~= old(out)@ + dec_digits(n as int / 10).push(
                (('0' as u8) + n as int % 10) as u8,
            ));
        }
    } else {
        out.push('0' as u8 + n as u8);
        proof {
            assert(out@ =~= old(out)@ + dec_digits(n as int));
        }
    }
}

/// The port a location's fetches connect to: the one its address named, or
/// the scheme's default of 80.
pub open spec fn spec_port(loc: Location) -> int {
    match loc.port {
        Some(p) => p as int,
        None => 80,
    }
}

/// The `host:port` endpoint string of a location, as bytes.
pub open spec fn spec_netloc(loc: Location) -> Seq<u8> {
    loc.host@ + ascii(":"@) + dec_digits(spec_port(loc))
}

/// The request target: the path, then `?query` and `#fragment` where the
/// address carried them.
pub open spec fn spec_target(loc: Location) -> Seq<u8> {
    loc.path@ + (match loc.query {
        Some(q) => ascii("?"@) + q@,
        None => Seq::<u8>::empty(),
    }) + (match loc.fragment {
        Some(f) => ascii("#"@) + f@,
        None => Seq::<u8>::empty(),
    })
}

/// The exact bytes of the size probe: a `HEAD` request with only a `Host`
/// header, closed by a blank line.
pub open spec fn spec_probe_request(loc: Location) -> Seq<u8> {
    ascii("HEAD "@) + spec_target(loc) + ascii(" HTTP/1.0\r\n"@) + ascii("Host: "@) + loc.host@
        + ascii("\r\n"@) + ascii("\r\n"@)
}

/// The exact bytes of a ranged fetch: a `GET` request with a `Host` header
/// and a closed byte range `offset..=offset+size-1`, closed by a blank line.
pub open spec fn spec_fetch_request(loc: Location, offset: int, size: int) -> Seq<u8> {
    ascii("GET "@) + spec_target(loc) + ascii(" HTTP/1.0\r\n"@) + ascii("Host: "@) + loc.host@
        + ascii("\r\n"@) + ascii("Range: bytes="@) + dec_digits(offset) + ascii("-"@) + dec_digits(
        offset + size - 1,
    ) + ascii("\r\n"@) + ascii("\r\n"@)
}

/// The `host:port` endpoint to connect to.
pub fn netloc(loc: &Location) -> (r: Vec<u8>)
    ensures
        r@ == spec_netloc(*loc),
{
    let mut out: Vec<u8> = Vec::new();
    push_bytes(&mut out, &loc.host);
    proof {
        reveal_strlit(":");
    }
    push_ascii(&mut out, ":");
    match &loc.port {
        Some(p) => push_decimal(&mut out, *p as usize),
        None => push_decimal(&mut out, 80),
    }
    out
}

/// The request target the location names.
pub fn query(loc: &Location) -> (r: Vec<u8>)
    ensures
        r@ == spec_target(*loc),
{
    let mut out: Vec<u8> = Vec::new();
    push_bytes(&mut out, &loc.path);
    match &loc.query {
        Some(q) => {
            proof {
                reveal_strlit("?");
            }
            push_ascii(&mut out, "?");
            push_bytes(&mut out, q);
        },
        None => {},
    }
    match &loc.fragment {
        Some(f) => {
            proof {
                reveal_strlit("#");
            }
            push_ascii(&mut out, "#");
            push_bytes(&mut out, f);
        },
        None => {},
    }
    proof {
        assert(out@ =~= spec_target(*loc));
    }
    out
}

impl Http {
    /// Build the size probe for `loc`, byte for byte.
    pub fn probe_request(&self, loc: &Location) -> (r: Vec<u8>)
        ensures
            r@ == spec_probe_request(*loc),
    {
        proof {
            reveal_strlit("HEAD ");
            reveal_strlit(" HTTP/1.0\r\n");
            reveal_strlit("Host: ");
            reveal_strlit("\r\n");
        }
        let mut out: Vec<u8> = Vec::new();
        push_ascii(&mut out, "HEAD ");
        let target = query(loc);
        push_bytes(&mut out, &target);
        push_ascii(&mut out, " HTTP/1.0\r\n");
        push_ascii(&mut out, "Host: ");
        push_bytes(&mut out, &loc.host);
        push_ascii(&mut out, "\r\n");
        push_ascii(&mut out, "\r\n");
        proof {
            assert(out@ =~= spec_probe_request(*loc));
        }
        out
    }

    /// Build the ranged fetch for the segment `[offset, offset + size)` of
    /// `loc`, byte for byte. The range header names the closed range, so the
    /// segment must hold at least one byte.
    pub fn fetch_request(&self, loc: &Location, offset: usize, size: usize) -> (r: Vec<u8>)
        requires
            size >= 1,
            offset + size <= usize::MAX,
        ensures
            r@ == spec_fetch_request(*loc, offset as int, size as int),
    {
        proof {
            reveal_strlit("GET ");
            reveal_strlit(" HTTP/1.0\r\n");
            reveal_strlit("Host: ");
            reveal_strlit("Range: bytes=");
            reveal_strlit("-");
            reveal_strlit("\r\n");
        }
        let mut out: Vec<u8> = Vec::new();
        push_ascii(&mut out, "GET ");
        let target = query(loc);
        push_bytes(&mut out, &target);
        push_ascii(&mut out, " HTTP/1.0\r\n");
        push_ascii(&mut out, "Host: ");
        push_bytes(&mut out, &loc.host);
        push_ascii(&mut out, "\r\n");
        push_ascii(&mut out, "Range: bytes=");
        push_decimal(&mut out, offset);
        push_ascii(&mut out, "-");
        push_decimal(&mut out, offset + size - 1);
        push_ascii(&mut out, "\r\n");
        push_ascii(&mut out, "\r\n");
        proof {
            assert(out@ =~= spec_fetch_request(*loc, offset as int, size as int));
        }
        out
    }
}

/// Does this response line close the header block? Header reading stops at
/// the first line of at most two bytes: a bare `\r\n`.
pub fn is_end_of_headers(line: &Vec<u8>) -> (r: bool)
    ensures
        r == (line@.len() <= 2),
{
    line.len() <= 2
}

/// An upper-case ASCII letter folded to lower case; everything else kept.
pub open spec fn lower(b: u8) -> u8 {
    if 'A' as u8 <= b <= 'Z' as u8 {
        (b + 32) as u8
    } else {
        b
    }
}

/// Case folding over a whole byte sequence.
pub open spec fn lower_seq(s: Seq<u8>) -> Seq<u8> {
    Seq::new(s.len(), |i: int| lower(s[i]))
}

/// The header name this scheme looks for, with its separator: 16 bytes.
pub open spec fn cl_prefix() -> Seq<u8> {
    ascii("content-length: "@)
}

/// Is `b` an ASCII whitespace byte?
pub open spec fn is_ws(b: u8) -> bool {
    b == ' ' as u8 || (9 <= b <= 13)
}

/// `s` with its leading whitespace removed.
pub open spec fn trim_front(s: Seq<u8>) -> Seq<u8>
    decreases s.len(),
{
    if s.len() > 0 && is_ws(s[0]) {
        trim_front(s.drop_first())
    } else {
        s
    }
}

/// `s` with its trailing whitespace removed.
pub open spec fn trim_back(s: Seq<u8>) -> Seq<u8>
    decreases s.len(),
{
    if s.len() > 0 && is_ws(s.last()) {
        trim_back(s.drop_last())
    } else {
        s
    }
}

/// `s` with whitespace removed from both ends.
pub open spec fn trim(s: Seq<u8>) -> Seq<u8> {
    trim_back(trim_front(s))
}

/// Does this header line carry the content-length field? The name is matched
/// case-insensitively, byte for byte, separator included.
pub open spec fn is_content_length_line(line: Seq<u8>) -> bool {
    line.len() >= 16 && lower_seq(line.take(16)) == cl_prefix()
}

/// The size a content-length line reports: what stands after the name,
/// trimmed of surrounding whitespace, read as one or more decimal digits.
/// A malformed or oversized value reports nothing.
pub open spec fn spec_content_length_value(line: Seq<u8>) -> Option<usize> {
    spec_parse_decimal(trim(line.skip(16)))
}

/// What a probe learns from its response's header lines, read in order: the
/// first content-length line decides; a line of at most two bytes ends the
/// block; a response without the field reports no size.
pub open spec fn spec_scan_headers(lines: Seq<Seq<u8>>) -> Option<usize>
    decreases lines.len(),
{
    if lines.len() == 0 {
        None
    } else if lines[0].len() <= 2 {
        None
    } else if is_content_length_line(lines[0]) {
        spec_content_length_value(lines[0])
    } else {
        spec_scan_headers(lines.drop_first())
    }
}

/// Fold one byte to lower case.
fn lower_byte(b: u8) -> (r: u8)
    ensures
        r == lower(b),
{
    if b >= 'A' as u8 && b <= 'Z' as u8 {
        b + 32
    } else {
        b
    }
}

/// Does this line name the content-length field?
pub fn matches_content_length(line: &Vec<u8>) -> (r: bool)
    ensures
        r == is_content_length_line(line@),
{
    if line.len() < 16 {
        return false;
    }
    proof {
        reveal_strlit("content-length: ");
    }
    let mut pref: Vec<u8> = Vec::new();
    push_ascii(&mut pref, "content-length: ");
    proof {
        assert(pref@.len() == 16);
    }
    let mut k: usize = 0;
    while k < 16
        invariant
            pref@ == cl_prefix(),
            pref@.len() == 16,
            line@.len() >= 16,
            k <= 16,
            forall|i: int| 0 <= i < k ==> lower(line@[i]) == cl_prefix()[i],
        decreases 16 - k,
    {
        if lower_byte(line[k]) != pref[k] {
            proof {
                assert(lower_seq(line@.take(16))[k as int] != cl_prefix()[k as int]);
            }
            return false;
        }
        k = k + 1;
    }
    proof {
        assert(lower_seq(line@.take(16)) =~= cl_prefix());
    }
    true
}

/// Leading whitespace ends exactly where the first non-whitespace byte
/// stands.
proof fn lemma_trim_front_at(s: Seq<u8>, j: int)
    requires
        0 <= j <= s.len(),
        forall|k: int| 0 <= k < j ==> is_ws(#[trigger] s[k]),
        j < s.len() ==> !is_ws(s[j]),
    ensures
        trim_front(s) == s.skip(j),
    decreases j,
{
    if j == 0 {
        assert(s.skip(0) =~= s);
    } else {
        assert(is_ws(s[0]));
        lemma_trim_front_at(s.drop_first(), j - 1);
        assert(s.drop_first().skip(j - 1) =~= s.skip(j));
    }
}

/// Trailing whitespace starts exactly after the last non-whitespace byte.
proof fn lemma_trim_back_at(s: Seq<u8>, j: int)
    requires
        0 <= j <= s.len(),
        forall|k: int| j <= k < s.len() ==> is_ws(#[trigger] s[k]),
        j > 0 ==> !is_ws(s[j - 1]),
    ensures
        trim_back(s) == s.take(j),
    decreases s.len() - j,
{
    if j == s.len() {
        if s.len() > 0 && is_ws(s.last()) {
            lemma_trim_back_at(s.drop_last(), j - 1);
            assert(s.drop_last().take(j - 1) =~= s.take(j - 1));
            assert(!is_ws(s[j - 1]));
            assert(false);
        } else {
            assert(s.take(j) =~= s);
        }
    } else {
        assert(is_ws(s.last()));
        lemma_trim_back_at(s.drop_last(), j);
        assert(s.drop_last().take(j) =~= s.take(j));
    }
}

/// Read the size off a content-length line.
pub fn content_length_value(line: &Vec<u8>) -> (r: Option<usize>)
    requires
        is_content_length_line(line@),
    ensures
        r == spec_content_length_value(line@),
{
    let ghost t = line@.skip(16);
    let n = line.len();
    let mut from: usize = 16;
    while from < n && is_ws_byte(line[from])
        invariant
            16 <= from <= n,
            n == line@.len(),
            forall|k: int| 16 <= k < from ==> is_ws(#[trigger] line@[k]),
        decreases n - from,
    {
        from = from + 1;
    }
    let mut to: usize = n;
    while to > from && is_ws_byte(line[to - 1])
        invariant
            from <= to <= n,
            n == line@.len(),
            forall|k: int| to <= k < n ==> is_ws(#[trigger] line@[k]),
        decreases to,
    {
        to = to - 1;
    }
    proof {
        assert forall|k: int| 0 <= k < from - 16 implies is_ws(#[trigger] t[k]) by {
            assert(t[k] == line@[k + 16]);
        }
        assert(from - 16 < t.len() ==> !is_ws(t[from - 16]));
        lemma_trim_front_at(t, from - 16);
        let u = t.skip(from - 16);
        assert forall|k: int| to - from <= k < u.len() implies is_ws(#[trigger] u[k]) by {
            assert(u[k] == line@[k + from]);
        }
        if to > from {
            assert(u[to - from - 1] == line@[to - 1]);
        }
        lemma_trim_back_at(u, to - from);
        assert(u.take(to - from) =~= line@.subrange(from as int, to as int));
        assert(trim(t) == line@.subrange(from as int, to as int));
    }
    parse_decimal(line, from, to)
}

/// Is `b` an ASCII whitespace byte?
fn is_ws_byte(b: u8) -> (r: bool)
    ensures
        r == is_ws(b),
{
    b == ' ' as u8 || (b >= 9 && b <= 13)
}

impl Http {
    /// What the probe's response reports as the resource's size: scan the
    /// header lines in order for the content-length field, stopping at the
    /// blank line that closes the block.
    pub fn size_from_headers(&self, lines: &Vec<Vec<u8>>) -> (r: Option<usize>)
        ensures
            r == spec_scan_headers(lines.deep_view()),
    {
        let ghost dv = lines.deep_view();
        proof {
            assert forall|i: int| 0 <= i < lines@.len() implies dv[i] == lines@[i]@ by {
                assert(dv[i] =~= lines@[i]@);
            }
        }
        let n = lines.len();
        let mut j: usize = 0;
        proof {
            assert(dv.skip(0) =~= dv);
        }
        while j < n
            invariant
                n == lines@.len(),
                dv == lines.deep_view(),
                dv.len() == n,
                forall|i: int| 0 <= i < n ==> #[trigger] dv[i] == lines@[i]@,
                j <= n,
                spec_scan_headers(dv.skip(j as int)) == spec_scan_headers(dv),
            decreases n - j,
        {
            let line = &lines[j];
            proof {
                assert(dv.skip(j as int)[0] == dv[j as int]);
            }
            if is_end_of_headers(line) {
                return None;
            }
            if matches_content_length(line) {
                return content_length_value(line);
            }
            proof {
                assert(dv.skip(j as int).drop_first() =~= dv.skip(j as int + 1));
            }
            j = j + 1;
        }
        proof {
            assert(dv.skip(n as int) =~= Seq::<Seq<u8>>::empty());
        }
        None
    }
}

} // verus!
