//! Recognition of the two accepted page-URL shapes: a canonical watch URL
//! with a video-id query parameter, and a shortened-domain URL with a
//! path-embedded id. Anything else is rejected before fetching.

use vstd::prelude::*;

use crate::scan::eq_at;
use crate::scan::matches_at;

verus! {

/// The scheme `https://`.
pub open spec fn https_bytes() -> Seq<u8> {
    seq!['h' as u8, 't' as u8, 't' as u8, 'p' as u8, 's' as u8, ':' as u8, '/' as u8, '/' as u8]
}

/// The scheme `http://`.
pub open spec fn http_bytes() -> Seq<u8> {
    seq!['h' as u8, 't' as u8, 't' as u8, 'p' as u8, ':' as u8, '/' as u8, '/' as u8]
}

/// The host prefix `www.`.
pub open spec fn www_bytes() -> Seq<u8> {
    seq!['w' as u8, 'w' as u8, 'w' as u8, '.' as u8]
}

/// The mobile host prefix `m.`.
pub open spec fn m_dot_bytes() -> Seq<u8> {
    seq!['m' as u8, '.' as u8]
}

/// The canonical host and watch path up to the video id: `youtube.com/watch?v=`.
pub open spec fn watch_path_bytes() -> Seq<u8> {
    seq![
        'y' as u8, 'o' as u8, 'u' as u8, 't' as u8, 'u' as u8, 'b' as u8, 'e' as u8, '.' as u8,
        'c' as u8, 'o' as u8, 'm' as u8, '/' as u8, 'w' as u8, 'a' as u8, 't' as u8, 'c' as u8,
        'h' as u8, '?' as u8, 'v' as u8, '=' as u8,
    ]
}

/// The shortened host and its path separator: `youtu.be/`.
pub open spec fn short_host_bytes() -> Seq<u8> {
    seq![
        'y' as u8, 'o' as u8, 'u' as u8, 't' as u8, 'u' as u8, '.' as u8, 'b' as u8, 'e' as u8,
        '/' as u8,
    ]
}

/// Where the scheme ends, or -1 if the text starts with neither scheme.
pub open spec fn scheme_end(s: Seq<u8>) -> int {
    if matches_at(s, 0, https_bytes()) {
        8
    } else if matches_at(s, 0, http_bytes()) {
        7
    } else {
        -1
    }
}

/// A canonical watch URL: a scheme, an optional `www.` or `m.` host prefix,
/// the watch path, and a non-empty video id.
pub open spec fn spec_is_watch_url(s: Seq<u8>) -> bool {
    scheme_end(s) >= 0 && {
        let h = scheme_end(s);
        let h2 = if matches_at(s, h, www_bytes()) {
            h + 4
        } else if matches_at(s, h, m_dot_bytes()) {
            h + 2
        } else {
            h
        };
        matches_at(s, h2, watch_path_bytes()) && s.len() > h2 + watch_path_bytes().len()
    }
}

/// A shortened-domain URL: a scheme, an optional `www.` prefix, the short
/// host, and a non-empty path-embedded id.
pub open spec fn spec_is_short_url(s: Seq<u8>) -> bool {
    scheme_end(s) >= 0 && {
        let h = scheme_end(s);
        let h2 = if matches_at(s, h, www_bytes()) {
            h + 4
        } else {
            h
        };
        matches_at(s, h2, short_host_bytes()) && s.len() > h2 + short_host_bytes().len()
    }
}

/// A page URL this system accepts: one of the two shapes above.
pub open spec fn spec_is_supported_url(s: Seq<u8>) -> bool {
    spec_is_watch_url(s) || spec_is_short_url(s)
}

/// Whether `pat` occurs in `s` at position `i`, out-of-range positions
/// included.
fn has_prefix_at(s: &[u8], i: usize, pat: &[u8]) -> (r: bool)
    ensures
        r == matches_at(s@, i as int, pat@),
{
    if s.len() < pat.len() || i > s.len() - pat.len() {
        return false;
    }
    eq_at(s, i, pat)
}

/// Build the `https://` pattern.
fn https_vec() -> (r: Vec<u8>)
    ensures
        r@ == https_bytes(),
{
    let mut v: Vec<u8> = Vec::new();
    v.push('h' as u8);
    v.push('t' as u8);
    v.push('t' as u8);
    v.push('p' as u8);
    v.push('s' as u8);
    v.push(':' as u8);
    v.push('/' as u8);
    v.push('/' as u8);
    proof {
        assert(v@ =~= https_bytes());
    }
    v
}

/// Build the `http://` pattern.
fn http_vec() -> (r: Vec<u8>)
    ensures
        r@ == http_bytes(),
{
    let mut v: Vec<u8> = Vec::new();
    v.push('h' as u8);
    v.push('t' as u8);
    v.push('t' as u8);
    v.push('p' as u8);
    v.push(':' as u8);
    v.push('/' as u8);
    v.push('/' as u8);
    proof {
        assert(v@ =~= http_bytes());
    }
    v
}

/// Build the `www.` pattern.
fn www_vec() -> (r: Vec<u8>)
    ensures
        r@ == www_bytes(),
{
    let mut v: Vec<u8> = Vec::new();
    v.push('w' as u8);
    v.push('w' as u8);
    v.push('w' as u8);
    v.push('.' as u8);
    proof {
        assert(v@ =~= www_bytes());
    }
    v
}

/// Build the `m.` pattern.
fn m_dot_vec() -> (r: Vec<u8>)
    ensures
        r@ == m_dot_bytes(),
{
    let mut v: Vec<u8> = Vec::new();
    v.push('m' as u8);
    v.push('.' as u8);
    proof {
        assert(v@ =~= m_dot_bytes());
    }
    v
}

/// Build the `youtube.com/watch?v=` pattern.
fn watch_path_vec() -> (r: Vec<u8>)
    ensures
        r@ == watch_path_bytes(),
{
    let mut v: Vec<u8> = Vec::new();
    v.push('y' as u8);
    v.push('o' as u8);
    v.push('u' as u8);
    v.push('t' as u8);
    v.push('u' as u8);
    v.push('b' as u8);
    v.push('e' as u8);
    v.push('.' as u8);
    v.push('c' as u8);
    v.push('o' as u8);
    v.push('m' as u8);
    v.push('/' as u8);
    v.push('w' as u8);
    v.push('a' as u8);
    v.push('t' as u8);
    v.push('c' as u8);
    v.push('h' as u8);
    v.push('?' as u8);
    v.push('v' as u8);
    v.push('=' as u8);
    proof {
        assert(v@ =~= watch_path_bytes());
    }
    v
}

/// Build the `youtu.be/` pattern.
fn short_host_vec() -> (r: Vec<u8>)
    ensures
        r@ == short_host_bytes(),
{
    let mut v: Vec<u8> = Vec::new();
    v.push('y' as u8);
    v.push('o' as u8);
    v.push('u' as u8);
    v.push('t' as u8);
    v.push('u' as u8);
    v.push('.' as u8);
    v.push('b' as u8);
    v.push('e' as u8);
    v.push('/' as u8);
    proof {
        assert(v@ =~= short_host_bytes());
    }
    v
}

/// Decide whether a page URL has one of the two accepted shapes.
pub fn is_supported_url(url: &[u8]) -> (r: bool)
    ensures
        r == spec_is_supported_url(url@),
{
    let https = https_vec();
    let http = http_vec();
    let h: usize;
    if has_prefix_at(url, 0, https.as_slice()) {
        h = 8;
    } else if has_prefix_at(url, 0, http.as_slice()) {
        h = 7;
    } else {
        return false;
    }
    let www = www_vec();
    let mdot = m_dot_vec();
    let watch_path = watch_path_vec();
    let short_host = short_host_vec();

    let mut h2 = h;
    if has_prefix_at(url, h, www.as_slice()) {
        h2 = h + 4;
    } else if has_prefix_at(url, h, mdot.as_slice()) {
        h2 = h + 2;
    }
    let watch_ok = has_prefix_at(url, h2, watch_path.as_slice()) && url.len() > h2 + 20;

    let mut h3 = h;
    if has_prefix_at(url, h, www.as_slice()) {
        h3 = h + 4;
    }
    let short_ok = has_prefix_at(url, h3, short_host.as_slice()) && url.len() > h3 + 9;

    watch_ok || short_ok
}

} // verus!
