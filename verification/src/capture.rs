//! The embedded-payload grammar: locating the JSON object that follows the
//! marker assignment, pulling `url=` / `s=` components out of a cipher blob,
//! percent-decoding, and restoring escaped ampersands.

use vstd::prelude::*;
use vstd::slice::slice_subrange;
use vstd::slice::slice_to_vec;

use crate::scan::delim_at;
use crate::scan::esc_amp_bytes;
use crate::scan::eq_at;
use crate::scan::find_sub;
use crate::scan::first_at;
use crate::scan::lemma_delim_at_unique;
use crate::scan::lemma_first_at_from_unique;
use crate::scan::lemma_non_ws_from_unique;
use crate::scan::marker_bytes;
use crate::scan::marker_vec;
use crate::scan::matches_at;
use crate::scan::non_ws_from;
use crate::scan::skip_ws;

verus! {

/// At `k` stands a `}` followed, over whitespace only, by a `;`.
pub open spec fn brace_closes(s: Seq<u8>, k: int) -> bool {
    &&& 0 <= k < s.len()
    &&& s[k] == ('}' as u8)
    &&& exists|j: int|
        #[trigger] non_ws_from(s, k + 1, j) && j < s.len() && s[j] == (';' as u8)
}

/// `k` closes an object body that opens at `b`: the first `}` after `b`
/// that a `;` follows over whitespace, with at least one byte and no line
/// break in between.
pub open spec fn closes_body(page: Seq<u8>, b: int, k: int) -> bool {
    &&& b + 2 <= k < page.len()
    &&& brace_closes(page, k)
    &&& forall|t: int| b < t < k ==> page[t] != 10
    &&& forall|t: int| b + 2 <= t < k ==> !brace_closes(page, t)
}

/// The assignment shape stands at marker occurrence `i`: the marker, then
/// (over whitespace) `=`, then an object literal opening at `b` and closed
/// at `k`.
pub open spec fn shape_at(page: Seq<u8>, i: int, b: int, k: int) -> bool {
    &&& matches_at(page, i, marker_bytes())
    &&& exists|e: int|
        {
            &&& #[trigger] non_ws_from(page, i + marker_bytes().len(), e)
            &&& e < page.len()
            &&& page[e] == ('=' as u8)
            &&& non_ws_from(page, e + 1, b)
        }
    &&& b < page.len()
    &&& page[b] == ('{' as u8)
    &&& closes_body(page, b, k)
}

/// The payload capture of a page: the first marker occurrence that the
/// assignment shape completes. Earlier marker occurrences that the shape
/// does not follow are passed over.
pub open spec fn capture_shape(page: Seq<u8>, i: int, b: int, k: int) -> bool {
    &&& shape_at(page, i, b, k)
    &&& forall|j: int, b2: int, k2: int| 0 <= j < i ==> !shape_at(page, j, b2, k2)
}

/// At one marker occurrence the shape completes in at most one way.
pub proof fn lemma_shape_at_unique(page: Seq<u8>, i: int, b1: int, k1: int, b2: int, k2: int)
    requires
        shape_at(page, i, b1, k1),
        shape_at(page, i, b2, k2),
    ensures
        b1 == b2,
        k1 == k2,
{
    let e1 = choose|e: int|
        non_ws_from(page, i + marker_bytes().len(), e) && e < page.len() && page[e] == ('=' as u8)
            && non_ws_from(page, e + 1, b1);
    let e2 = choose|e: int|
        non_ws_from(page, i + marker_bytes().len(), e) && e < page.len() && page[e] == ('=' as u8)
            && non_ws_from(page, e + 1, b2);
    lemma_non_ws_from_unique(page, i + marker_bytes().len(), e1, e2);
    lemma_non_ws_from_unique(page, e1 + 1, b1, b2);
    if k1 < k2 {
        assert(!brace_closes(page, k1));
    }
    if k2 < k1 {
        assert(!brace_closes(page, k2));
    }
}

/// A page either yields one well-defined capture or none at all.
pub proof fn lemma_capture_shape_unique(
    page: Seq<u8>,
    i1: int,
    b1: int,
    k1: int,
    i2: int,
    b2: int,
    k2: int,
)
    requires
        capture_shape(page, i1, b1, k1),
        capture_shape(page, i2, b2, k2),
    ensures
        i1 == i2,
        b1 == b2,
        k1 == k2,
{
    if i1 < i2 {
        assert(!shape_at(page, i1, b1, k1));
    }
    if i2 < i1 {
        assert(!shape_at(page, i2, b2, k2));
    }
    lemma_shape_at_unique(page, i1, b1, k1, b2, k2);
}

/// Find the position that closes an object body opening at `b`, or
/// establish that none does.
fn find_close(page: &[u8], b: usize) -> (r: Option<usize>)
    requires
        b < page@.len(),
    ensures
        match r {
            Some(k) => closes_body(page@, b as int, k as int),
            None => forall|k2: int| !closes_body(page@, b as int, k2),
        },
{
    let n = page.len();
    let mut k = b + 1;
    loop
        invariant
            n == page@.len(),
            b < n,
            b + 1 <= k <= n,
            forall|t: int| b < t < k ==> page@[t] != 10,
            forall|t: int| b + 2 <= t < k ==> !brace_closes(page@, t),
        decreases n - k,
    {
        if k == n {
            proof {
                assert forall|k2: int| !closes_body(page@, b as int, k2) by {
                    if closes_body(page@, b as int, k2) {
                        assert(!brace_closes(page@, k2));
                    }
                }
            }
            return None;
        }
        let c = page[k];
        if c == 10 {
            proof {
                assert forall|k2: int| !closes_body(page@, b as int, k2) by {
                    if closes_body(page@, b as int, k2) {
                        if k2 > k {
                            assert(page@[k as int] != 10);
                        } else {
                            assert(!brace_closes(page@, k2));
                        }
                    }
                }
            }
            return None;
        }
        if c == ('}' as u8) && k >= b + 2 {
            let j = skip_ws(page, k + 1);
            if j < n && page[j] == (';' as u8) {
                proof {
                    assert(brace_closes(page@, k as int));
                    assert(closes_body(page@, b as int, k as int));
                }
                return Some(k);
            }
            proof {
                assert forall|j2: int|
                    !(non_ws_from(page@, k + 1, j2) && j2 < page@.len() && page@[j2] == (
                    ';' as u8)) by {
                    if non_ws_from(page@, k + 1, j2) {
                        lemma_non_ws_from_unique(page@, k as int + 1, j as int, j2);
                    }
                }
                assert(!brace_closes(page@, k as int));
            }
        }
        k += 1;
    }
}

/// Locate the embedded payload of a page and return a copy of its text,
/// braces included. Marker occurrences that the assignment shape does not
/// follow are passed over; the search goes on from the next one.
pub fn capture_payload(page: &[u8]) -> (r: Option<Vec<u8>>)
    ensures
        match r {
            Some(cap) => exists|i: int, b: int, k: int|
                capture_shape(page@, i, b, k) && cap@ == page@.subrange(b, k + 1),
            None => forall|i: int, b: int, k: int| !capture_shape(page@, i, b, k),
        },
{
    let n = page.len();
    let marker = marker_vec();
    let mut from: usize = 0;
    loop
        invariant
            n == page@.len(),
            marker@ == marker_bytes(),
            0 <= from <= n,
            forall|j: int, b2: int, k2: int| 0 <= j < from ==> !shape_at(page@, j, b2, k2),
        decreases n - from,
    {
        let i = match find_sub(page, marker.as_slice(), from) {
            Some(i) => i,
            None => {
                proof {
                    assert forall|i2: int, b2: int, k2: int|
                        !capture_shape(page@, i2, b2, k2) by {
                        if shape_at(page@, i2, b2, k2) {
                            assert(i2 < from);
                        }
                    }
                }
                return None;
            },
        };
        proof {
            assert forall|j: int, b2: int, k2: int| 0 <= j < i ==> !shape_at(page@, j, b2, k2) by {
                if from <= j < i {
                    assert(!matches_at(page@, j, marker_bytes()));
                }
            }
        }
        let e = skip_ws(page, i + marker.len());
        let mut shape_ok = e < n && page[e] == ('=' as u8);
        let mut b: usize = 0;
        if shape_ok {
            b = skip_ws(page, e + 1);
            shape_ok = b < n && page[b] == ('{' as u8);
        }
        if shape_ok {
            match find_close(page, b) {
                Some(k) => {
                    let cap = slice_to_vec(slice_subrange(page, b, k + 1));
                    proof {
                        assert(shape_at(page@, i as int, b as int, k as int));
                        assert(capture_shape(page@, i as int, b as int, k as int));
                    }
                    return Some(cap);
                },
                None => {
                    proof {
                        assert forall|b2: int, k2: int|
                            !shape_at(page@, i as int, b2, k2) by {
                            if shape_at(page@, i as int, b2, k2) {
                                let e2 = choose|e2: int|
                                    non_ws_from(page@, i + marker_bytes().len(), e2) && e2
                                        < page@.len() && page@[e2] == ('=' as u8) && non_ws_from(
                                        page@,
                                        e2 + 1,
                                        b2,
                                    );
                                lemma_non_ws_from_unique(
                                    page@,
                                    i as int + marker_bytes().len(),
                                    e as int,
                                    e2,
                                );
                                lemma_non_ws_from_unique(page@, e as int + 1, b as int, b2);
                            }
                        }
                    }
                },
            }
        } else {
            proof {
                assert forall|b2: int, k2: int| !shape_at(page@, i as int, b2, k2) by {
                    if shape_at(page@, i as int, b2, k2) {
                        let e2 = choose|e2: int|
                            non_ws_from(page@, i + marker_bytes().len(), e2) && e2 < page@.len()
                                && page@[e2] == ('=' as u8) && non_ws_from(page@, e2 + 1, b2);
                        lemma_non_ws_from_unique(
                            page@,
                            i as int + marker_bytes().len(),
                            e as int,
                            e2,
                        );
                        if e < n && page@[e as int] == ('=' as u8) {
                            lemma_non_ws_from_unique(page@, e as int + 1, b as int, b2);
                        }
                    }
                }
            }
        }
        from = i + 1;
    }
}

/// A component of a cipher blob: the first occurrence of `key`, whose value
/// runs from there to the next `&` or the end and is not empty.
pub open spec fn component_shape(s: Seq<u8>, key: Seq<u8>, i: int, e: int) -> bool {
    &&& first_at(s, key, i)
    &&& delim_at(s, i + key.len(), e)
    &&& e > i + key.len()
}

/// A cipher blob yields at most one value for a given key.
pub proof fn lemma_component_shape_unique(
    s: Seq<u8>,
    key: Seq<u8>,
    i1: int,
    e1: int,
    i2: int,
    e2: int,
)
    requires
        component_shape(s, key, i1, e1),
        component_shape(s, key, i2, e2),
    ensures
        i1 == i2,
        e1 == e2,
{
    lemma_first_at_from_unique(s, key, 0, i1, i2);
    lemma_delim_at_unique(s, i1 + key.len(), e1, e2);
}

/// The value of the `key` component of cipher blob `s`, if the key occurs
/// and its value is not empty.
pub open spec fn spec_component(s: Seq<u8>, key: Seq<u8>) -> Option<Seq<u8>> {
    if exists|i: int, e: int| component_shape(s, key, i, e) {
        let (i, e) = choose|i: int, e: int| component_shape(s, key, i, e);
        Some(s.subrange(i + key.len(), e))
    } else {
        None
    }
}

/// Extract the (still percent-encoded) value of the `key` component of `s`.
pub fn capture_component(s: &[u8], key: &[u8]) -> (r: Option<Vec<u8>>)
    requires
        key@.len() >= 1,
    ensures
        match r {
            Some(v) => spec_component(s@, key@) == Some(v@),
            None => spec_component(s@, key@) is None,
        },
{
    let n = s.len();
    let i = match find_sub(s, key, 0) {
        Some(i) => i,
        None => {
            proof {
                assert forall|i2: int, e2: int| !component_shape(s@, key@, i2, e2) by {
                    if component_shape(s@, key@, i2, e2) {
                        assert(matches_at(s@, i2, key@));
                    }
                }
            }
            return None;
        },
    };
    let st = i + key.len();
    let e = find_amp(s, st);
    if e == st {
        proof {
            assert forall|i2: int, e2: int| !component_shape(s@, key@, i2, e2) by {
                if component_shape(s@, key@, i2, e2) {
                    lemma_first_at_from_unique(s@, key@, 0, i as int, i2);
                    lemma_delim_at_unique(s@, st as int, e as int, e2);
                }
            }
        }
        return None;
    }
    let v = slice_to_vec(slice_subrange(s, st, e));
    proof {
        assert(component_shape(s@, key@, i as int, e as int));
        let (i2, e2) = choose|i2: int, e2: int| component_shape(s@, key@, i2, e2);
        lemma_component_shape_unique(s@, key@, i as int, e as int, i2, e2);
    }
    Some(v)
}

/// Find the position ending a component value that starts at `from`: the
/// first `&` at or after `from`, or the end of `s`.
fn find_amp(s: &[u8], from: usize) -> (r: usize)
    requires
        from <= s@.len(),
    ensures
        delim_at(s@, from as int, r as int),
{
    let n = s.len();
    let mut e: usize = from;
    while e < n
        invariant
            n == s@.len(),
            from <= e <= n,
            forall|t: int| from <= t < e ==> s@[t] != ('&' as u8),
        decreases n - e,
    {
        if s[e] == ('&' as u8) {
            return e;
        }
        e += 1;
    }
    e
}

/// An ASCII hexadecimal digit.
pub open spec fn is_hex_digit(b: u8) -> bool {
    ||| ('0' as u8) <= b <= ('9' as u8)
    ||| ('a' as u8) <= b <= ('f' as u8)
    ||| ('A' as u8) <= b <= ('F' as u8)
}

/// The value of an ASCII hexadecimal digit.
pub open spec fn hex_val(b: u8) -> int {
    if ('0' as u8) <= b <= ('9' as u8) {
        b - ('0' as u8)
    } else if ('a' as u8) <= b <= ('f' as u8) {
        b - ('a' as u8) + 10
    } else {
        b - ('A' as u8) + 10
    }
}

/// Percent-decoding of a byte text: each `%` followed by two hexadecimal
/// digits becomes the byte they denote; everything else stays.
pub open spec fn spec_percent_decode(s: Seq<u8>) -> Seq<u8>
    decreases s.len(),
{
    if s.len() == 0 {
        Seq::empty()
    } else if s.len() >= 3 && s[0] == ('%' as u8) && is_hex_digit(s[1]) && is_hex_digit(s[2]) {
        seq![(hex_val(s[1]) * 16 + hex_val(s[2])) as u8] + spec_percent_decode(s.skip(3))
    } else {
        seq![s[0]] + spec_percent_decode(s.skip(1))
    }
}

/// The value of a hexadecimal digit byte, or `None` for any other byte.
fn hex_digit_val(b: u8) -> (r: Option<u8>)
    ensures
        match r {
            Some(v) => is_hex_digit(b) && v as int == hex_val(b),
            None => !is_hex_digit(b),
        },
{
    if ('0' as u8) <= b && b <= ('9' as u8) {
        Some(b - ('0' as u8))
    } else if ('a' as u8) <= b && b <= ('f' as u8) {
        Some(b - ('a' as u8) + 10)
    } else if ('A' as u8) <= b && b <= ('F' as u8) {
        Some(b - ('A' as u8) + 10)
    } else {
        None
    }
}

/// Percent-decode a byte text.
pub fn percent_decode(s: &[u8]) -> (r: Vec<u8>)
    ensures
        r@ == spec_percent_decode(s@),
{
    let n = s.len();
    let mut out: Vec<u8> = Vec::new();
    let mut i: usize = 0;
    proof {
        assert(s@.skip(0) =~= s@);
        assert(out@ + spec_percent_decode(s@) =~= spec_percent_decode(s@));
    }
    while i < n
        invariant
            n == s@.len(),
            0 <= i <= n,
            spec_percent_decode(s@) == out@ + spec_percent_decode(s@.skip(i as int)),
        decreases n - i,
    {
        let ghost pre = out@;
        let ghost rest = s@.skip(i as int);
        if n - i > 2 && s[i] == ('%' as u8) {
            match (hex_digit_val(s[i + 1]), hex_digit_val(s[i + 2])) {
                (Some(h), Some(l)) => {
                    out.push(h * 16 + l);
                    proof {
                        assert(rest.len() >= 3);
                        assert(rest[0] == ('%' as u8) && is_hex_digit(rest[1]) && is_hex_digit(
                            rest[2],
                        ));
                        assert(rest.skip(3) =~= s@.skip(i + 3));
                        assert(spec_percent_decode(rest) == seq![(hex_val(rest[1]) * 16 + hex_val(
                            rest[2],
                        )) as u8] + spec_percent_decode(s@.skip(i + 3)));
                        assert(out@ =~= pre + seq![(hex_val(rest[1]) * 16 + hex_val(rest[2])) as u8]);
                        assert(out@ + spec_percent_decode(s@.skip(i + 3)) =~= pre
                            + spec_percent_decode(rest));
                    }
                    i += 3;
                },
                _ => {
                    out.push(s[i]);
                    proof {
                        assert(rest.len() >= 3 && rest[0] == ('%' as u8));
                        assert(!(is_hex_digit(rest[1]) && is_hex_digit(rest[2])));
                        assert(rest.skip(1) =~= s@.skip(i + 1));
                        assert(spec_percent_decode(rest) == seq![rest[0]] + spec_percent_decode(
                            s@.skip(i + 1),
                        ));
                        assert(out@ =~= pre + seq![rest[0]]);
                        assert(out@ + spec_percent_decode(s@.skip(i + 1)) =~= pre
                            + spec_percent_decode(rest));
                    }
                    i += 1;
                },
            }
        } else {
            out.push(s[i]);
            proof {
                assert(rest.len() >= 1);
                assert(!(rest.len() >= 3 && rest[0] == ('%' as u8) && is_hex_digit(rest[1])
                    && is_hex_digit(rest[2])));
                assert(rest.skip(1) =~= s@.skip(i + 1));
                assert(spec_percent_decode(rest) == seq![rest[0]] + spec_percent_decode(
                    s@.skip(i + 1),
                ));
                assert(out@ =~= pre + seq![rest[0]]);
                assert(out@ + spec_percent_decode(s@.skip(i + 1)) =~= pre + spec_percent_decode(
                    rest,
                ));
            }
            i += 1;
        }
    }
    proof {
        assert(s@.skip(n as int) =~= Seq::<u8>::empty());
        assert(out@ + Seq::<u8>::empty() =~= out@);
    }
    out
}

/// Restoring escaped ampersands: each occurrence of the six-byte entity
/// `&` becomes a literal `&`; everything else stays.
pub open spec fn spec_unescape_amp(s: Seq<u8>) -> Seq<u8>
    decreases s.len(),
{
    if s.len() == 0 {
        Seq::empty()
    } else if matches_at(s, 0, esc_amp_bytes()) {
        seq![('&' as u8)] + spec_unescape_amp(s.skip(6))
    } else {
        seq![s[0]] + spec_unescape_amp(s.skip(1))
    }
}

/// Restore escaped ampersands in a direct URL.
pub fn unescape_amp(s: &[u8]) -> (r: Vec<u8>)
    ensures
        r@ == spec_unescape_amp(s@),
{
    let n = s.len();
    let esc = crate::scan::esc_amp_vec();
    let mut out: Vec<u8> = Vec::new();
    let mut i: usize = 0;
    proof {
        assert(s@.skip(0) =~= s@);
        assert(out@ + spec_unescape_amp(s@) =~= spec_unescape_amp(s@));
    }
    while i < n
        invariant
            n == s@.len(),
            esc@ == esc_amp_bytes(),
            0 <= i <= n,
            spec_unescape_amp(s@) == out@ + spec_unescape_amp(s@.skip(i as int)),
        decreases n - i,
    {
        let ghost pre = out@;
        let ghost rest = s@.skip(i as int);
        if n - i >= 6 && eq_at(s, i, esc.as_slice()) {
            out.push('&' as u8);
            proof {
                assert forall|t: int| 0 <= t < esc_amp_bytes().len() implies rest[t]
                    == esc_amp_bytes()[t] by {
                    assert(rest[t] == s@[i + t]);
                }
                assert(matches_at(rest, 0, esc_amp_bytes()));
                assert(rest.skip(6) =~= s@.skip(i + 6));
                assert(spec_unescape_amp(rest) == seq![('&' as u8)] + spec_unescape_amp(
                    s@.skip(i + 6),
                ));
                assert(out@ =~= pre + seq![('&' as u8)]);
                assert(out@ + spec_unescape_amp(s@.skip(i + 6)) =~= pre + spec_unescape_amp(rest));
            }
            i += 6;
        } else {
            out.push(s[i]);
            proof {
                if matches_at(rest, 0, esc_amp_bytes()) {
                    assert(i + 6 <= n);
                    assert forall|t: int| 0 <= t < esc_amp_bytes().len() implies s@[i + t]
                        == esc_amp_bytes()[t] by {
                        assert(rest[t] == s@[i + t]);
                    }
                    assert(matches_at(s@, i as int, esc_amp_bytes()));
                }
                assert(!matches_at(rest, 0, esc_amp_bytes()));
                assert(rest.skip(1) =~= s@.skip(i + 1));
                assert(spec_unescape_amp(rest) == seq![rest[0]] + spec_unescape_amp(
                    s@.skip(i + 1),
                ));
                assert(out@ =~= pre + seq![rest[0]]);
                assert(out@ + spec_unescape_amp(s@.skip(i + 1)) =~= pre + spec_unescape_amp(rest));
            }
            i += 1;
        }
    }
    proof {
        assert(s@.skip(n as int) =~= Seq::<u8>::empty());
        assert(out@ + Seq::<u8>::empty() =~= out@);
    }
    out
}

} // verus!
