//! Byte-level text scanning primitives: substring search, whitespace
//! skipping, and the fixed byte patterns of the embedded-payload grammar.

use vstd::prelude::*;

verus! {

/// ASCII whitespace, as the payload grammar understands it.
pub open spec fn is_ws(b: u8) -> bool {
    b == (' ' as u8) || b == 9 || b == 10 || b == 11 || b == 12 || b == 13
}

/// `pat` occurs in `hay` starting at index `i`.
pub open spec fn matches_at(hay: Seq<u8>, i: int, pat: Seq<u8>) -> bool {
    &&& 0 <= i
    &&& i + pat.len() <= hay.len()
    &&& forall|k: int| 0 <= k < pat.len() ==> hay[i + k] == pat[k]
}

/// `i` is the first index at or after `from` where `pat` occurs in `hay`.
pub open spec fn first_at_from(hay: Seq<u8>, pat: Seq<u8>, from: int, i: int) -> bool {
    &&& from <= i
    &&& matches_at(hay, i, pat)
    &&& forall|j: int| from <= j < i ==> !matches_at(hay, j, pat)
}

/// `i` is the first index where `pat` occurs in `hay`.
pub open spec fn first_at(hay: Seq<u8>, pat: Seq<u8>, i: int) -> bool {
    first_at_from(hay, pat, 0, i)
}

/// The first occurrence of a pattern at or after a point is unique.
pub proof fn lemma_first_at_from_unique(
    hay: Seq<u8>,
    pat: Seq<u8>,
    from: int,
    i: int,
    j: int,
)
    requires
        first_at_from(hay, pat, from, i),
        first_at_from(hay, pat, from, j),
    ensures
        i == j,
{
    if i < j {
        assert(!matches_at(hay, i, pat));
    }
    if j < i {
        assert(!matches_at(hay, j, pat));
    }
}

/// `j` is the first index at or after `from` holding a byte that is not
/// whitespace (or the end of `s` if none is).
pub open spec fn non_ws_from(s: Seq<u8>, from: int, j: int) -> bool {
    &&& from <= j <= s.len()
    &&& forall|k: int| from <= k < j ==> is_ws(s[k])
    &&& j < s.len() ==> !is_ws(s[j])
}

/// The first non-whitespace position is unique.
pub proof fn lemma_non_ws_from_unique(s: Seq<u8>, from: int, i: int, j: int)
    requires
        non_ws_from(s, from, i),
        non_ws_from(s, from, j),
    ensures
        i == j,
{
    if i < j {
        assert(is_ws(s[i]));
    }
    if j < i {
        assert(is_ws(s[j]));
    }
}

/// `e` is the position ending a component value that starts at `from`: the
/// first `&` at or after `from`, or the end of `s` if there is none.
pub open spec fn delim_at(s: Seq<u8>, from: int, e: int) -> bool {
    &&& from <= e <= s.len()
    &&& forall|k: int| from <= k < e ==> s[k] != ('&' as u8)
    &&& e < s.len() ==> s[e] == ('&' as u8)
}

/// The component-ending position is unique.
pub proof fn lemma_delim_at_unique(s: Seq<u8>, from: int, i: int, j: int)
    requires
        delim_at(s, from, i),
        delim_at(s, from, j),
    ensures
        i == j,
{
    if i < j {
        assert(s[i] != ('&' as u8));
    }
    if j < i {
        assert(s[j] != ('&' as u8));
    }
}

/// Compare `pat` against `hay` at position `i`.
pub fn eq_at(hay: &[u8], i: usize, pat: &[u8]) -> (r: bool)
    requires
        i + pat@.len() <= hay@.len(),
    ensures
        r == matches_at(hay@, i as int, pat@),
{
    let n = hay.len();
    let m = pat.len();
    let mut j: usize = 0;
    while j < m
        invariant
            n == hay@.len(),
            m == pat@.len(),
            i + m <= n,
            0 <= j <= m,
            forall|k: int| 0 <= k < j ==> hay@[i + k] == pat@[k],
        decreases pat@.len() - j,
    {
        if hay[i + j] != pat[j] {
            assert(!matches_at(hay@, i as int, pat@));
            return false;
        }
        j += 1;
    }
    true
}

/// Find the first occurrence of `pat` in `hay` at or after `from`.
pub fn find_sub(hay: &[u8], pat: &[u8], from: usize) -> (r: Option<usize>)
    requires
        pat@.len() >= 1,
    ensures
        match r {
            Some(i) => first_at_from(hay@, pat@, from as int, i as int),
            None => forall|j: int| from <= j ==> !matches_at(hay@, j, pat@),
        },
{
    let n = hay.len();
    let m = pat.len();
    if m > n {
        return None;
    }
    let last = n - m;
    let mut i: usize = from;
    if i > last {
        return None;
    }
    loop
        invariant
            n == hay@.len(),
            m == pat@.len(),
            m >= 1,
            m <= n,
            last == n - m,
            from <= i <= last + 1,
            forall|j: int| from <= j < i ==> !matches_at(hay@, j, pat@),
        decreases hay@.len() - i,
    {
        if i > last {
            return None;
        }
        if eq_at(hay, i, pat) {
            return Some(i);
        }
        i += 1;
    }
}

/// Skip whitespace from `from`, returning the first non-whitespace position.
pub fn skip_ws(s: &[u8], from: usize) -> (r: usize)
    requires
        from <= s@.len(),
    ensures
        non_ws_from(s@, from as int, r as int),
{
    let mut i: usize = from;
    while i < s.len()
        invariant
            from <= i <= s@.len(),
            forall|k: int| from <= k < i ==> is_ws(s@[k]),
        decreases s@.len() - i,
    {
        let b = s[i];
        if !(b == (' ' as u8) || b == 9 || b == 10 || b == 11 || b == 12 || b == 13) {
            return i;
        }
        i += 1;
    }
    i
}

/// The marker that introduces the embedded payload: the text of the
/// assignment statement `var ytInitialPlayerResponse`.
pub open spec fn marker_bytes() -> Seq<u8> {
    seq![
        'v' as u8, 'a' as u8, 'r' as u8, ' ' as u8,
        'y' as u8, 't' as u8, 'I' as u8, 'n' as u8, 'i' as u8, 't' as u8, 'i' as u8,
        'a' as u8, 'l' as u8, 'P' as u8, 'l' as u8, 'a' as u8, 'y' as u8, 'e' as u8,
        'r' as u8, 'R' as u8, 'e' as u8, 's' as u8, 'p' as u8, 'o' as u8, 'n' as u8,
        's' as u8, 'e' as u8,
    ]
}

/// The escaped-ampersand entity `&` that direct URLs carry.
pub open spec fn esc_amp_bytes() -> Seq<u8> {
    seq!['\\' as u8, 'u' as u8, '0' as u8, '0' as u8, '2' as u8, '6' as u8]
}

/// The key of the ciphered URL component, `url=`.
pub open spec fn url_key_bytes() -> Seq<u8> {
    seq!['u' as u8, 'r' as u8, 'l' as u8, '=' as u8]
}

/// The key of the signature component, `s=`.
pub open spec fn sig_key_bytes() -> Seq<u8> {
    seq!['s' as u8, '=' as u8]
}

/// Build the marker pattern as a byte vector.
pub fn marker_vec() -> (r: Vec<u8>)
    ensures
        r@ == marker_bytes(),
{
    let mut v: Vec<u8> = Vec::new();
    v.push('v' as u8);
    v.push('a' as u8);
    v.push('r' as u8);
    v.push(' ' as u8);
    v.push('y' as u8);
    v.push('t' as u8);
    v.push('I' as u8);
    v.push('n' as u8);
    v.push('i' as u8);
    v.push('t' as u8);
    v.push('i' as u8);
    v.push('a' as u8);
    v.push('l' as u8);
    v.push('P' as u8);
    v.push('l' as u8);
    v.push('a' as u8);
    v.push('y' as u8);
    v.push('e' as u8);
    v.push('r' as u8);
    v.push('R' as u8);
    v.push('e' as u8);
    v.push('s' as u8);
    v.push('p' as u8);
    v.push('o' as u8);
    v.push('n' as u8);
    v.push('s' as u8);
    v.push('e' as u8);
    proof {
        assert(v@ =~= marker_bytes());
    }
    v
}

/// Build the escaped-ampersand pattern as a byte vector.
pub fn esc_amp_vec() -> (r: Vec<u8>)
    ensures
        r@ == esc_amp_bytes(),
{
    let mut v: Vec<u8> = Vec::new();
    v.push('\\' as u8);
    v.push('u' as u8);
    v.push('0' as u8);
    v.push('0' as u8);
    v.push('2' as u8);
    v.push('6' as u8);
    proof {
        assert(v@ =~= esc_amp_bytes());
    }
    v
}

/// Build the `url=` key as a byte vector.
pub fn url_key_vec() -> (r: Vec<u8>)
    ensures
        r@ == url_key_bytes(),
{
    let mut v: Vec<u8> = Vec::new();
    v.push('u' as u8);
    v.push('r' as u8);
    v.push('l' as u8);
    v.push('=' as u8);
    proof {
        assert(v@ =~= url_key_bytes());
    }
    v
}

/// Build the `s=` key as a byte vector.
pub fn sig_key_vec() -> (r: Vec<u8>)
    ensures
        r@ == sig_key_bytes(),
{
    let mut v: Vec<u8> = Vec::new();
    v.push('s' as u8);
    v.push('=' as u8);
    proof {
        assert(v@ =~= sig_key_bytes());
    }
    v
}

} // verus!
