//! The stream extractor: walking the two format lists of the embedded
//! payload and resolving, for every profile known to the catalog, a playable
//! URL — direct or cipher-decoded. The result is a mapping from itag to
//! resolved stream where a later resolution of the same itag overwrites an
//! earlier one.

use vstd::prelude::*;

use crate::capture::capture_payload;
use crate::capture::capture_component;
use crate::capture::capture_shape;
use crate::capture::lemma_capture_shape_unique;
use crate::capture::percent_decode;
use crate::capture::spec_component;
use crate::capture::spec_percent_decode;
use crate::capture::spec_unescape_amp;
use crate::capture::unescape_amp;
use crate::catalog::lookup;
use crate::catalog::spec_lookup;
use crate::format::Format;
use crate::jsonio::json_parses;
use crate::jsonio::parse_payload_lists;
use crate::jsonio::payload_adaptive;
use crate::jsonio::payload_formats;
use crate::scan::eq_at;
use crate::scan::matches_at;
use crate::scan::sig_key_bytes;
use crate::scan::sig_key_vec;
use crate::scan::url_key_bytes;
use crate::scan::url_key_vec;

verus! {

/// Why an extraction run failed as a whole.
#[derive(Clone, Copy, Debug, PartialEq, Eq, Structural)]
pub enum ExtractionError {
    /// The marker or the object it introduces is absent from the page.
    NoEmbeddedPayload,
    /// The captured object is not valid structured data, or an entry inside
    /// it carries a field of the wrong shape.
    MalformedPayload,
}

/// One field of a list entry as the payload carries it: absent (or null),
/// a string value, or present with some other shape.
#[derive(Debug)]
pub enum RawField {
    Missing,
    Text(Vec<u8>),
    Other,
}

/// One entry of a format list, reduced to the fields the walk reads.
#[derive(Debug)]
pub struct RawEntry {
    pub entry_type: RawField,
    pub itag: Option<i32>,
    pub url: RawField,
    pub cipher: RawField,
}

/// A playable URL paired with the catalog profile it was resolved for.
#[derive(Debug)]
pub struct ResolvedStream {
    pub url: Vec<u8>,
    pub profile: Format<'static>,
}

/// No two entries of the list share an itag.
pub open spec fn unique_keys(s: Seq<(i32, ResolvedStream)>) -> bool {
    forall|p: int, q: int| 0 <= p < q < s.len() ==> (#[trigger] s[p]).0 != (#[trigger] s[q]).0
}

/// The mapping that an association list denotes, later pairs overwriting
/// earlier ones.
pub open spec fn seq_to_map(s: Seq<(i32, ResolvedStream)>) -> Map<int, Seq<u8>>
    decreases s.len(),
{
    if s.len() == 0 {
        Map::empty()
    } else {
        seq_to_map(s.drop_last()).insert(s.last().0 as int, s.last().1.url@)
    }
}

/// A key is in the denoted mapping exactly when some pair of the list
/// carries it.
pub proof fn lemma_seq_to_map_contains(s: Seq<(i32, ResolvedStream)>, k: int)
    ensures
        seq_to_map(s).contains_key(k) <==> (exists|p: int|
            0 <= p < s.len() && (#[trigger] s[p]).0 as int == k),
    decreases s.len(),
{
    if s.len() == 0 {
    } else {
        lemma_seq_to_map_contains(s.drop_last(), k);
        if s.last().0 as int == k {
            assert(s[s.len() - 1].0 as int == k);
        } else {
            if seq_to_map(s).contains_key(k) {
                let p = choose|p: int|
                    0 <= p < s.drop_last().len() && (#[trigger] s.drop_last()[p]).0 as int == k;
                assert(s[p] == s.drop_last()[p]);
            }
            if exists|p: int| 0 <= p < s.len() && (#[trigger] s[p]).0 as int == k {
                let p = choose|p: int| 0 <= p < s.len() && (#[trigger] s[p]).0 as int == k;
                assert(p != s.len() - 1);
                assert(s.drop_last()[p] == s[p]);
            }
        }
    }
}

/// With unique keys, the denoted mapping sends each listed key to its
/// listed URL.
pub proof fn lemma_seq_to_map_value(s: Seq<(i32, ResolvedStream)>, p: int)
    requires
        unique_keys(s),
        0 <= p < s.len(),
    ensures
        seq_to_map(s).contains_key(s[p].0 as int),
        seq_to_map(s)[s[p].0 as int] == s[p].1.url@,
    decreases s.len(),
{
    lemma_seq_to_map_contains(s, s[p].0 as int);
    if p == s.len() - 1 {
    } else {
        assert(s[s.len() - 1].0 != s[p].0);
        assert forall|p2: int, q2: int| 0 <= p2 < q2 < s.drop_last().len() implies (
        #[trigger] s.drop_last()[p2]).0 != (#[trigger] s.drop_last()[q2]).0 by {
            assert(s.drop_last()[p2] == s[p2]);
            assert(s.drop_last()[q2] == s[q2]);
        }
        assert(s.drop_last()[p] == s[p]);
        lemma_seq_to_map_value(s.drop_last(), p);
    }
}

/// Replacing the pair that carries key `k` denotes the same mapping as
/// inserting the new URL for `k`.
pub proof fn lemma_seq_to_map_update(
    s: Seq<(i32, ResolvedStream)>,
    p: int,
    k: i32,
    nv: ResolvedStream,
)
    requires
        unique_keys(s),
        0 <= p < s.len(),
        s[p].0 == k,
    ensures
        seq_to_map(s.update(p, (k, nv))) == seq_to_map(s).insert(k as int, nv.url@),
    decreases s.len(),
{
    let t = s.update(p, (k, nv));
    if p == s.len() - 1 {
        assert(t.drop_last() =~= s.drop_last());
        assert(t.last() == (k, nv));
        assert(seq_to_map(t) == seq_to_map(s.drop_last()).insert(k as int, nv.url@));
        assert(seq_to_map(s).insert(k as int, nv.url@) =~= seq_to_map(s.drop_last()).insert(
            k as int,
            nv.url@,
        ));
    } else {
        assert forall|p2: int, q2: int| 0 <= p2 < q2 < s.drop_last().len() implies (
        #[trigger] s.drop_last()[p2]).0 != (#[trigger] s.drop_last()[q2]).0 by {
            assert(s.drop_last()[p2] == s[p2]);
            assert(s.drop_last()[q2] == s[q2]);
        }
        assert(s.drop_last()[p] == s[p]);
        lemma_seq_to_map_update(s.drop_last(), p, k, nv);
        assert(t.drop_last() =~= s.drop_last().update(p, (k, nv)));
        assert(t.last() == s.last());
        assert(s[s.len() - 1].0 != k);
        assert(seq_to_map(t) == seq_to_map(s.drop_last()).insert(k as int, nv.url@).insert(
            s.last().0 as int,
            s.last().1.url@,
        ));
        assert(seq_to_map(s.drop_last()).insert(k as int, nv.url@).insert(
            s.last().0 as int,
            s.last().1.url@,
        ) =~= seq_to_map(s.drop_last()).insert(s.last().0 as int, s.last().1.url@).insert(
            k as int,
            nv.url@,
        ));
    }
}

/// The accumulated result of an extraction run: an association from itag to
/// resolved stream with unique keys, denoting a mapping from itag to URL.
pub struct ExtractionResult {
    entries: Vec<(i32, ResolvedStream)>,
}

impl View for ExtractionResult {
    type V = Map<int, Seq<u8>>;

    closed spec fn view(&self) -> Map<int, Seq<u8>> {
        seq_to_map(self.entries@)
    }
}

impl ExtractionResult {
    /// The underlying association list.
    pub closed spec fn stream_seq(&self) -> Seq<(i32, ResolvedStream)> {
        self.entries@
    }

    /// Keys are unique and every stored profile is the catalog row of its
    /// key.
    pub closed spec fn wf(&self) -> bool {
        &&& unique_keys(self.entries@)
        &&& forall|p: int|
            0 <= p < self.entries@.len() ==> spec_lookup((#[trigger] self.entries@[p]).0 as int)
                == Some(self.entries@[p].1.profile@)
    }

    /// An empty result.
    pub fn new() -> (r: Self)
        ensures
            r.wf(),
            r@ == Map::<int, Seq<u8>>::empty(),
            r.stream_seq().len() == 0,
    {
        ExtractionResult { entries: Vec::new() }
    }

    /// How many itags have been resolved.
    pub fn len(&self) -> (r: usize)
        ensures
            r == self.stream_seq().len(),
    {
        self.entries.len()
    }

    /// Record `url` for `itag`, overwriting what an earlier pass recorded.
    pub fn insert(&mut self, itag: i32, url: Vec<u8>, profile: Format<'static>)
        requires
            old(self).wf(),
            spec_lookup(itag as int) == Some(profile@),
        ensures
            final(self).wf(),
            final(self)@ == old(self)@.insert(itag as int, url@),
    {
        let ghost s0 = old(self).entries@;
        let n = self.entries.len();
        let mut p: usize = 0;
        while p < n
            invariant
                n == self.entries@.len(),
                0 <= p <= n,
                self.entries@ == s0,
                s0 == old(self).entries@,
                unique_keys(s0),
                forall|q: int|
                    0 <= q < s0.len() ==> spec_lookup((#[trigger] s0[q]).0 as int) == Some(
                        s0[q].1.profile@,
                    ),
                spec_lookup(itag as int) == Some(profile@),
                forall|q: int| 0 <= q < p ==> (#[trigger] s0[q]).0 != itag,
            decreases n - p,
        {
            if self.entries[p].0 == itag {
                let st = ResolvedStream { url, profile };
                self.entries.set(p, (itag, st));
                proof {
                    let nv = self.entries@[p as int].1;
                    assert(nv.url@ == url@);
                    assert(nv.profile == profile);
                    assert(self.entries@ =~= s0.update(p as int, (itag, nv)));
                    lemma_seq_to_map_update(s0, p as int, itag, nv);
                    assert(seq_to_map(self.entries@) == seq_to_map(s0).insert(
                        itag as int,
                        url@,
                    ));
                    assert forall|p2: int, q2: int|
                        0 <= p2 < q2 < self.entries@.len() implies (
                    #[trigger] self.entries@[p2]).0 != (#[trigger] self.entries@[q2]).0 by {
                        assert(self.entries@[p2].0 == s0[p2].0);
                        assert(self.entries@[q2].0 == s0[q2].0);
                    }
                    assert forall|q: int| 0 <= q < self.entries@.len() implies spec_lookup((
                    #[trigger] self.entries@[q]).0 as int) == Some(self.entries@[q].1.profile@) by {
                        if q != p as int {
                            assert(self.entries@[q] == s0[q]);
                        }
                    }
                }
                return ;
            }
            p += 1;
        }
        let st = ResolvedStream { url, profile };
        self.entries.push((itag, st));
        proof {
            assert(self.entries@.drop_last() =~= s0);
            assert(self.entries@.last().0 == itag);
            assert(self.entries@.last().1.url@ == url@);
            assert(self.entries@.last().1.profile == profile);
            assert forall|p2: int, q2: int|
                0 <= p2 < q2 < self.entries@.len() implies (#[trigger] self.entries@[p2]).0 != (
            #[trigger] self.entries@[q2]).0 by {
                if q2 == self.entries@.len() - 1 {
                    assert(self.entries@[p2] == s0[p2]);
                } else {
                    assert(self.entries@[p2] == s0[p2]);
                    assert(self.entries@[q2] == s0[q2]);
                }
            }
            assert forall|q: int|
                0 <= q < self.entries@.len() implies spec_lookup((
            #[trigger] self.entries@[q]).0 as int) == Some(self.entries@[q].1.profile@) by {
                if q < s0.len() {
                    assert(self.entries@[q] == s0[q]);
                }
            }
        }
    }

    /// The resolved streams, each key with its URL and catalog profile.
    pub fn entries(&self) -> (r: &Vec<(i32, ResolvedStream)>)
        requires
            self.wf(),
        ensures
            r@ == self.stream_seq(),
            unique_keys(r@),
            forall|p: int|
                0 <= p < r@.len() ==> {
                    &&& self@.contains_key((#[trigger] r@[p]).0 as int)
                    &&& self@[r@[p].0 as int] == r@[p].1.url@
                    &&& spec_lookup(r@[p].0 as int) == Some(r@[p].1.profile@)
                },
    {
        proof {
            assert forall|p: int| 0 <= p < self.entries@.len() implies {
                &&& self@.contains_key((#[trigger] self.entries@[p]).0 as int)
                &&& self@[self.entries@[p].0 as int] == self.entries@[p].1.url@
            } by {
                lemma_seq_to_map_value(self.entries@, p);
            }
        }
        &self.entries
    }

    /// Give the association list up, for partitioning and ranking.
    pub fn into_entries(self) -> (r: Vec<(i32, ResolvedStream)>)
        requires
            self.wf(),
        ensures
            r@ == self.stream_seq(),
            unique_keys(r@),
            forall|p: int|
                0 <= p < r@.len() ==> spec_lookup((#[trigger] r@[p]).0 as int) == Some(
                    r@[p].1.profile@,
                ),
    {
        self.entries
    }

    /// Look a resolved itag up.
    pub fn get(&self, itag: i32) -> (r: Option<&ResolvedStream>)
        requires
            self.wf(),
        ensures
            match r {
                Some(st) => self@.contains_key(itag as int) && st.url@ == self@[itag as int]
                    && spec_lookup(itag as int) == Some(st.profile@),
                None => !self@.contains_key(itag as int),
            },
    {
        let n = self.entries.len();
        let mut p: usize = 0;
        while p < n
            invariant
                self.wf(),
                n == self.entries@.len(),
                0 <= p <= n,
                forall|q: int| 0 <= q < p ==> (#[trigger] self.entries@[q]).0 != itag,
            decreases n - p,
        {
            if self.entries[p].0 == itag {
                proof {
                    lemma_seq_to_map_value(self.entries@, p as int);
                }
                return Some(&self.entries[p].1);
            }
            p += 1;
        }
        proof {
            lemma_seq_to_map_contains(self.entries@, itag as int);
        }
        None
    }
}

/// The sentinel marking an entry that is still being generated server-side:
/// the text `FORMAT_STREAM_TYPE_OTF`.
pub open spec fn otf_bytes() -> Seq<u8> {
    seq![
        'F' as u8, 'O' as u8, 'R' as u8, 'M' as u8, 'A' as u8, 'T' as u8, '_' as u8,
        'S' as u8, 'T' as u8, 'R' as u8, 'E' as u8, 'A' as u8, 'M' as u8, '_' as u8,
        'T' as u8, 'Y' as u8, 'P' as u8, 'E' as u8, '_' as u8, 'O' as u8, 'T' as u8,
        'F' as u8,
    ]
}

/// Build the sentinel as a byte vector.
fn otf_vec() -> (r: Vec<u8>)
    ensures
        r@ == otf_bytes(),
{
    let mut v: Vec<u8> = Vec::new();
    v.push('F' as u8);
    v.push('O' as u8);
    v.push('R' as u8);
    v.push('M' as u8);
    v.push('A' as u8);
    v.push('T' as u8);
    v.push('_' as u8);
    v.push('S' as u8);
    v.push('T' as u8);
    v.push('R' as u8);
    v.push('E' as u8);
    v.push('A' as u8);
    v.push('M' as u8);
    v.push('_' as u8);
    v.push('T' as u8);
    v.push('Y' as u8);
    v.push('P' as u8);
    v.push('E' as u8);
    v.push('_' as u8);
    v.push('O' as u8);
    v.push('T' as u8);
    v.push('F' as u8);
    proof {
        assert(v@ =~= otf_bytes());
    }
    v
}

/// Whether a type field carries the sentinel text.
fn is_otf(t: &Vec<u8>) -> (r: bool)
    ensures
        r == (t@ == otf_bytes()),
{
    let otf = otf_vec();
    if t.len() != otf.len() {
        return false;
    }
    let r = eq_at(t.as_slice(), 0, otf.as_slice());
    proof {
        if matches_at(t@, 0, otf_bytes()) {
            assert(t@ =~= otf_bytes());
        } else {
            if t@ == otf_bytes() {
                assert(matches_at(t@, 0, otf_bytes()));
            }
        }
    }
    r
}

/// What one entry does to the accumulated mapping: resolve a URL for its
/// itag, skip, or fail the run.
pub open spec fn spec_step(m: Map<int, Seq<u8>>, e: RawEntry) -> Result<
    Map<int, Seq<u8>>,
    ExtractionError,
> {
    match e.entry_type {
        RawField::Other => Err(ExtractionError::MalformedPayload),
        RawField::Text(t) => if t@ == otf_bytes() {
            Ok(m)
        } else {
            spec_step_itag(m, e)
        },
        RawField::Missing => spec_step_itag(m, e),
    }
}

/// The step after the type check: the itag must be a number known to the
/// catalog.
pub open spec fn spec_step_itag(m: Map<int, Seq<u8>>, e: RawEntry) -> Result<
    Map<int, Seq<u8>>,
    ExtractionError,
> {
    match e.itag {
        None => Err(ExtractionError::MalformedPayload),
        Some(t) => if spec_lookup(t as int) is None {
            Ok(m)
        } else {
            spec_step_url(m, e, t)
        },
    }
}

/// The step after the catalog check: a direct URL is unescaped; otherwise a
/// cipher blob must yield both its `url=` and `s=` components, of which the
/// URL one is percent-decoded; otherwise the entry is skipped.
pub open spec fn spec_step_url(m: Map<int, Seq<u8>>, e: RawEntry, t: i32) -> Result<
    Map<int, Seq<u8>>,
    ExtractionError,
> {
    match e.url {
        RawField::Text(u) => Ok(m.insert(t as int, spec_unescape_amp(u@))),
        RawField::Other => Err(ExtractionError::MalformedPayload),
        RawField::Missing => match e.cipher {
            RawField::Text(c) => match spec_component(c@, url_key_bytes()) {
                Some(cu) => if spec_component(c@, sig_key_bytes()) is Some {
                    Ok(m.insert(t as int, spec_percent_decode(cu)))
                } else {
                    Ok(m)
                },
                None => Ok(m),
            },
            RawField::Other => Err(ExtractionError::MalformedPayload),
            RawField::Missing => Ok(m),
        },
    }
}

/// Folding one list of entries over the accumulated mapping, left to right,
/// a failing entry aborting the whole run.
pub open spec fn spec_process(entries: Seq<RawEntry>, m: Map<int, Seq<u8>>) -> Result<
    Map<int, Seq<u8>>,
    ExtractionError,
>
    decreases entries.len(),
{
    if entries.len() == 0 {
        Ok(m)
    } else {
        match spec_step(m, entries[0]) {
            Ok(m2) => spec_process(entries.skip(1), m2),
            Err(er) => Err(er),
        }
    }
}

/// Walk one list of entries, recording each resolution in `result`. Both
/// format lists run through this one traversal, so the overwrite order is
/// fixed by the order of the two calls alone.
pub fn process_list(entries: &Vec<RawEntry>, result: &mut ExtractionResult) -> (r: Result<
    (),
    ExtractionError,
>)
    requires
        old(result).wf(),
    ensures
        final(result).wf(),
        match r {
            Ok(_) => spec_process(entries@, old(result)@) == Ok::<_, ExtractionError>(
                final(result)@,
            ),
            Err(er) => spec_process(entries@, old(result)@) == Err::<Map<int, Seq<u8>>, _>(er)
                && er == ExtractionError::MalformedPayload,
        },
{
    let n = entries.len();
    let mut i: usize = 0;
    proof {
        assert(entries@.skip(0) =~= entries@);
    }
    while i < n
        invariant
            n == entries@.len(),
            0 <= i <= n,
            result.wf(),
            spec_process(entries@, old(result)@) == spec_process(
                entries@.skip(i as int),
                result@,
            ),
        decreases n - i,
    {
        let ghost m0 = result@;
        let ghost rest = entries@.skip(i as int);
        proof {
            assert(rest.len() == n - i);
            assert(rest[0] == entries@[i as int]);
            assert(rest.skip(1) =~= entries@.skip(i as int + 1));
        }
        let e = &entries[i];
        let mut skip_entry = false;
        match &e.entry_type {
            RawField::Other => {
                proof {
                    assert(spec_step(m0, rest[0]) == Err::<Map<int, Seq<u8>>, _>(
                        ExtractionError::MalformedPayload,
                    ));
                }
                return Err(ExtractionError::MalformedPayload);
            },
            RawField::Text(t) => {
                if is_otf(t) {
                    skip_entry = true;
                }
            },
            RawField::Missing => {},
        }
        if skip_entry {
            proof {
                assert(spec_step(m0, rest[0]) == Ok::<_, ExtractionError>(m0));
            }
            i += 1;
            continue ;
        }
        let itag = match e.itag {
            Some(t) => t,
            None => {
                proof {
                    assert(spec_step(m0, rest[0]) == Err::<Map<int, Seq<u8>>, _>(
                        ExtractionError::MalformedPayload,
                    ));
                }
                return Err(ExtractionError::MalformedPayload);
            },
        };
        let profile = match lookup(itag) {
            Some(f) => f,
            None => {
                proof {
                    assert(spec_step(m0, rest[0]) == Ok::<_, ExtractionError>(m0));
                }
                i += 1;
                continue ;
            },
        };
        match &e.url {
            RawField::Text(u) => {
                let uu = unescape_amp(u.as_slice());
                result.insert(itag, uu, profile);
                proof {
                    assert(spec_step(m0, rest[0]) == Ok::<_, ExtractionError>(result@));
                }
            },
            RawField::Other => {
                proof {
                    assert(spec_step(m0, rest[0]) == Err::<Map<int, Seq<u8>>, _>(
                        ExtractionError::MalformedPayload,
                    ));
                }
                return Err(ExtractionError::MalformedPayload);
            },
            RawField::Missing => {
                match &e.cipher {
                    RawField::Text(c) => {
                        let uk = url_key_vec();
                        let sk = sig_key_vec();
                        let cu = capture_component(c.as_slice(), uk.as_slice());
                        let cs = capture_component(c.as_slice(), sk.as_slice());
                        match (cu, cs) {
                            (Some(cuv), Some(_)) => {
                                let du = percent_decode(cuv.as_slice());
                                result.insert(itag, du, profile);
                                proof {
                                    assert(spec_step(m0, rest[0]) == Ok::<_, ExtractionError>(
                                        result@,
                                    ));
                                }
                            },
                            _ => {
                                proof {
                                    assert(spec_step(m0, rest[0]) == Ok::<_, ExtractionError>(m0));
                                }
                            },
                        }
                    },
                    RawField::Other => {
                        proof {
                            assert(spec_step(m0, rest[0]) == Err::<Map<int, Seq<u8>>, _>(
                                ExtractionError::MalformedPayload,
                            ));
                        }
                        return Err(ExtractionError::MalformedPayload);
                    },
                    RawField::Missing => {
                        proof {
                            assert(spec_step(m0, rest[0]) == Ok::<_, ExtractionError>(m0));
                        }
                    },
                }
            },
        }
        i += 1;
    }
    proof {
        assert(entries@.skip(n as int) =~= Seq::<RawEntry>::empty());
    }
    Ok(())
}

/// The entry names this itag (whatever else it holds).
pub open spec fn entry_touches(e: RawEntry, k: int) -> bool {
    match e.itag {
        Some(t) => t as int == k,
        None => false,
    }
}

/// What the entry records for its itag, where it records anything: the
/// unescaped direct URL, or the percent-decoded `url=` component of a
/// cipher blob that also carries its `s=` component.
pub open spec fn entry_resolution(e: RawEntry) -> Option<(i32, Seq<u8>)> {
    match e.entry_type {
        RawField::Other => None,
        RawField::Text(t) => if t@ == otf_bytes() {
            None
        } else {
            entry_resolution_itag(e)
        },
        RawField::Missing => entry_resolution_itag(e),
    }
}

/// The resolution of an entry that passed the type check.
pub open spec fn entry_resolution_itag(e: RawEntry) -> Option<(i32, Seq<u8>)> {
    match e.itag {
        None => None,
        Some(t) => if spec_lookup(t as int) is None {
            None
        } else {
            match e.url {
                RawField::Text(u) => Some((t, spec_unescape_amp(u@))),
                RawField::Other => None,
                RawField::Missing => match e.cipher {
                    RawField::Text(c) => match spec_component(c@, url_key_bytes()) {
                        Some(cu) => if spec_component(c@, sig_key_bytes()) is Some {
                            Some((t, spec_percent_decode(cu)))
                        } else {
                            None
                        },
                        None => None,
                    },
                    RawField::Other => None,
                    RawField::Missing => None,
                },
            }
        },
    }
}

/// Law: a pass over entries none of which name itag `k` leaves `k`'s
/// resolution exactly as it was.
pub proof fn lemma_process_untouched(entries: Seq<RawEntry>, m: Map<int, Seq<u8>>, k: int)
    requires
        forall|q: int| 0 <= q < entries.len() ==> !entry_touches(#[trigger] entries[q], k),
        spec_process(entries, m) is Ok,
    ensures
        spec_process(entries, m) matches Ok(m2) ==> m2.contains_key(k) == m.contains_key(k) && (
        m.contains_key(k) ==> m2[k] == m[k]),
    decreases entries.len(),
{
    if entries.len() == 0 {
    } else {
        let e = entries[0];
        match spec_step(m, e) {
            Ok(m1) => {
                assert(m1.contains_key(k) == m.contains_key(k) && (m.contains_key(k) ==> m1[k]
                    == m[k]));
                assert forall|q: int| 0 <= q < entries.skip(1).len() implies !entry_touches(
                    #[trigger] entries.skip(1)[q],
                    k,
                ) by {
                    assert(entries.skip(1)[q] == entries[q + 1]);
                }
                lemma_process_untouched(entries.skip(1), m1, k);
            },
            Err(_) => {},
        }
    }
}

/// The entry records something for itag `k`.
pub open spec fn entry_resolves_key(e: RawEntry, k: int) -> bool {
    match entry_resolution(e) {
        Some(r) => r.0 as int == k,
        None => false,
    }
}

/// Law: a pass adds exactly the keys its entries resolve. After a pass that
/// did not fail, the mapping holds `k` exactly when it held `k` before or
/// some entry of the pass records a resolution for `k`.
pub proof fn lemma_process_membership(entries: Seq<RawEntry>, m: Map<int, Seq<u8>>, k: int)
    requires
        spec_process(entries, m) is Ok,
    ensures
        spec_process(entries, m) matches Ok(m2) ==> (m2.contains_key(k) <==> (m.contains_key(k)
            || exists|p: int| 0 <= p < entries.len() && entry_resolves_key(#[trigger] entries[p], k))),
    decreases entries.len(),
{
    if entries.len() == 0 {
    } else {
        let e = entries[0];
        match spec_step(m, e) {
            Ok(m1) => {
                assert(m1.contains_key(k) <==> (m.contains_key(k) || entry_resolves_key(e, k)));
                lemma_process_membership(entries.skip(1), m1, k);
                let m2 = spec_process(entries.skip(1), m1)->Ok_0;
                if m2.contains_key(k) && !m.contains_key(k) {
                    if entry_resolves_key(e, k) {
                        assert(0 <= 0 < entries.len() && entry_resolves_key(entries[0], k));
                    } else {
                        if exists|p: int|
                            0 <= p < entries.skip(1).len() && entry_resolves_key(
                                #[trigger] entries.skip(1)[p],
                                k,
                            ) {
                            let p = choose|p: int|
                                0 <= p < entries.skip(1).len() && entry_resolves_key(
                                    #[trigger] entries.skip(1)[p],
                                    k,
                                );
                            assert(entries.skip(1)[p] == entries[p + 1]);
                        }
                    }
                }
                if exists|p: int|
                    0 <= p < entries.len() && entry_resolves_key(#[trigger] entries[p], k) {
                    let p = choose|p: int|
                        0 <= p < entries.len() && entry_resolves_key(#[trigger] entries[p], k);
                    if p > 0 {
                        assert(entries.skip(1)[p - 1] == entries[p]);
                    }
                }
            },
            Err(_) => {},
        }
    }
}

/// Law: the last resolution wins. If entry `p` of a pass records `(t, u)`
/// and no later entry of that pass names `t`, then after the pass the
/// mapping sends `t` to `u`, whatever any earlier entry — or an earlier
/// pass — recorded for it.
pub proof fn lemma_last_resolution_wins(
    entries: Seq<RawEntry>,
    m: Map<int, Seq<u8>>,
    p: int,
    t: i32,
    u: Seq<u8>,
)
    requires
        0 <= p < entries.len(),
        entry_resolution(entries[p]) == Some((t, u)),
        forall|q: int| p < q < entries.len() ==> !entry_touches(#[trigger] entries[q], t as int),
        spec_process(entries, m) is Ok,
    ensures
        spec_process(entries, m) matches Ok(m2) ==> m2.contains_key(t as int) && m2[t as int]
            == u,
    decreases entries.len(),
{
    let e = entries[0];
    match spec_step(m, e) {
        Ok(m1) => {
            if p == 0 {
                assert(m1.contains_key(t as int) && m1[t as int] == u);
                assert forall|q: int| 0 <= q < entries.skip(1).len() implies !entry_touches(
                    #[trigger] entries.skip(1)[q],
                    t as int,
                ) by {
                    assert(entries.skip(1)[q] == entries[q + 1]);
                }
                lemma_process_untouched(entries.skip(1), m1, t as int);
            } else {
                assert(entries.skip(1)[p - 1] == entries[p]);
                assert forall|q: int| p - 1 < q < entries.skip(1).len() implies !entry_touches(
                    #[trigger] entries.skip(1)[q],
                    t as int,
                ) by {
                    assert(entries.skip(1)[q] == entries[q + 1]);
                }
                lemma_last_resolution_wins(entries.skip(1), m1, p - 1, t, u);
            }
        },
        Err(_) => {},
    }
}

/// Resolve the two format lists of a payload: the progressive list first,
/// the adaptive list second, so an adaptive resolution of an itag
/// overwrites a progressive one.
pub fn resolve_streams(progressive: &Vec<RawEntry>, adaptive: &Vec<RawEntry>) -> (r: Result<
    ExtractionResult,
    ExtractionError,
>)
    ensures
        match r {
            Ok(res) => res.wf() && (spec_process(progressive@, Map::empty()) matches Ok(m1)
                && spec_process(adaptive@, m1) == Ok::<_, ExtractionError>(res@)),
            Err(er) => er == ExtractionError::MalformedPayload && {
                ||| spec_process(progressive@, Map::empty()) == Err::<Map<int, Seq<u8>>, _>(er)
                ||| (spec_process(progressive@, Map::empty()) matches Ok(m1) && spec_process(
                    adaptive@,
                    m1,
                ) == Err::<Map<int, Seq<u8>>, _>(er))
            },
        },
{
    let mut result = ExtractionResult::new();
    match process_list(progressive, &mut result) {
        Ok(_) => {},
        Err(er) => {
            return Err(er);
        },
    }
    match process_list(adaptive, &mut result) {
        Ok(_) => {},
        Err(er) => {
            return Err(er);
        },
    }
    Ok(result)
}

/// The page holds an embedded payload.
pub open spec fn page_has_payload(page: Seq<u8>) -> bool {
    exists|i: int, b: int, k: int| capture_shape(page, i, b, k)
}

/// The text of the embedded payload of a page that holds one.
pub open spec fn page_payload(page: Seq<u8>) -> Seq<u8> {
    let (i, b, k) = choose|i: int, b: int, k: int| capture_shape(page, i, b, k);
    page.subrange(b, k + 1)
}

/// What `extract` promises of its result for a given page: the outcome of
/// folding the two format lists that the page's own payload denotes.
pub open spec fn extract_returns(r: Result<ExtractionResult, ExtractionError>, page: Seq<u8>) -> bool {
    match r {
        Ok(res) => {
            &&& page_has_payload(page)
            &&& json_parses(page_payload(page))
            &&& res.wf()
            &&& spec_process(payload_formats(page_payload(page)), Map::empty()) matches Ok(m1)
                && spec_process(payload_adaptive(page_payload(page)), m1) == Ok::<
                _,
                ExtractionError,
            >(res@)
        },
        Err(ExtractionError::NoEmbeddedPayload) => !page_has_payload(page),
        Err(ExtractionError::MalformedPayload) => page_has_payload(page) && {
            ||| !json_parses(page_payload(page))
            ||| spec_process(payload_formats(page_payload(page)), Map::empty()) == Err::<
                Map<int, Seq<u8>>,
                _,
            >(ExtractionError::MalformedPayload)
            ||| (spec_process(payload_formats(page_payload(page)), Map::empty()) matches Ok(m1)
                && spec_process(payload_adaptive(page_payload(page)), m1) == Err::<
                Map<int, Seq<u8>>,
                _,
            >(ExtractionError::MalformedPayload))
        },
    }
}

/// Law: a page that holds the marker and a captured object which is not
/// valid structured data yields `MalformedPayload` — never a silent empty
/// result, and never success.
pub proof fn lemma_malformed_never_silent(
    r: Result<ExtractionResult, ExtractionError>,
    page: Seq<u8>,
)
    requires
        extract_returns(r, page),
        page_has_payload(page),
        !json_parses(page_payload(page)),
    ensures
        r == Err::<ExtractionResult, ExtractionError>(ExtractionError::MalformedPayload),
{
}

/// Law: a page without the marker (or without a captured object after it)
/// yields `NoEmbeddedPayload`, and that error never arises otherwise.
pub proof fn lemma_no_payload_error_exact(
    r: Result<ExtractionResult, ExtractionError>,
    page: Seq<u8>,
)
    requires
        extract_returns(r, page),
    ensures
        r == Err::<ExtractionResult, ExtractionError>(ExtractionError::NoEmbeddedPayload)
            ==> !page_has_payload(page),
        !page_has_payload(page) ==> r == Err::<ExtractionResult, ExtractionError>(
            ExtractionError::NoEmbeddedPayload,
        ),
{
}

/// Turn raw page text into the mapping from itag to resolved stream.
///
/// The run fails with `NoEmbeddedPayload` exactly when the page yields no
/// payload capture, and with `MalformedPayload` when the captured text does
/// not parse, or when some entry of the two lists the parsed payload holds
/// carries a field of the wrong shape. On success the result is exactly the
/// fold of the two lists the payload denotes, the progressive one first.
pub fn extract(page: &[u8]) -> (r: Result<ExtractionResult, ExtractionError>)
    ensures
        extract_returns(r, page@),
{
    let cap = match capture_payload(page) {
        Some(c) => c,
        None => {
            return Err(ExtractionError::NoEmbeddedPayload);
        },
    };
    proof {
        let (i, b, k) = choose|i: int, b: int, k: int|
            capture_shape(page@, i, b, k) && cap@ == page@.subrange(b, k + 1);
        let (i2, b2, k2) = choose|i2: int, b2: int, k2: int| capture_shape(page@, i2, b2, k2);
        lemma_capture_shape_unique(page@, i, b, k, i2, b2, k2);
        assert(cap@ == page_payload(page@));
    }
    let (progressive, adaptive) = match parse_payload_lists(cap.as_slice()) {
        Some(lists) => lists,
        None => {
            return Err(ExtractionError::MalformedPayload);
        },
    };
    proof {
        assert(progressive@ == payload_formats(page_payload(page@)));
        assert(adaptive@ == payload_adaptive(page_payload(page@)));
    }
    match resolve_streams(&progressive, &adaptive) {
        Ok(res) => Ok(res),
        Err(er) => Err(er),
    }
}

} // verus!

