//! The availability filter and the selector: keeping the streams whose URL
//! a probe reached, in their original order, then partitioning into video
//! and audio candidates and ranking each group by its quality metric.

use vstd::multiset::Multiset;
use vstd::prelude::*;

use crate::extract::ResolvedStream;

verus! {

/// The subsequence of `s` at the positions whose flag is set, in order.
pub open spec fn spec_filter_flags(s: Seq<ResolvedStream>, f: Seq<bool>) -> Seq<ResolvedStream>
    decreases s.len(),
{
    if s.len() == 0 || f.len() == 0 {
        Seq::empty()
    } else if f[0] {
        seq![s[0]] + spec_filter_flags(s.skip(1), f.skip(1))
    } else {
        spec_filter_flags(s.skip(1), f.skip(1))
    }
}

/// Keep the streams whose probe reported success. `reachable[i]` is the
/// probe outcome for `streams[i]`; a failed or erring probe excludes that
/// entry alone, and the survivors keep their relative order.
pub fn filter_reachable(streams: Vec<ResolvedStream>, reachable: &Vec<bool>) -> (r: Vec<
    ResolvedStream,
>)
    requires
        streams@.len() == reachable@.len(),
    ensures
        r@ == spec_filter_flags(streams@, reachable@),
{
    let ghost s0 = streams@;
    let ghost f0 = reachable@;
    let mut rem = streams;
    let total = rem.len();
    let mut out: Vec<ResolvedStream> = Vec::new();
    let mut i: usize = 0;
    proof {
        assert(s0.skip(0) =~= s0);
        assert(f0.skip(0) =~= f0);
        assert(out@ + spec_filter_flags(s0, f0) =~= spec_filter_flags(s0, f0));
    }
    while rem.len() > 0
        invariant
            s0.len() == f0.len(),
            total == s0.len(),
            0 <= i <= total,
            i + rem@.len() == total,
            rem@ == s0.skip(i as int),
            f0 == reachable@,
            spec_filter_flags(s0, f0) == out@ + spec_filter_flags(s0.skip(i as int), f0.skip(i as int)),
        decreases rem@.len(),
    {
        let ghost pre = out@;
        let ghost srest = s0.skip(i as int);
        let ghost frest = f0.skip(i as int);
        let st = rem.remove(0);
        proof {
            assert(st == srest[0]);
            assert(srest[0] == s0[i as int]);
            assert(frest[0] == f0[i as int]);
            assert(rem@ =~= s0.skip(i as int + 1));
            assert(srest.skip(1) =~= s0.skip(i as int + 1));
            assert(frest.skip(1) =~= f0.skip(i as int + 1));
        }
        if reachable[i] {
            out.push(st);
            proof {
                assert(spec_filter_flags(srest, frest) == seq![srest[0]] + spec_filter_flags(
                    s0.skip(i as int + 1),
                    f0.skip(i as int + 1),
                ));
                assert(out@ =~= pre + seq![srest[0]]);
                assert(out@ + spec_filter_flags(s0.skip(i as int + 1), f0.skip(i as int + 1)) =~= pre
                    + spec_filter_flags(srest, frest));
            }
        } else {
            proof {
                assert(spec_filter_flags(srest, frest) == spec_filter_flags(
                    s0.skip(i as int + 1),
                    f0.skip(i as int + 1),
                ));
            }
        }
        i += 1;
    }
    proof {
        assert(s0.skip(i as int).len() == 0);
        assert(spec_filter_flags(s0.skip(i as int), f0.skip(i as int)) =~= Seq::<
            ResolvedStream,
        >::empty());
        assert(out@ + Seq::<ResolvedStream>::empty() =~= out@);
    }
    out
}

/// The ranking key of a video candidate: its pixel height.
pub open spec fn height_key(st: ResolvedStream) -> int {
    st.profile@.height
}

/// The ranking key of an audio candidate: its bitrate.
pub open spec fn bitrate_key(st: ResolvedStream) -> int {
    st.profile@.audio_bitrate
}

/// Ascending order by pixel height.
pub open spec fn sorted_by_height(s: Seq<ResolvedStream>) -> bool {
    forall|p: int, q: int|
        0 <= p < q < s.len() ==> height_key(#[trigger] s[p]) <= height_key(#[trigger] s[q])
}

/// Ascending order by audio bitrate.
pub open spec fn sorted_by_bitrate(s: Seq<ResolvedStream>) -> bool {
    forall|p: int, q: int|
        0 <= p < q < s.len() ==> bitrate_key(#[trigger] s[p]) <= bitrate_key(#[trigger] s[q])
}

/// The video candidates of an extraction result: streams whose profile has
/// a video track, in list order.
pub open spec fn spec_video_of(s: Seq<(i32, ResolvedStream)>) -> Seq<ResolvedStream>
    decreases s.len(),
{
    if s.len() == 0 {
        Seq::empty()
    } else if s[0].1.profile@.height != -1 {
        seq![s[0].1] + spec_video_of(s.skip(1))
    } else {
        spec_video_of(s.skip(1))
    }
}

/// The audio candidates: streams whose profile carries the no-video
/// sentinel, in list order.
pub open spec fn spec_audio_of(s: Seq<(i32, ResolvedStream)>) -> Seq<ResolvedStream>
    decreases s.len(),
{
    if s.len() == 0 {
        Seq::empty()
    } else if s[0].1.profile@.height == -1 {
        seq![s[0].1] + spec_audio_of(s.skip(1))
    } else {
        spec_audio_of(s.skip(1))
    }
}

/// Partition resolved streams into video candidates (height is not the
/// sentinel -1) and audio candidates (height is -1).
pub fn partition_streams(entries: Vec<(i32, ResolvedStream)>) -> (r: (
    Vec<ResolvedStream>,
    Vec<ResolvedStream>,
))
    ensures
        r.0@ == spec_video_of(entries@),
        r.1@ == spec_audio_of(entries@),
{
    let ghost s0 = entries@;
    let mut rem = entries;
    let total = rem.len();
    let mut video: Vec<ResolvedStream> = Vec::new();
    let mut audio: Vec<ResolvedStream> = Vec::new();
    let mut i: usize = 0;
    proof {
        assert(s0.skip(0) =~= s0);
        assert(video@ + spec_video_of(s0) =~= spec_video_of(s0));
        assert(audio@ + spec_audio_of(s0) =~= spec_audio_of(s0));
    }
    while rem.len() > 0
        invariant
            total == s0.len(),
            0 <= i <= total,
            i + rem@.len() == total,
            rem@ == s0.skip(i as int),
            spec_video_of(s0) == video@ + spec_video_of(s0.skip(i as int)),
            spec_audio_of(s0) == audio@ + spec_audio_of(s0.skip(i as int)),
        decreases rem@.len(),
    {
        let ghost vpre = video@;
        let ghost apre = audio@;
        let ghost srest = s0.skip(i as int);
        let pair = rem.remove(0);
        proof {
            assert(pair == srest[0]);
            assert(rem@ =~= s0.skip(i as int + 1));
            assert(srest.skip(1) =~= s0.skip(i as int + 1));
        }
        let st = pair.1;
        if st.profile.get_height() != -1 {
            video.push(st);
            proof {
                assert(spec_video_of(srest) == seq![srest[0].1] + spec_video_of(
                    s0.skip(i as int + 1),
                ));
                assert(video@ =~= vpre + seq![srest[0].1]);
                assert(video@ + spec_video_of(s0.skip(i as int + 1)) =~= vpre + spec_video_of(
                    srest,
                ));
                assert(spec_audio_of(srest) == spec_audio_of(s0.skip(i as int + 1)));
            }
        } else {
            audio.push(st);
            proof {
                assert(spec_audio_of(srest) == seq![srest[0].1] + spec_audio_of(
                    s0.skip(i as int + 1),
                ));
                assert(audio@ =~= apre + seq![srest[0].1]);
                assert(audio@ + spec_audio_of(s0.skip(i as int + 1)) =~= apre + spec_audio_of(
                    srest,
                ));
                assert(spec_video_of(srest) == spec_video_of(s0.skip(i as int + 1)));
            }
        }
        i += 1;
    }
    proof {
        assert(s0.skip(i as int).len() == 0);
        assert(spec_video_of(s0.skip(i as int)) =~= Seq::<ResolvedStream>::empty());
        assert(spec_audio_of(s0.skip(i as int)) =~= Seq::<ResolvedStream>::empty());
        assert(video@ + Seq::<ResolvedStream>::empty() =~= video@);
        assert(audio@ + Seq::<ResolvedStream>::empty() =~= audio@);
    }
    (video, audio)
}

/// The position of a stream of minimal height.
fn min_height_index(v: &Vec<ResolvedStream>) -> (mi: usize)
    requires
        v@.len() > 0,
    ensures
        mi < v@.len(),
        forall|t: int| 0 <= t < v@.len() ==> height_key(v@[mi as int]) <= height_key(
            #[trigger] v@[t],
        ),
{
    let n = v.len();
    let mut mi: usize = 0;
    let mut i: usize = 1;
    while i < n
        invariant
            n == v@.len(),
            1 <= i <= n,
            mi < i,
            forall|t: int| 0 <= t < i ==> height_key(v@[mi as int]) <= height_key(
                #[trigger] v@[t],
            ),
        decreases n - i,
    {
        if v[i].profile.get_height() < v[mi].profile.get_height() {
            mi = i;
        }
        i += 1;
    }
    mi
}

/// The position of a stream of minimal audio bitrate.
fn min_bitrate_index(v: &Vec<ResolvedStream>) -> (mi: usize)
    requires
        v@.len() > 0,
    ensures
        mi < v@.len(),
        forall|t: int| 0 <= t < v@.len() ==> bitrate_key(v@[mi as int]) <= bitrate_key(
            #[trigger] v@[t],
        ),
{
    let n = v.len();
    let mut mi: usize = 0;
    let mut i: usize = 1;
    while i < n
        invariant
            n == v@.len(),
            1 <= i <= n,
            mi < i,
            forall|t: int| 0 <= t < i ==> bitrate_key(v@[mi as int]) <= bitrate_key(
                #[trigger] v@[t],
            ),
        decreases n - i,
    {
        if v[i].profile.get_audio_bitrate() < v[mi].profile.get_audio_bitrate() {
            mi = i;
        }
        i += 1;
    }
    mi
}

/// Order video candidates ascending by pixel height. The result is a
/// rearrangement of the input: same streams, ascending heights.
pub fn sort_by_height(streams: Vec<ResolvedStream>) -> (r: Vec<ResolvedStream>)
    ensures
        r@.to_multiset() == streams@.to_multiset(),
        r@.len() == streams@.len(),
        sorted_by_height(r@),
{
    broadcast use vstd::seq_lib::group_to_multiset_ensures;
    broadcast use vstd::multiset::group_multiset_axioms;
    broadcast use vstd::multiset::lemma_multiset_empty_len;

    let ghost s0 = streams@;
    let mut rem = streams;
    let mut out: Vec<ResolvedStream> = Vec::new();
    proof {
        assert(out@.to_multiset().len() == 0);
        assert(out@.to_multiset().add(rem@.to_multiset()) =~= s0.to_multiset());
    }
    while rem.len() > 0
        invariant
            out@.to_multiset().add(rem@.to_multiset()) == s0.to_multiset(),
            out@.len() + rem@.len() == s0.len(),
            sorted_by_height(out@),
            forall|p: int, q: int|
                0 <= p < out@.len() && 0 <= q < rem@.len() ==> height_key(#[trigger] out@[p])
                    <= height_key(#[trigger] rem@[q]),
        decreases rem@.len(),
    {
        broadcast use vstd::seq_lib::group_to_multiset_ensures;
        broadcast use vstd::multiset::group_multiset_axioms;

        let ghost out0 = out@;
        let ghost rem0 = rem@;
        let mi = min_height_index(&rem);
        let st = rem.remove(mi);
        out.push(st);
        proof {
            assert(st == rem0[mi as int]);
            assert(rem@ == rem0.remove(mi as int));
            assert(out@ == out0.push(st));
            assert(rem0.contains(st));
            assert(rem0.to_multiset().count(st) > 0);
            assert(out@.to_multiset() =~= out0.to_multiset().insert(st));
            assert(rem@.to_multiset() =~= rem0.to_multiset().remove(st));
            assert(out@.to_multiset().add(rem@.to_multiset()) =~= out0.to_multiset().add(
                rem0.to_multiset(),
            ));
            assert forall|p: int, q: int| 0 <= p < q < out@.len() implies height_key(
                #[trigger] out@[p],
            ) <= height_key(#[trigger] out@[q]) by {
                if q == out@.len() - 1 {
                    assert(out@[p] == out0[p]);
                    assert(out@[q] == st);
                } else {
                    assert(out@[p] == out0[p]);
                    assert(out@[q] == out0[q]);
                }
            }
            assert forall|p: int, q: int|
                0 <= p < out@.len() && 0 <= q < rem@.len() implies height_key(#[trigger] out@[p])
                <= height_key(#[trigger] rem@[q]) by {
                if q < mi as int {
                    assert(rem@[q] == rem0[q]);
                } else {
                    assert(rem@[q] == rem0[q + 1]);
                }
                if p == out@.len() - 1 {
                    assert(out@[p] == st);
                } else {
                    assert(out@[p] == out0[p]);
                }
            }
        }
    }
    proof {
        assert(rem@.to_multiset().len() == 0);
        assert(rem@.to_multiset() =~= Multiset::<ResolvedStream>::empty());
        assert(out@.to_multiset().add(Multiset::<ResolvedStream>::empty()) =~= out@.to_multiset());
        assert(out@.to_multiset().len() == s0.to_multiset().len());
    }
    out
}

/// Order audio candidates ascending by audio bitrate. The result is a
/// rearrangement of the input: same streams, ascending bitrates.
pub fn sort_by_bitrate(streams: Vec<ResolvedStream>) -> (r: Vec<ResolvedStream>)
    ensures
        r@.to_multiset() == streams@.to_multiset(),
        r@.len() == streams@.len(),
        sorted_by_bitrate(r@),
{
    broadcast use vstd::seq_lib::group_to_multiset_ensures;
    broadcast use vstd::multiset::group_multiset_axioms;
    broadcast use vstd::multiset::lemma_multiset_empty_len;

    let ghost s0 = streams@;
    let mut rem = streams;
    let mut out: Vec<ResolvedStream> = Vec::new();
    proof {
        assert(out@.to_multiset().len() == 0);
        assert(out@.to_multiset().add(rem@.to_multiset()) =~= s0.to_multiset());
    }
    while rem.len() > 0
        invariant
            out@.to_multiset().add(rem@.to_multiset()) == s0.to_multiset(),
            out@.len() + rem@.len() == s0.len(),
            sorted_by_bitrate(out@),
            forall|p: int, q: int|
                0 <= p < out@.len() && 0 <= q < rem@.len() ==> bitrate_key(#[trigger] out@[p])
                    <= bitrate_key(#[trigger] rem@[q]),
        decreases rem@.len(),
    {
        broadcast use vstd::seq_lib::group_to_multiset_ensures;
        broadcast use vstd::multiset::group_multiset_axioms;

        let ghost out0 = out@;
        let ghost rem0 = rem@;
        let mi = min_bitrate_index(&rem);
        let st = rem.remove(mi);
        out.push(st);
        proof {
            assert(st == rem0[mi as int]);
            assert(rem@ == rem0.remove(mi as int));
            assert(out@ == out0.push(st));
            assert(rem0.contains(st));
            assert(rem0.to_multiset().count(st) > 0);
            assert(out@.to_multiset() =~= out0.to_multiset().insert(st));
            assert(rem@.to_multiset() =~= rem0.to_multiset().remove(st));
            assert(out@.to_multiset().add(rem@.to_multiset()) =~= out0.to_multiset().add(
                rem0.to_multiset(),
            ));
            assert forall|p: int, q: int| 0 <= p < q < out@.len() implies bitrate_key(
                #[trigger] out@[p],
            ) <= bitrate_key(#[trigger] out@[q]) by {
                if q == out@.len() - 1 {
                    assert(out@[p] == out0[p]);
                    assert(out@[q] == st);
                } else {
                    assert(out@[p] == out0[p]);
                    assert(out@[q] == out0[q]);
                }
            }
            assert forall|p: int, q: int|
                0 <= p < out@.len() && 0 <= q < rem@.len() implies bitrate_key(#[trigger] out@[p])
                <= bitrate_key(#[trigger] rem@[q]) by {
                if q < mi as int {
                    assert(rem@[q] == rem0[q]);
                } else {
                    assert(rem@[q] == rem0[q + 1]);
                }
                if p == out@.len() - 1 {
                    assert(out@[p] == st);
                } else {
                    assert(out@[p] == out0[p]);
                }
            }
        }
    }
    proof {
        assert(rem@.to_multiset().len() == 0);
        assert(rem@.to_multiset() =~= Multiset::<ResolvedStream>::empty());
        assert(out@.to_multiset().add(Multiset::<ResolvedStream>::empty()) =~= out@.to_multiset());
        assert(out@.to_multiset().len() == s0.to_multiset().len());
    }
    out
}

} // verus!
