//! Matching audio files to video files. The scores (duration first, name
//! similarity second) rank the candidate pairs; this module decides which
//! pairs are made from that ranking.

use std::collections::HashSet;
use vstd::prelude::*;

verus! {

/// Does audio `a` occur among the first `n` candidates?
pub open spec fn audio_seen(c: Seq<(usize, usize)>, a: usize, n: int) -> bool {
    exists|j: int| 0 <= j < n && #[trigger] c[j].1 == a
}

/// The candidates kept by a greedy assignment: each candidate whose audio
/// has not appeared earlier in the ranking, in ranking order.
pub open spec fn first_per_audio(c: Seq<(usize, usize)>) -> Seq<(usize, usize)>
    decreases c.len(),
{
    if c.len() == 0 {
        Seq::empty()
    } else if audio_seen(c, c.last().1, c.len() - 1) {
        first_per_audio(c.drop_last())
    } else {
        first_per_audio(c.drop_last()).push(c.last())
    }
}

/// Greedy assignment over candidates ranked best first: a video may take
/// several audios (1 video -> N audio), but each audio is used once — by its
/// best-ranked candidate.
pub fn assign_greedy(ranked: &Vec<(usize, usize)>) -> (r: Vec<(usize, usize)>)
    ensures
        r@ == first_per_audio(ranked@),
{
    broadcast use vstd::std_specs::hash::group_hash_axioms;

    let mut assigned: HashSet<usize> = HashSet::new();
    let mut out: Vec<(usize, usize)> = Vec::new();
    let mut i: usize = 0;
    while i < ranked.len()
        invariant
            i <= ranked.len(),
            out@ == first_per_audio(ranked@.take(i as int)),
            forall|a: usize| #[trigger] assigned@.contains(a) <==> audio_seen(ranked@, a, i as int),
        decreases ranked.len() - i,
    {
        let a = ranked[i].1;
        let seen = assigned.contains(&a);
        let ghost t = ranked@.take(i + 1);
        assert(t.drop_last() =~= ranked@.take(i as int));
        assert(audio_seen(t, a, i as int) == audio_seen(ranked@, a, i as int)) by {
            if audio_seen(t, a, i as int) {
                let j = choose|j: int| 0 <= j < i && #[trigger] t[j].1 == a;
                assert(ranked@[j].1 == a);
            }
            if audio_seen(ranked@, a, i as int) {
                let j = choose|j: int| 0 <= j < i && #[trigger] ranked@[j].1 == a;
                assert(t[j].1 == a);
            }
        }
        if !seen {
            out.push(ranked[i]);
            assigned.insert(a);
        }
        assert forall|b: usize| #[trigger] assigned@.contains(b) <==> audio_seen(
            ranked@,
            b,
            i + 1,
        ) by {
            if audio_seen(ranked@, b, i + 1) && !audio_seen(ranked@, b, i as int) {
                let j = choose|j: int| 0 <= j < i + 1 && #[trigger] ranked@[j].1 == b;
                assert(j == i);
            }
            if audio_seen(ranked@, b, i as int) {
                let j = choose|j: int| 0 <= j < i && #[trigger] ranked@[j].1 == b;
                assert(0 <= j < i + 1 && ranked@[j].1 == b);
            }
            if b == a {
                assert(ranked@[i as int].1 == b);
            }
        }
        i += 1;
    }
    assert(ranked@.take(i as int) =~= ranked@);
    out
}

/// The pairs a batch makes, as (video, audio) indices: none without both
/// kinds; one audio laid back onto every video; otherwise the greedy
/// assignment over the ranked candidates.
pub open spec fn match_plan_of(videos: usize, audios: usize, ranked: Seq<(usize, usize)>) -> Seq<
    (usize, usize),
> {
    if videos == 0 || audios == 0 {
        Seq::empty()
    } else if audios == 1 {
        Seq::new(videos as nat, |v: int| (v as usize, 0usize))
    } else {
        first_per_audio(ranked)
    }
}

/// Which pairs to make from `videos` videos and `audios` audios, given the
/// candidate (video, audio) pairs ranked best first. A single mix dropped
/// with several pictures is paired with each of them; otherwise every audio
/// is paired with its best-ranked video — users drop files they intend to
/// combine, so nothing is left unpaired for a low score.
pub fn match_pairs(videos: usize, audios: usize, ranked: &Vec<(usize, usize)>) -> (r: Vec<(usize, usize)>)
    ensures
        r@ == match_plan_of(videos, audios, ranked@),
{
    if videos == 0 || audios == 0 {
        let r: Vec<(usize, usize)> = Vec::new();
        assert(r@ =~= match_plan_of(videos, audios, ranked@));
        return r;
    }
    if audios == 1 {
        let mut r: Vec<(usize, usize)> = Vec::new();
        let mut v: usize = 0;
        while v < videos
            invariant
                v <= videos,
                r@ == Seq::new(v as nat, |k: int| (k as usize, 0usize)),
            decreases videos - v,
        {
            r.push((v, 0));
            assert(r@ =~= Seq::new((v + 1) as nat, |k: int| (k as usize, 0usize)));
            v += 1;
        }
        return r;
    }
    assign_greedy(ranked)
}

// ── Laws ────────────────────────────────────────────────────────────────────

/// Every kept candidate comes from the ranking.
proof fn lemma_kept_from(c: Seq<(usize, usize)>)
    ensures
        forall|k: int|
            0 <= k < first_per_audio(c).len() ==> exists|j: int|
                0 <= j < c.len() && c[j] == #[trigger] first_per_audio(c)[k],
    decreases c.len(),
{
    if c.len() > 0 {
        lemma_kept_from(c.drop_last());
        let r = first_per_audio(c.drop_last());
        assert forall|k: int| 0 <= k < first_per_audio(c).len() implies exists|j: int|
            0 <= j < c.len() && c[j] == #[trigger] first_per_audio(c)[k] by {
            if k < r.len() {
                let j = choose|j: int| 0 <= j < c.drop_last().len() && c.drop_last()[j] == r[k];
                assert(c[j] == first_per_audio(c)[k]);
            } else {
                assert(c[c.len() - 1] == first_per_audio(c)[k]);
            }
        }
    }
}

/// The greedy assignment uses each audio at most once.
pub proof fn lemma_each_audio_once(ranked: Seq<(usize, usize)>)
    ensures
        forall|i: int, j: int|
            0 <= i < j < first_per_audio(ranked).len() ==> #[trigger] first_per_audio(ranked)[i].1
                != #[trigger] first_per_audio(ranked)[j].1,
    decreases ranked.len(),
{
    if ranked.len() > 0 {
        let c = ranked;
        lemma_each_audio_once(c.drop_last());
        lemma_kept_from(c.drop_last());
        let r = first_per_audio(c.drop_last());
        if !audio_seen(c, c.last().1, c.len() - 1) {
            assert forall|i: int, j: int|
                0 <= i < j < first_per_audio(c).len() implies #[trigger] first_per_audio(c)[i].1
                != #[trigger] first_per_audio(c)[j].1 by {
                if j == r.len() {
                    let k = choose|k: int| 0 <= k < c.drop_last().len() && c.drop_last()[k] == r[i];
                    assert(c[k].1 == r[i].1);
                    if r[i].1 == c.last().1 {
                        assert(audio_seen(c, c.last().1, c.len() - 1));
                    }
                } else {
                    assert(first_per_audio(c)[i] == r[i]);
                    assert(first_per_audio(c)[j] == r[j]);
                }
            }
        }
    }
}

/// Every audio that has a candidate is paired: its best-ranked candidate is
/// kept.
pub proof fn lemma_every_audio_paired(ranked: Seq<(usize, usize)>, k: int)
    requires
        0 <= k < ranked.len(),
    ensures
        exists|i: int|
            0 <= i < first_per_audio(ranked).len() && #[trigger] first_per_audio(ranked)[i].1
                == ranked[k].1,
    decreases ranked.len(),
{
    let c = ranked;
    let a = c[k].1;
    let r = first_per_audio(c.drop_last());
    if k < c.len() - 1 {
        lemma_every_audio_paired(c.drop_last(), k);
        let i = choose|i: int| 0 <= i < r.len() && #[trigger] r[i].1 == c.drop_last()[k].1;
        assert(first_per_audio(c)[i] == r[i]);
    } else {
        if audio_seen(c, a, c.len() - 1) {
            let j = choose|j: int| 0 <= j < c.len() - 1 && #[trigger] c[j].1 == a;
            lemma_every_audio_paired(c.drop_last(), j);
            let i = choose|i: int| 0 <= i < r.len() && #[trigger] r[i].1 == c.drop_last()[j].1;
            assert(first_per_audio(c)[i] == r[i]);
        } else {
            assert(first_per_audio(c)[r.len() as int] == c.last());
        }
    }
}

} // verus!
