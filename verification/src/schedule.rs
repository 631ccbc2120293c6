//! The order of a report: tracks sorted by when they start, with tracks that
//! start at the same instant left in the order in which they came.

use vstd::prelude::*;
use crate::error::RunError;
use crate::instant::Instant;
use crate::order::{chronological, dated_at, sort_dated, Dated};
use crate::track::Track;
use crate::vecs::reversed;

verus! {

/// Every track of `s` has a start.
pub open spec fn all_start(s: Seq<Track>) -> bool {
    forall|i: int| 0 <= i < s.len() ==> (#[trigger] s[i]).start() is Ok
}

/// The track at `i` is the first of `s` that has no start.
pub open spec fn first_without_start(s: Seq<Track>, i: int) -> bool {
    &&& 0 <= i < s.len()
    &&& s[i].start() is Err
    &&& forall|j: int| 0 <= j < i ==> (#[trigger] s[j]).start() is Ok
}

/// Every track of `s` has a start, and none starts before a track that
/// stands in front of it.
pub open spec fn in_start_order(s: Seq<Track>) -> bool {
    &&& all_start(s)
    &&& forall|i: int, j: int|
        0 <= i < j < s.len() ==> (#[trigger] s[i]).start()->Ok_0.at_most(
            (#[trigger] s[j]).start()->Ok_0,
        )
}

/// The tracks of `s` that start at `at`, in the order in which they stand in `s`.
pub open spec fn started_at(s: Seq<Track>, at: Instant) -> Seq<Track> {
    s.filter(|t: Track| t.start() == Ok::<Instant, RunError>(at))
}

/// The tracks of the entries of `s`, in the same order.
pub open spec fn tracks_in(s: Seq<Dated>) -> Seq<Track> {
    s.map_values(|d: Dated| d.track)
}

/// Every entry of `s` is dated with the start of its track.
pub open spec fn dated_by_start(s: Seq<Dated>) -> bool {
    forall|i: int|
        0 <= i < s.len() ==> (#[trigger] s[i]).track.start() == Ok::<Instant, RunError>(s[i].at)
}

/// Among entries dated by their tracks' starts, the entries of one date hold
/// the tracks that start on it.
proof fn lemma_tracks_of_date(s: Seq<Dated>, at: Instant)
    requires
        dated_by_start(s),
    ensures
        tracks_in(dated_at(s, at)) == started_at(tracks_in(s), at),
    decreases s.len(),
{
    reveal(Seq::filter);
    if s.len() == 0 {
        assert(tracks_in(dated_at(s, at)) =~= started_at(tracks_in(s), at));
    } else {
        let front = s.drop_last();
        assert forall|i: int| 0 <= i < front.len() implies (#[trigger] front[i]).track.start()
            == Ok::<Instant, RunError>(front[i].at) by {
            assert(front[i] == s[i]);
        }
        lemma_tracks_of_date(front, at);
        assert(tracks_in(s).drop_last() =~= tracks_in(front));
        assert(tracks_in(s).last() == s.last().track);
        assert(s.last().track.start() == Ok::<Instant, RunError>(s.last().at));
        if s.last().at == at {
            assert(tracks_in(front.filter(|d: Dated| d.at == at).push(s.last())) =~= tracks_in(
                front.filter(|d: Dated| d.at == at),
            ).push(s.last().track));
        }
        assert(tracks_in(dated_at(s, at)) =~= started_at(tracks_in(s), at));
    }
}

/// A sequence that holds, date by date, the entries of another holds only
/// entries of that other.
proof fn lemma_same_dates_same_entries(a: Seq<Dated>, b: Seq<Dated>, i: int)
    requires
        forall|at: Instant| #[trigger] dated_at(a, at) == dated_at(b, at),
        0 <= i < a.len(),
    ensures
        b.contains(a[i]),
{
    let at = a[i].at;
    let same = |d: Dated| d.at == at;
    assert(same(a[i]));
    a.lemma_filter_contains(same, i);
    assert(dated_at(a, at) == dated_at(b, at));
    b.lemma_filter_contains_rev(same, a[i]);
}

/// Computes when each track starts, and stops at the first that has no start.
pub fn start_instants(tracks: &Vec<Track>) -> (r: Result<Vec<Instant>, RunError>)
    ensures
        r is Ok <==> all_start(tracks@),
        match r {
            Ok(dates) => {
                &&& dates@.len() == tracks@.len()
                &&& forall|i: int|
                    #![trigger tracks@[i]]
                    #![trigger dates@[i]]
                    0 <= i < tracks@.len() ==> tracks@[i].start() == Ok::<Instant, RunError>(
                        dates@[i],
                    )
            },
            Err(e) => exists|i: int|
                first_without_start(tracks@, i) && tracks@[i].start() == Err::<Instant, RunError>(e),
        },
{
    let mut dates: Vec<Instant> = Vec::new();
    let mut i: usize = 0;
    while i < tracks.len()
        invariant
            i <= tracks@.len(),
            dates@.len() == i,
            forall|j: int|
                0 <= j < i ==> (#[trigger] tracks@[j]).start() == Ok::<Instant, RunError>(
                    dates@[j],
                ),
        decreases tracks@.len() - i,
    {
        match tracks[i].start_instant() {
            Ok(at) => {
                dates.push(at);
            },
            Err(e) => {
                assert(first_without_start(tracks@, i as int));
                return Err(e);
            },
        }
        i += 1;
    }
    Ok(dates)
}

/// Dates each track with the instant that stands at its place in `dates`.
pub fn date_tracks(tracks: Vec<Track>, dates: Vec<Instant>) -> (out: Vec<Dated>)
    requires
        tracks@.len() == dates@.len(),
    ensures
        out@.len() == tracks@.len(),
        forall|i: int|
            0 <= i < out@.len() ==> (#[trigger] out@[i]) == (Dated {
                at: dates@[i],
                track: tracks@[i],
            }),
{
    let ghost all = tracks@;
    let ghost n = all.len() as int;
    let mut rest = tracks;
    let mut backwards: Vec<Dated> = Vec::new();
    while rest.len() > 0
        invariant
            rest@ == all.subrange(0, rest@.len() as int),
            rest@.len() <= n,
            n == all.len() == dates@.len(),
            backwards@.len() + rest@.len() == n,
            forall|i: int|
                0 <= i < backwards@.len() ==> (#[trigger] backwards@[i]) == (Dated {
                    at: dates@[n - 1 - i],
                    track: all[n - 1 - i],
                }),
        decreases rest@.len(),
    {
        let track = rest.pop().unwrap();
        let at = dates[rest.len()];
        backwards.push(Dated { at, track });
    }
    reversed(backwards)
}

/// Takes the tracks out of their entries, in the same order.
pub fn tracks_of(entries: Vec<Dated>) -> (out: Vec<Track>)
    ensures
        out@ == tracks_in(entries@),
{
    let ghost all = entries@;
    let ghost n = all.len() as int;
    let mut rest = entries;
    let mut backwards: Vec<Track> = Vec::new();
    while rest.len() > 0
        invariant
            rest@ == all.subrange(0, rest@.len() as int),
            rest@.len() <= n,
            n == all.len(),
            backwards@.len() + rest@.len() == n,
            forall|i: int|
                0 <= i < backwards@.len() ==> (#[trigger] backwards@[i]) == all[n - 1 - i].track,
        decreases rest@.len(),
    {
        let entry = rest.pop().unwrap();
        backwards.push(entry.track);
    }
    let out = reversed(backwards);
    assert(out@ =~= tracks_in(all));
    out
}

/// Puts tracks in the order of a report: by the instant of the first point,
/// earliest first, with tracks that start at the same instant left in the
/// order in which they came.
///
/// Nothing is ordered unless every track has a start: the first track without
/// one decides the error, `RunError::EmptyTrack` where it has no points and
/// `RunError::TimestampFormat` where its first timestamp cannot be read.
pub fn order_tracks(tracks: Vec<Track>) -> (r: Result<Vec<Track>, RunError>)
    ensures
        r is Ok <==> all_start(tracks@),
        match r {
            Ok(out) => {
                &&& out@.len() == tracks@.len()
                &&& in_start_order(out@)
                &&& forall|at: Instant| #[trigger] started_at(out@, at) == started_at(tracks@, at)
            },
            Err(e) => exists|i: int|
                first_without_start(tracks@, i) && tracks@[i].start() == Err::<Instant, RunError>(e),
        },
{
    let dates = match start_instants(&tracks) {
        Ok(dates) => dates,
        Err(e) => {
            return Err(e);
        },
    };
    let entries = date_tracks(tracks, dates);
    let ghost came = entries@;
    let sorted = sort_dated(entries);
    let ghost went = sorted@;
    let out = tracks_of(sorted);
    proof {
        assert(tracks_in(came) =~= tracks@);
        assert(dated_by_start(came));
        assert forall|i: int| 0 <= i < went.len() implies (#[trigger] went[i]).track.start()
            == Ok::<Instant, RunError>(went[i].at) by {
            lemma_same_dates_same_entries(went, came, i);
        }
        assert forall|at: Instant| #[trigger]
            started_at(out@, at) == started_at(tracks@, at) by {
            lemma_tracks_of_date(went, at);
            lemma_tracks_of_date(came, at);
            assert(dated_at(went, at) == dated_at(came, at));
        }
        assert forall|i: int, j: int| 0 <= i < j < out@.len() implies (#[trigger] out@[i]).start()->Ok_0.at_most(
            (#[trigger] out@[j]).start()->Ok_0,
        ) by {
            assert(went[i].at.at_most(went[j].at));
        }
    }
    Ok(out)
}

/// Two items that pass a filter come out of it in the order in which they went in.
proof fn lemma_filter_keeps_order<A>(s: Seq<A>, pred: spec_fn(A) -> bool, a: int, b: int)
    requires
        0 <= a < b < s.len(),
        pred(s[a]),
        pred(s[b]),
    ensures
        exists|x: int, y: int|
            0 <= x < y < s.filter(pred).len() && #[trigger] s.filter(pred)[x] == s[a]
                && #[trigger] s.filter(pred)[y] == s[b],
    decreases s.len(),
{
    reveal(Seq::filter);
    let front = s.drop_last();
    let kept = front.filter(pred);
    if b == s.len() - 1 {
        assert(front[a] == s[a]);
        front.lemma_filter_contains(pred, a);
        let x = choose|x: int| 0 <= x < kept.len() && kept[x] == s[a];
        let y = kept.len() as int;
        assert(s.filter(pred) == kept.push(s[b]));
        assert(s.filter(pred)[x] == s[a] && s.filter(pred)[y] == s[b]);
    } else {
        assert(front[a] == s[a] && front[b] == s[b]);
        lemma_filter_keeps_order(front, pred, a, b);
        let (x, y) = choose|x: int, y: int|
            0 <= x < y < kept.len() && #[trigger] kept[x] == s[a] && #[trigger] kept[y] == s[b];
        assert(s.filter(pred)[x] == s[a] && s.filter(pred)[y] == s[b]);
    }
}

/// Two items that came out of a filter went in, in the same order.
proof fn lemma_filter_came_in_order<A>(s: Seq<A>, pred: spec_fn(A) -> bool, x: int, y: int)
    requires
        0 <= x < y < s.filter(pred).len(),
    ensures
        exists|a: int, b: int|
            0 <= a < b < s.len() && #[trigger] s[a] == s.filter(pred)[x] && #[trigger] s[b]
                == s.filter(pred)[y],
    decreases s.len(),
{
    reveal(Seq::filter);
    if s.len() > 0 {
        let front = s.drop_last();
        let kept = front.filter(pred);
        let all = s.filter(pred);
        if pred(s.last()) && y == kept.len() {
            assert(kept.contains(kept[x]));
            front.lemma_filter_contains_rev(pred, kept[x]);
            let a = choose|a: int| 0 <= a < front.len() && front[a] == kept[x];
            let b = s.len() - 1;
            assert(s[a] == all[x] && s[b] == all[y]);
        } else {
            lemma_filter_came_in_order(front, pred, x, y);
            let (a, b) = choose|a: int, b: int|
                0 <= a < b < front.len() && #[trigger] front[a] == kept[x] && #[trigger] front[b]
                    == kept[y];
            assert(s[a] == all[x] && s[b] == all[y]);
        }
    }
}

/// In a sequence in start order a track that starts before another stands in
/// front of it.
pub proof fn lemma_earlier_start_stands_first(s: Seq<Track>, i: int, j: int)
    requires
        in_start_order(s),
        0 <= i < s.len(),
        0 <= j < s.len(),
        s[i].start()->Ok_0.precedes(s[j].start()->Ok_0),
    ensures
        i < j,
{
    if j < i {
        assert(s[j].start()->Ok_0.at_most(s[i].start()->Ok_0));
    }
}

/// Ordering is stable: where `after` holds, instant by instant, the tracks of
/// `before` that start on it, two tracks of `before` with the same start are
/// found in `after` in the same order.
pub proof fn lemma_same_start_keeps_order(before: Seq<Track>, after: Seq<Track>, a: int, b: int)
    requires
        forall|at: Instant| #[trigger] started_at(after, at) == started_at(before, at),
        0 <= a < b < before.len(),
        before[a].start() is Ok,
        before[a].start() == before[b].start(),
    ensures
        exists|x: int, y: int|
            0 <= x < y < after.len() && #[trigger] after[x] == before[a] && #[trigger] after[y]
                == before[b],
{
    let at = before[a].start()->Ok_0;
    let on = |t: Track| t.start() == Ok::<Instant, RunError>(at);
    lemma_filter_keeps_order(before, on, a, b);
    let (p, q) = choose|p: int, q: int|
        0 <= p < q < before.filter(on).len() && #[trigger] before.filter(on)[p] == before[a]
            && #[trigger] before.filter(on)[q] == before[b];
    assert(started_at(after, at) == started_at(before, at));
    lemma_filter_came_in_order(after, on, p, q);
}

/// What stands in front of the last track of a sequence in start order is in
/// start order too.
proof fn lemma_front_in_start_order(s: Seq<Track>)
    requires
        in_start_order(s),
        s.len() > 0,
    ensures
        in_start_order(s.drop_last()),
{
    let front = s.drop_last();
    assert forall|i: int| 0 <= i < front.len() implies (#[trigger] front[i]).start() is Ok by {
        assert(front[i] == s[i]);
    }
    assert forall|i: int, j: int| 0 <= i < j < front.len() implies (#[trigger] front[i]).start()->Ok_0.at_most(
        (#[trigger] front[j]).start()->Ok_0,
    ) by {
        assert(front[i] == s[i] && front[j] == s[j]);
    }
}

/// Where two sequences in start order hold, instant by instant, the same
/// tracks, the last track of the one starts no later than the last of the other.
proof fn lemma_last_starts_last(s: Seq<Track>, other: Seq<Track>)
    requires
        in_start_order(s),
        in_start_order(other),
        s.len() > 0,
        other.len() > 0,
        forall|at: Instant| #[trigger] started_at(s, at) == started_at(other, at),
    ensures
        s.last().start()->Ok_0.at_most(other.last().start()->Ok_0),
{
    let at = s.last().start()->Ok_0;
    let on = |t: Track| t.start() == Ok::<Instant, RunError>(at);
    assert(s[s.len() - 1].start() is Ok);
    s.lemma_filter_contains(on, s.len() - 1);
    assert(started_at(s, at) == started_at(other, at));
    other.lemma_filter_contains_rev(on, s.last());
    let j = choose|j: int| 0 <= j < other.len() && other[j] == s.last();
    if j < other.len() - 1 {
        assert(other[j].start()->Ok_0.at_most(other[other.len() - 1].start()->Ok_0));
    }
}

/// The order of a report is fixed by what goes into it: two sequences in
/// start order that hold, instant by instant, the same tracks in the same
/// order are one and the same sequence.
pub proof fn lemma_start_order_is_unique(a: Seq<Track>, b: Seq<Track>)
    requires
        in_start_order(a),
        in_start_order(b),
        forall|at: Instant| #[trigger] started_at(a, at) == started_at(b, at),
    ensures
        a == b,
    decreases a.len(),
{
    reveal(Seq::filter);
    if a.len() == 0 || b.len() == 0 {
        if a.len() > 0 {
            let at = a[0].start()->Ok_0;
            a.lemma_filter_contains(|t: Track| t.start() == Ok::<Instant, RunError>(at), 0);
            assert(started_at(a, at) == started_at(b, at));
        }
        if b.len() > 0 {
            let at = b[0].start()->Ok_0;
            b.lemma_filter_contains(|t: Track| t.start() == Ok::<Instant, RunError>(at), 0);
            assert(started_at(a, at) == started_at(b, at));
        }
        assert(a =~= b);
    } else {
        lemma_last_starts_last(a, b);
        lemma_last_starts_last(b, a);
        assert(a[a.len() - 1].start() is Ok);
        assert(b[b.len() - 1].start() is Ok);
        let last = a.last().start()->Ok_0;
        assert(b.last().start()->Ok_0 == last);
        let fa = a.drop_last();
        let fb = b.drop_last();
        assert(started_at(a, last) == started_at(b, last));
        assert(started_at(a, last) == started_at(fa, last).push(a.last()));
        assert(started_at(b, last) == started_at(fb, last).push(b.last()));
        assert(started_at(a, last).last() == a.last());
        assert(a.last() == b.last());
        assert forall|at: Instant| #[trigger] started_at(fa, at) == started_at(fb, at) by {
            assert(started_at(a, at) == started_at(b, at));
            if at == last {
                assert(started_at(fa, at) =~= started_at(a, at).drop_last());
                assert(started_at(fb, at) =~= started_at(b, at).drop_last());
            }
        }
        lemma_front_in_start_order(a);
        lemma_front_in_start_order(b);
        lemma_start_order_is_unique(fa, fb);
        assert(a =~= fa.push(a.last()));
        assert(b =~= fb.push(b.last()));
    }
}

} // verus!
