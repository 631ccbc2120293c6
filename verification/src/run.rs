//! A whole run: from what each input gave to the tracks of the report.

use vstd::prelude::*;
use crate::batch::{all_given, first_failure, gather};
use crate::error::RunError;
use crate::instant::Instant;
use crate::schedule::{all_start, first_without_start, in_start_order, order_tracks, started_at};
use crate::track::Track;

verus! {

/// The tracks that the inputs of `s` gave, in the order of the inputs. It is
/// meant for inputs that all gave one.
pub open spec fn given_tracks(s: Seq<Result<Track, RunError>>) -> Seq<Track> {
    s.map_values(|outcome: Result<Track, RunError>| outcome->Ok_0)
}

/// Turns what each input gave into the tracks of the report, in its order.
///
/// There is a report only where every input gave a track and every track has
/// a start. A failed input comes before a track without a start: the run
/// fails as the first failed input did and, where none failed, with the error
/// of the first track that has no start.
pub fn ordered_tracks(outcomes: Vec<Result<Track, RunError>>) -> (r: Result<Vec<Track>, RunError>)
    ensures
        r is Ok <==> all_given(outcomes@) && all_start(given_tracks(outcomes@)),
        match r {
            Ok(out) => {
                &&& out@.len() == outcomes@.len()
                &&& in_start_order(out@)
                &&& forall|at: Instant| #[trigger]
                    started_at(out@, at) == started_at(given_tracks(outcomes@), at)
            },
            Err(e) => if all_given(outcomes@) {
                exists|i: int|
                    first_without_start(given_tracks(outcomes@), i) && given_tracks(
                        outcomes@,
                    )[i].start() == Err::<Instant, RunError>(e)
            } else {
                exists|i: int|
                    first_failure(outcomes@, i) && outcomes@[i] == Err::<Track, RunError>(e)
            },
        },
{
    let tracks = match gather(outcomes) {
        Ok(tracks) => tracks,
        Err(e) => {
            return Err(e);
        },
    };
    assert(tracks@ =~= given_tracks(outcomes@));
    order_tracks(tracks)
}

} // verus!
