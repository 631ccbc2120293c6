//! The policy of a run over many inputs: one input that fails, fails the run.

use vstd::prelude::*;
use crate::error::RunError;
use crate::track::Track;
use crate::vecs::reversed;

verus! {

/// Every input of `s` gave a track.
pub open spec fn all_given(s: Seq<Result<Track, RunError>>) -> bool {
    forall|i: int| 0 <= i < s.len() ==> (#[trigger] s[i]) is Ok
}

/// The input at `i` is the first of `s` that failed.
pub open spec fn first_failure(s: Seq<Result<Track, RunError>>, i: int) -> bool {
    &&& 0 <= i < s.len()
    &&& s[i] is Err
    &&& forall|j: int| 0 <= j < i ==> (#[trigger] s[j]) is Ok
}

/// Turns what each input gave into the tracks of the run.
///
/// The run has its tracks, in the order of the inputs, only where every input
/// gave one. Otherwise it fails as the first failed input did, and keeps no
/// track.
pub fn gather(outcomes: Vec<Result<Track, RunError>>) -> (r: Result<Vec<Track>, RunError>)
    ensures
        r is Ok <==> all_given(outcomes@),
        match r {
            Ok(tracks) => {
                &&& tracks@.len() == outcomes@.len()
                &&& forall|i: int|
                    #![trigger outcomes@[i]]
                    #![trigger tracks@[i]]
                    0 <= i < outcomes@.len() ==> outcomes@[i] == Ok::<Track, RunError>(tracks@[i])
            },
            Err(e) => exists|i: int|
                first_failure(outcomes@, i) && outcomes@[i] == Err::<Track, RunError>(e),
        },
{
    let ghost all = outcomes@;
    let ghost n = all.len() as int;
    let mut rest = outcomes;
    let mut backwards: Vec<Track> = Vec::new();
    let mut failure: Option<RunError> = None;
    let ghost mut failed_at: int = n;
    while rest.len() > 0
        invariant
            rest@ == all.subrange(0, rest@.len() as int),
            rest@.len() <= n,
            n == all.len(),
            rest@.len() <= failed_at <= n,
            forall|j: int| rest@.len() <= j < failed_at ==> (#[trigger] all[j]) is Ok,
            match failure {
                None => {
                    &&& failed_at == n
                    &&& backwards@.len() + rest@.len() == n
                    &&& forall|i: int|
                        0 <= i < backwards@.len() ==> all[n - 1 - i] == Ok::<Track, RunError>(
                            #[trigger] backwards@[i],
                        )
                },
                Some(e) => failed_at < n && all[failed_at] == Err::<Track, RunError>(e),
            },
        decreases rest@.len(),
    {
        let outcome = rest.pop().unwrap();
        match outcome {
            Ok(track) => {
                if failure.is_none() {
                    backwards.push(track);
                }
            },
            Err(e) => {
                failure = Some(e);
                proof {
                    failed_at = rest@.len() as int;
                }
            },
        }
    }
    match failure {
        Some(e) => {
            assert(first_failure(all, failed_at));
            Err(e)
        },
        None => {
            let tracks = reversed(backwards);
            assert forall|i: int| 0 <= i < n implies all[i] == Ok::<Track, RunError>(
                tracks@[i],
            ) by {
                assert(tracks@[i] == backwards@[n - 1 - i]);
            }
            Ok(tracks)
        },
    }
}

} // verus!
