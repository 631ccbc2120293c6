//! The text of a report.

use vstd::prelude::*;
use vstd::string::StringExecFns;
use crate::track::Track;

verus! {

/// The block of a report that tells of one track: its name, its average and
/// its top speed in kilometres per hour, and an empty line.
pub open spec fn block_text(name: Seq<char>, average: Seq<char>, top: Seq<char>) -> Seq<char> {
    name + "\n"@ + "Average speed: "@ + average + " km/h\n"@ + "Top speed: "@ + top
        + " km/h\n"@ + "\n"@
}

/// The blocks of a report, one for each track: the block at a track's place
/// shows the pair of speeds at that place, the average first.
pub open spec fn blocks(tracks: Seq<Track>, speeds: Seq<(String, String)>) -> Seq<Seq<char>> {
    Seq::new(tracks.len(), |i: int| block_text(tracks[i].name@, speeds[i].0@, speeds[i].1@))
}

/// Writes the block of one track. The two speeds come as the text in which
/// they are to be shown.
pub fn report_block(name: &str, average: &str, top: &str) -> (text: String)
    ensures
        text@ == block_text(name@, average@, top@),
{
    let mut text = String::new();
    text.append(name);
    text.append("\n");
    text.append("Average speed: ");
    text.append(average);
    text.append(" km/h\n");
    text.append("Top speed: ");
    text.append(top);
    text.append(" km/h\n");
    text.append("\n");
    assert(text@ =~= block_text(name@, average@, top@));
    text
}

/// Writes the report: the blocks of the tracks, one after the other in the
/// order of `tracks`. Each pair of `speeds` holds the average and the top
/// speed of the track at its place, as the text in which they are to be shown.
pub fn report_text(tracks: &Vec<Track>, speeds: &Vec<(String, String)>) -> (text: String)
    requires
        tracks@.len() == speeds@.len(),
    ensures
        text@ == blocks(tracks@, speeds@).flatten(),
{
    let ghost all = blocks(tracks@, speeds@);
    let mut text = String::new();
    let mut i: usize = 0;
    assert(all.take(0) =~= Seq::<Seq<char>>::empty());
    while i < tracks.len()
        invariant
            i <= tracks@.len(),
            tracks@.len() == speeds@.len(),
            all == blocks(tracks@, speeds@),
            text@ == all.take(i as int).flatten(),
        decreases tracks@.len() - i,
    {
        let block = report_block(
            tracks[i].name.as_str(),
            speeds[i].0.as_str(),
            speeds[i].1.as_str(),
        );
        proof {
            assert(all.take(i + 1) =~= all.take(i as int).push(all[i as int]));
            all.take(i as int).lemma_flatten_push(all[i as int]);
        }
        text.append(block.as_str());
        i += 1;
    }
    assert(all.take(i as int) =~= all);
    text
}

} // verus!
