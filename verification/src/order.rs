//! Stable sorting of dated tracks: earliest first, and entries of one date in
//! the order in which they came.

use vstd::prelude::*;
use crate::instant::Instant;
use crate::track::Track;

verus! {

/// A track together with the instant by which it is ordered.
#[derive(Clone, Debug, PartialEq, Eq)]
pub struct Dated {
    pub at: Instant,
    pub track: Track,
}

/// No entry of `s` is dated before an entry that stands in front of it.
pub open spec fn chronological(s: Seq<Dated>) -> bool {
    forall|i: int, j: int|
        0 <= i < j < s.len() ==> (#[trigger] s[i]).at.at_most((#[trigger] s[j]).at)
}

/// The entries of `s` dated `at`, in the order in which they stand in `s`.
pub open spec fn dated_at(s: Seq<Dated>, at: Instant) -> Seq<Dated> {
    s.filter(|d: Dated| d.at == at)
}

/// How many entries of `s` are dated strictly before `at`. In a chronological
/// sequence they are its first entries, so this is also the place of the first
/// entry that is not dated before `at`.
pub open spec fn slot(s: Seq<Dated>, at: Instant) -> int {
    s.filter(|d: Dated| d.at.precedes(at)).len() as int
}

/// Where the first `i` entries are dated before `at` and no other is, `slot` is `i`.
proof fn lemma_slot_is_split(s: Seq<Dated>, at: Instant, i: int)
    requires
        0 <= i <= s.len(),
        forall|j: int| 0 <= j < i ==> (#[trigger] s[j]).at.precedes(at),
        forall|j: int| i <= j < s.len() ==> !(#[trigger] s[j]).at.precedes(at),
    ensures
        slot(s, at) == i,
    decreases s.len(),
{
    let before = |d: Dated| d.at.precedes(at);
    reveal(Seq::filter);
    if s.len() > 0 {
        let front = s.drop_last();
        if i == s.len() {
            lemma_slot_is_split(front, at, i - 1);
            assert(before(s.last()));
        } else {
            lemma_slot_is_split(front, at, i);
            assert(!before(s.last()));
        }
    }
}

/// Placing `entry` at its slot puts it in front of the entries of its own
/// date and leaves the entries of every other date as they were.
proof fn lemma_place_at_slot(s: Seq<Dated>, entry: Dated, i: int, at: Instant)
    requires
        0 <= i <= s.len(),
        forall|j: int| 0 <= j < i ==> (#[trigger] s[j]).at.precedes(entry.at),
    ensures
        dated_at(s.insert(i, entry), at) == if entry.at == at {
            seq![entry] + dated_at(s, at)
        } else {
            dated_at(s, at)
        },
{
    let same = |d: Dated| d.at == at;
    let head = s.subrange(0, i);
    let tail = s.subrange(i, s.len() as int);
    assert(s =~= head + tail);
    assert(s.insert(i, entry) =~= head + (seq![entry] + tail));
    Seq::filter_distributes_over_add(head, tail, same);
    Seq::filter_distributes_over_add(head, seq![entry] + tail, same);
    tail.lemma_filter_prepend(entry, same);
    if entry.at == at {
        assert forall|j: int| 0 <= j < head.len() implies !same(#[trigger] head[j]) by {
            assert(head[j] == s[j]);
        }
        head.lemma_all_neg_filter_empty(same);
        assert(head.filter(same) =~= Seq::<Dated>::empty());
        assert(dated_at(s.insert(i, entry), at) =~= seq![entry] + dated_at(s, at));
    } else {
        assert(dated_at(s.insert(i, entry), at) =~= dated_at(s, at));
    }
}

/// Puts `entry` into a chronological list, behind every entry dated before it
/// and in front of every other.
pub fn place(sorted: &mut Vec<Dated>, entry: Dated)
    requires
        chronological(old(sorted)@),
    ensures
        final(sorted)@ == old(sorted)@.insert(slot(old(sorted)@, entry.at), entry),
        chronological(final(sorted)@),
        forall|at: Instant| #[trigger]
            dated_at(final(sorted)@, at) == if entry.at == at {
                seq![entry] + dated_at(old(sorted)@, at)
            } else {
                dated_at(old(sorted)@, at)
            },
{
    let mut i: usize = 0;
    while i < sorted.len() && sorted[i].at.is_before(&entry.at)
        invariant
            i <= sorted@.len(),
            sorted@ == old(sorted)@,
            forall|j: int| 0 <= j < i ==> (#[trigger] sorted@[j]).at.precedes(entry.at),
        decreases sorted@.len() - i,
    {
        i += 1;
    }
    proof {
        let s = sorted@;
        assert forall|j: int| i <= j < s.len() implies !(#[trigger] s[j]).at.precedes(
            entry.at,
        ) by {
            if j > i {
                assert(s[i as int].at.at_most(s[j].at));
            }
        }
        lemma_slot_is_split(s, entry.at, i as int);
        assert forall|at: Instant| #[trigger]
            dated_at(s.insert(i as int, entry), at) == if entry.at == at {
                seq![entry] + dated_at(s, at)
            } else {
                dated_at(s, at)
            } by {
            lemma_place_at_slot(s, entry, i as int, at);
        }
        let after = s.insert(i as int, entry);
        assert forall|a: int, b: int| 0 <= a < b < after.len() implies (#[trigger] after[a]).at.at_most(
            (#[trigger] after[b]).at,
        ) by {
            if a < i && b > i {
                assert(after[a] == s[a] && after[b] == s[b - 1]);
            } else if a < i && b < i {
                assert(after[a] == s[a] && after[b] == s[b]);
            } else if a < i {
                assert(after[a] == s[a]);
            } else if a == i {
                assert(after[b] == s[b - 1]);
            } else {
                assert(after[a] == s[a - 1] && after[b] == s[b - 1]);
            }
        }
    }
    sorted.insert(i, entry);
}

/// Sorts entries by date, earliest first. Entries of one date keep the order
/// in which they came.
///
/// The two clauses on the dates fix the result: it runs through the dates in
/// rising order and, within one date, through the entries as `entries` has them.
pub fn sort_dated(entries: Vec<Dated>) -> (out: Vec<Dated>)
    ensures
        chronological(out@),
        forall|at: Instant| #[trigger] dated_at(out@, at) == dated_at(entries@, at),
        out@.len() == entries@.len(),
{
    let ghost all = entries@;
    let mut rest = entries;
    let mut out: Vec<Dated> = Vec::new();
    proof {
        assert(all.subrange(all.len() as int, all.len() as int) =~= Seq::<Dated>::empty());
        reveal(Seq::filter);
    }
    while rest.len() > 0
        invariant
            rest@.len() <= all.len(),
            rest@ == all.subrange(0, rest@.len() as int),
            out@.len() + rest@.len() == all.len(),
            chronological(out@),
            forall|at: Instant| #[trigger]
                dated_at(out@, at) == dated_at(
                    all.subrange(rest@.len() as int, all.len() as int),
                    at,
                ),
        decreases rest@.len(),
    {
        let ghost done = all.subrange(rest@.len() as int, all.len() as int);
        let ghost before = out@;
        let entry = rest.pop().unwrap();
        proof {
            let m = rest@.len() as int;
            assert(entry == all[m]);
            assert(all.subrange(m, all.len() as int) =~= seq![entry] + done);
            assert forall|at: Instant| #[trigger]
                dated_at(seq![entry] + done, at) == if entry.at == at {
                    seq![entry] + dated_at(before, at)
                } else {
                    dated_at(before, at)
                } by {
                done.lemma_filter_prepend(entry, |d: Dated| d.at == at);
                assert(dated_at(before, at) == dated_at(done, at));
                if entry.at != at {
                    assert(Seq::<Dated>::empty() + dated_at(done, at) =~= dated_at(done, at));
                }
            }
        }
        place(&mut out, entry);
        proof {
            let m = rest@.len() as int;
            assert(rest@ =~= all.subrange(0, m));
            assert forall|at: Instant| #[trigger]
                dated_at(out@, at) == dated_at(all.subrange(m, all.len() as int), at) by {
                assert(dated_at(seq![entry] + done, at) == if entry.at == at {
                    seq![entry] + dated_at(before, at)
                } else {
                    dated_at(before, at)
                });
            }
        }
    }
    proof {
        assert(all.subrange(0, all.len() as int) =~= all);
    }
    out
}

/// In a chronological sequence an entry dated before another stands in front
/// of it.
pub proof fn lemma_earlier_stands_first(s: Seq<Dated>, i: int, j: int)
    requires
        chronological(s),
        0 <= i < s.len(),
        0 <= j < s.len(),
        s[i].at.precedes(s[j].at),
    ensures
        i < j,
{
    if j < i {
        assert(s[j].at.at_most(s[i].at));
    }
}

} // verus!
