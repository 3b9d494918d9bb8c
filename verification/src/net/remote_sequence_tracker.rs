//! Sequence numbers received from the peer, and the acknowledgement that
//! reports them back.

use crate::bits::{
    has_bit,
    lemma_bits_determine_value,
    lemma_with_bit_set,
    lemma_zero_has_no_bit,
    set_bit,
    WINDOW,
};
use crate::ordered_set::{
    first,
    greatest,
    is_greatest,
    last,
    lemma_finite_has_greatest,
    lemma_greatest_of_insert,
    lemma_greatest_unique,
    pop_first,
};
use std::collections::BTreeSet;
use vstd::prelude::*;
use vstd::std_specs::iter::IteratorSpec;

verus! {

/// The lowest sequence number that is still tracked once `highest` has been
/// received.
pub open spec fn window_floor(highest: u32) -> u32 {
    if highest >= WINDOW {
        (highest - WINDOW) as u32
    } else {
        0
    }
}

/// The numbers of `seen` are finitely many and no two of them lie more than a
/// window's width apart.
pub open spec fn within_window(seen: Set<u32>) -> bool {
    &&& seen.finite()
    &&& forall|a: u32, b: u32| seen.contains(a) && seen.contains(b) ==> a - b <= WINDOW
}

/// Whether a newly received sequence number is taken into `seen`: nothing has
/// been seen yet, or the highest seen is below the window's width, or the
/// number lies less than a window below the highest seen.
pub open spec fn admits(seen: Set<u32>, remote_sequence: u32) -> bool {
    ||| seen == Set::<u32>::empty()
    ||| greatest(seen) < WINDOW
    ||| remote_sequence > greatest(seen) - WINDOW
}

/// The tracked sequence numbers after `remote_sequence` has been received:
/// unchanged if it is not admitted; otherwise it joins them, and what then
/// lies below the floor of the highest one leaves.
pub open spec fn seen_after(seen: Set<u32>, remote_sequence: u32) -> Set<u32> {
    if admits(seen, remote_sequence) {
        let admitted = seen.insert(remote_sequence);
        admitted.filter(|s: u32| s >= window_floor(greatest(admitted)))
    } else {
        seen
    }
}

/// Whether `ack_bitfield` reports exactly the tracked sequence numbers within
/// a window's width above the floor: bit `i` stands for the floor plus `i`.
pub open spec fn reports(seen: Set<u32>, ack_bitfield: u32) -> bool {
    forall|i: u32|
        i < WINDOW ==> (#[trigger] has_bit(ack_bitfield, i) <==> seen.contains(
            (window_floor(greatest(seen)) + i) as u32,
        ))
}

/// The tracked sequence numbers after each of `received` has arrived, first to
/// last.
pub open spec fn seen_after_all(seen: Set<u32>, received: Seq<u32>) -> Set<u32>
    decreases received.len(),
{
    if received.len() == 0 {
        seen
    } else {
        seen_after(seen_after_all(seen, received.drop_last()), received.last())
    }
}

/// What one arrival does to the tracked numbers. They stay within one window
/// and are not empty. Their greatest is the greatest of before or the
/// newcomer, whichever is higher. Nothing joins but the newcomer, and of the
/// numbers of before and the newcomer, all above the floor of the greatest
/// are tracked.
pub proof fn lemma_seen_after(seen: Set<u32>, remote_sequence: u32)
    requires
        within_window(seen),
    ensures
        within_window(seen_after(seen, remote_sequence)),
        is_greatest(
            seen_after(seen, remote_sequence),
            if seen == Set::<u32>::empty() || remote_sequence > greatest(seen) {
                remote_sequence
            } else {
                greatest(seen)
            },
        ),
        seen_after(seen, remote_sequence).subset_of(seen.insert(remote_sequence)),
        forall|s: u32|
            seen.insert(remote_sequence).contains(s) && s > window_floor(
                greatest(seen_after(seen, remote_sequence)),
            ) ==> #[trigger] seen_after(seen, remote_sequence).contains(s),
{
    let after = seen_after(seen, remote_sequence);
    let admitted = seen.insert(remote_sequence);
    if seen != Set::<u32>::empty() {
        lemma_finite_has_greatest(seen);
    }
    lemma_greatest_of_insert(seen, remote_sequence);
    let top = if seen == Set::<u32>::empty() || remote_sequence > greatest(seen) {
        remote_sequence
    } else {
        greatest(seen)
    };
    if admits(seen, remote_sequence) {
        assert(after.contains(top));
        assert(is_greatest(after, top));
    } else {
        assert(is_greatest(after, top));
    }
    lemma_greatest_unique(after, top);
}

/// An arrival that repeats the one before it changes nothing.
pub proof fn lemma_receiving_again_changes_nothing(seen: Set<u32>, remote_sequence: u32)
    requires
        within_window(seen),
    ensures
        seen_after(seen_after(seen, remote_sequence), remote_sequence) == seen_after(
            seen,
            remote_sequence,
        ),
{
    let once = seen_after(seen, remote_sequence);
    lemma_seen_after(seen, remote_sequence);
    if admits(seen, remote_sequence) {
        let top = greatest(once);
        if seen != Set::<u32>::empty() {
            lemma_finite_has_greatest(seen);
        }
        lemma_greatest_of_insert(seen, remote_sequence);
        lemma_greatest_unique(once, greatest(seen.insert(remote_sequence)));
        assert(once.contains(remote_sequence));
        assert(once.insert(remote_sequence) =~= once);
        assert(admits(once, remote_sequence));
        assert(once.filter(|s: u32| s >= window_floor(top)) =~= once);
    }
}

/// What a course of arrivals leaves, starting with nothing tracked. The
/// greatest tracked number is the greatest that arrived. Every tracked number
/// has arrived, and every arrival above the floor of the greatest is tracked.
pub proof fn lemma_seen_after_all(received: Seq<u32>)
    requires
        received.len() > 0,
    ensures
        within_window(seen_after_all(Set::<u32>::empty(), received)),
        is_greatest(
            seen_after_all(Set::<u32>::empty(), received),
            greatest(seen_after_all(Set::<u32>::empty(), received)),
        ),
        forall|k: int|
            0 <= k < received.len() ==> #[trigger] received[k] <= greatest(
                seen_after_all(Set::<u32>::empty(), received),
            ),
        forall|s: u32| #[trigger]
            seen_after_all(Set::<u32>::empty(), received).contains(s) ==> received.contains(s),
        forall|k: int|
            0 <= k < received.len() && #[trigger] received[k] > window_floor(
                greatest(seen_after_all(Set::<u32>::empty(), received)),
            ) ==> seen_after_all(Set::<u32>::empty(), received).contains(received[k]),
    decreases received.len(),
{
    let earlier = received.drop_last();
    let before = seen_after_all(Set::<u32>::empty(), earlier);
    let after = seen_after_all(Set::<u32>::empty(), received);
    if earlier.len() > 0 {
        lemma_seen_after_all(earlier);
        lemma_seen_after(before, received.last());
        lemma_greatest_unique(after, greatest(after));
        assert forall|k: int| 0 <= k < received.len() implies #[trigger] received[k] <= greatest(
            after,
        ) by {
            if k < earlier.len() {
                assert(earlier[k] == received[k]);
            }
        }
        assert forall|s: u32| #[trigger] after.contains(s) implies received.contains(s) by {
            if before.contains(s) {
                assert(earlier.contains(s));
                let k = choose|k: int| 0 <= k < earlier.len() && earlier[k] == s;
                assert(received[k] == s);
            } else {
                assert(received[received.len() - 1] == s);
            }
        }
        assert forall|k: int|
            0 <= k < received.len() && #[trigger] received[k] > window_floor(
                greatest(after),
            ) implies after.contains(received[k]) by {
            if k < earlier.len() {
                assert(earlier[k] == received[k]);
                assert(before.contains(earlier[k]));
            }
        }
    } else {
        assert(before == Set::<u32>::empty());
        lemma_seen_after(before, received.last());
        lemma_greatest_unique(after, received.last());
        assert forall|s: u32| #[trigger] after.contains(s) implies received.contains(s) by {
            assert(received[received.len() - 1] == s);
        }
    }
}

/// How an acknowledgement reads. Given the greatest tracked number as `ack`
/// and a bitfield that reports the tracked numbers, a number is tracked
/// exactly if it is `ack` or its bit, counted from the floor, is set. Once
/// `ack` has reached the window's width, the bits stand for exactly the
/// tracked numbers below `ack`.
pub proof fn lemma_acknowledgement_reads(seen: Set<u32>, ack: u32, ack_bitfield: u32)
    requires
        within_window(seen),
        is_greatest(seen, ack),
        reports(seen, ack_bitfield),
    ensures
        forall|s: u32| #[trigger]
            seen.contains(s) <==> s == ack || (window_floor(ack) <= s < window_floor(ack) + WINDOW
                && has_bit(ack_bitfield, (s - window_floor(ack)) as u32)),
        ack >= WINDOW ==> forall|s: u32|
            (#[trigger] seen.contains(s) && s < ack) <==> (window_floor(ack) <= s < ack && has_bit(
                ack_bitfield,
                (s - window_floor(ack)) as u32,
            )),
{
    lemma_greatest_unique(seen, ack);
    let floor = window_floor(ack);
    assert forall|s: u32| #[trigger]
        seen.contains(s) <==> s == ack || (floor <= s < floor + WINDOW && has_bit(
            ack_bitfield,
            (s - floor) as u32,
        )) by {
        if floor <= s < floor + WINDOW {
            let i = (s - floor) as u32;
            assert(has_bit(ack_bitfield, i) <==> seen.contains((floor + i) as u32));
        }
    }
}

/// The tracked numbers determine the bitfield of their acknowledgement.
pub proof fn lemma_report_is_unique(seen: Set<u32>, one: u32, other: u32)
    requires
        reports(seen, one),
        reports(seen, other),
    ensures
        one == other,
{
    assert forall|index: u32| index < 32 implies has_bit(one, index) == has_bit(other, index) by {
        assert(has_bit(one, index) <==> seen.contains(
            (window_floor(greatest(seen)) + index) as u32,
        ));
        assert(has_bit(other, index) <==> seen.contains(
            (window_floor(greatest(seen)) + index) as u32,
        ));
    }
    lemma_bits_determine_value(one, other);
}

/// Whether one of the first `upto` items of `items` equals `value`.
spec fn visited(items: Seq<&u32>, upto: int, value: int) -> bool {
    exists|k: int| 0 <= k < upto && *#[trigger] items[k] == value
}

/// Walking a set visits elements of the set only, and each of them.
proof fn lemma_walk_covers(set: &BTreeSet<u32>)
    ensures
        forall|k: int|
            0 <= k < set.iter().remaining().len() ==> set@.contains(
                *#[trigger] set.iter().remaining()[k],
            ),
        forall|s: u32|
            set@.contains(s) ==> visited(
                set.iter().remaining(),
                set.iter().remaining().len() as int,
                s as int,
            ),
{
    let items = set.iter().remaining();
    let values = items.unref();
    assert(values.to_set() == set@);
    assert forall|k: int| 0 <= k < items.len() implies set@.contains(*#[trigger] items[k]) by {
        assert(values[k] == *items[k]);
        assert(values.contains(values[k]));
        assert(values.to_set().contains(values[k]));
    }
    assert forall|s: u32| set@.contains(s) implies visited(items, items.len() as int, s as int) by {
        assert(values.to_set().contains(s));
        assert(values.contains(s));
        let k = choose|k: int| 0 <= k < values.len() && values[k] == s;
        assert(*items[k] == s);
    }
}

/// Follows which of the peer's sequence numbers have arrived, within a
/// sliding window below the highest one.
pub struct RemoteSequenceTracker {
    seen_packets: BTreeSet<u32>,
}

impl View for RemoteSequenceTracker {
    type V = Set<u32>;

    closed spec fn view(&self) -> Set<u32> {
        self.seen_packets@
    }
}

impl RemoteSequenceTracker {
    /// The tracked numbers lie within one window.
    pub open spec fn wf(&self) -> bool {
        within_window(self@)
    }

    /// A tracker that has received nothing.
    pub fn new() -> (tracker: Self)
        ensures
            tracker.wf(),
            tracker@ == Set::<u32>::empty(),
    {
        Self { seen_packets: BTreeSet::new() }
    }

    /// Whether nothing is tracked, so that there is nothing to acknowledge.
    pub fn is_empty(&self) -> (empty: bool)
        ensures
            empty == (self@ == Set::<u32>::empty()),
    {
        self.seen_packets.is_empty()
    }

    /// Records that the datagram with `remote_sequence` has arrived.
    pub fn on_receive(&mut self, remote_sequence: u32)
        requires
            old(self).wf(),
        ensures
            final(self).wf(),
            final(self)@ == seen_after(old(self)@, remote_sequence),
            final(self)@ != Set::<u32>::empty(),
    {
        proof {
            lemma_seen_after(old(self)@, remote_sequence);
        }
        let ghost before = self.seen_packets@;
        let accepted = match last(&self.seen_packets) {
            None => true,
            Some(highest) => {
                proof {
                    lemma_greatest_unique(before, *highest);
                }
                *highest < WINDOW || *highest - WINDOW < remote_sequence
            },
        };
        if !accepted {
            return;
        }
        self.seen_packets.insert(remote_sequence);
        let ghost admitted = self.seen_packets@;

        let top = last(&self.seen_packets);
        assert(top is Some) by {
            assert(admitted.contains(remote_sequence));
        }
        let highest = *top.unwrap();
        proof {
            lemma_greatest_unique(admitted, highest);
        }
        let minimum = if highest >= WINDOW {
            highest - WINDOW
        } else {
            0
        };
        loop
            invariant
                admitted.finite(),
                self.seen_packets@.subset_of(admitted),
                forall|s: u32| admitted.contains(s) && s >= minimum ==> self.seen_packets@.contains(s),
            ensures
                self.seen_packets@ == admitted.filter(|s: u32| s >= minimum),
            decreases self.seen_packets@.len(),
        {
            let below = match first(&self.seen_packets) {
                Some(lowest) => *lowest < minimum,
                None => false,
            };
            if !below {
                assert(self.seen_packets@ =~= admitted.filter(|s: u32| s >= minimum));
                break;
            }
            proof {
                vstd::set_lib::lemma_len_subset(self.seen_packets@, admitted);
            }
            let _ = pop_first(&mut self.seen_packets);
        }
    }

    /// The acknowledgement to send: the highest sequence number received, and
    /// the bitfield that reports the tracked ones. `None` if nothing has been
    /// received.
    pub fn on_send(&self) -> (acknowledgement: Option<(u32, u32)>)
        requires
            self.wf(),
        ensures
            acknowledgement is Some <==> self@ != Set::<u32>::empty(),
            match acknowledgement {
                Some((ack, ack_bitfield)) => is_greatest(self@, ack) && reports(self@, ack_bitfield),
                None => self@ == Set::<u32>::empty(),
            },
    {
        if let Some(highest) = last(&self.seen_packets) {
            let mut previous_acks = 0u32;
            let min = if *highest >= WINDOW {
                *highest - WINDOW
            } else {
                0
            };
            proof {
                lemma_greatest_unique(self@, *highest);
                assert forall|i: u32| i < WINDOW implies !has_bit(0u32, i) by {
                    lemma_zero_has_no_bit(i);
                }
            }

            let ghost mut done = Set::<u32>::empty();
            proof {
                lemma_walk_covers(&self.seen_packets);
            }
            for sequence in it: self.seen_packets.iter()
                invariant
                    is_greatest(self.seen_packets@, *highest),
                    min == window_floor(*highest),
                    forall|a: u32, b: u32|
                        self.seen_packets@.contains(a) && self.seen_packets@.contains(b) ==> a - b
                            <= WINDOW,
                    forall|k: int|
                        0 <= k < it.seq().len() ==> self.seen_packets@.contains(
                            *#[trigger] it.seq()[k],
                        ),
                    forall|s: u32|
                        self.seen_packets@.contains(s) ==> visited(
                            it.seq(),
                            it.seq().len() as int,
                            s as int,
                        ),
                    done.subset_of(self.seen_packets@),
                    forall|k: int| 0 <= k < it.index() ==> done.contains(*#[trigger] it.seq()[k]),
                    forall|i: u32|
                        i < WINDOW ==> (#[trigger] has_bit(previous_acks, i) <==> done.contains(
                            (min + i) as u32,
                        )),
            {
                let index = *sequence - min;
                let ghost earlier = previous_acks;
                if index < WINDOW {
                    set_bit(&mut previous_acks, index as usize, true);
                }
                proof {
                    assert forall|i: u32| i < WINDOW implies (#[trigger] has_bit(previous_acks, i)
                        <==> done.insert(*sequence).contains((min + i) as u32)) by {
                        if index < WINDOW {
                            lemma_with_bit_set(earlier, index, i);
                        }
                    }
                    done = done.insert(*sequence);
                }
            }
            assert(done =~= self.seen_packets@);
            Some((*highest, previous_acks))
        } else {
            None
        }
    }
}

} // verus!
