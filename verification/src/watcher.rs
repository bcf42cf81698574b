//! The transcript watcher: it follows the response streams of the upload service slot by
//! slot and puts the transcript of each finished response together.

use crate::text;
use crate::transcript::{self, read_response, ReadResponse};
use std::collections::HashMap;
use vstd::prelude::*;

verus! {

/// What the watcher knows of the streams of the service.
pub struct TranscriptWatcher {
    stream_ids: Vec<u64>,
    last_seen: Vec<usize>,
    bodies: HashMap<u64, Vec<u8>>,
}

/// The mathematical value of a `TranscriptWatcher`: for each stream of the service the
/// identifier of the response that it carries (zero where it carries none) and the last
/// slot that was seen of it, and for each response the body bytes that were collected.
#[verifier::ext_equal]
pub struct Watched {
    pub stream_ids: Seq<u64>,
    pub last_seen: Seq<usize>,
    pub bodies: Map<u64, Seq<u8>>,
}

impl View for TranscriptWatcher {
    type V = Watched;

    closed spec fn view(&self) -> Watched {
        Watched {
            stream_ids: self.stream_ids@,
            last_seen: self.last_seen@,
            bodies: self.bodies@.map_values(|body: Vec<u8>| body@),
        }
    }
}

impl Watched {
    /// The watcher of a service, before it has seen anything.
    pub open spec fn fresh(num_streams: nat) -> Watched {
        Watched {
            stream_ids: Seq::new(num_streams, |i: int| 0u64),
            last_seen: Seq::new(num_streams, |i: int| 0usize),
            bodies: Map::empty(),
        }
    }

    /// Each body belongs to a response that some stream carries.
    pub open spec fn well_formed(self) -> bool {
        &&& self.last_seen.len() == self.stream_ids.len()
        &&& forall|id: u64| #[trigger]
            self.bodies.dom().contains(id) ==> id != 0 && self.stream_ids.contains(id)
    }

    /// The body bytes that were collected of a response.
    pub open spec fn body(self, id: u64) -> Seq<u8> {
        if self.bodies.dom().contains(id) {
            self.bodies[id]
        } else {
            Seq::empty()
        }
    }

    /// What is known once a stream was found to carry the response `id`. Where that is another
    /// response than before, the body of the former one is dropped and no slot was seen yet.
    pub open spec fn observed(self, stream: int, id: u64) -> Watched {
        let previous = self.stream_ids[stream];
        if previous == id {
            self
        } else {
            Watched {
                stream_ids: self.stream_ids.update(stream, id),
                last_seen: self.last_seen.update(stream, 0),
                bodies: self.bodies.remove(previous),
            }
        }
    }

    /// What is known once bytes were added to the body of the response that a stream carries.
    pub open spec fn extended(self, stream: int, bytes: Seq<u8>) -> Watched {
        let id = self.stream_ids[stream];
        Watched { bodies: self.bodies.insert(id, self.body(id) + bytes), ..self }
    }

    /// What is known once the response that a stream carries has ended.
    pub open spec fn ended(self, stream: int) -> Watched {
        Watched { bodies: self.bodies.remove(self.stream_ids[stream]), ..self }
    }

    /// What is known once the slots of a stream up to `last` have been seen.
    pub open spec fn seen(self, stream: int, last: usize) -> Watched {
        Watched { last_seen: self.last_seen.update(stream, last), ..self }
    }

    /// What is known once a slot of a stream was taken in. The first slot is the response's
    /// head and adds nothing to its body.
    pub open spec fn accepted(self, stream: int, slot: usize, bytes: Seq<u8>, end: bool) -> Watched {
        if slot == 1 {
            self
        } else if end {
            self.ended(stream)
        } else {
            self.extended(stream, bytes)
        }
    }

    /// The first and the last of the slots of a stream that have not been seen yet, where the
    /// last slot that it has is `last`.
    pub open spec fn unseen(self, stream: int, last: usize) -> Option<(usize, usize)> {
        if last > self.last_seen[stream] {
            Some(((self.last_seen[stream] + 1) as usize, last))
        } else {
            None
        }
    }

    /// What is known once slots of a stream were taken in one after the other, from the given
    /// one on and no further than the one that ends the response. A slot that the service does
    /// not have is passed over.
    pub open spec fn after_slots(self, stream: int, slot: usize, slots: Seq<Slot>) -> Watched
        decreases slots.len(),
    {
        if slots.len() == 0 {
            self
        } else {
            match slots[0] {
                Slot::Gone => self.after_slots(stream, (slot + 1) as usize, slots.skip(1)),
                Slot::Held(bytes, end) => {
                    let next = self.accepted(stream, slot, bytes, end);
                    if slot != 1 && end {
                        next
                    } else {
                        next.after_slots(stream, (slot + 1) as usize, slots.skip(1))
                    }
                },
            }
        }
    }

    /// What is told of a response while slots of it are taken in: the transcript of its body,
    /// where that has one, as soon as a slot ends it.
    pub open spec fn told_in_slots(self, stream: int, slot: usize, slots: Seq<Slot>) -> Option<
        Option<Seq<char>>,
    >
        decreases slots.len(),
    {
        if slots.len() == 0 {
            None
        } else {
            match slots[0] {
                Slot::Gone => self.told_in_slots(stream, (slot + 1) as usize, slots.skip(1)),
                Slot::Held(bytes, end) => if slot != 1 && end {
                    Some(body_transcript(self.body(self.stream_ids[stream])))
                } else {
                    self.accepted(stream, slot, bytes, end).told_in_slots(
                        stream,
                        (slot + 1) as usize,
                        slots.skip(1),
                    )
                },
            }
        }
    }

    /// What a poll tells of a response.
    pub open spec fn told_in_poll(self, stream: int, id: u64, poll: Poll) -> Option<
        Option<Seq<char>>,
    > {
        let observed = self.observed(stream, id);
        match observed.unseen(stream, poll.last) {
            Some((first, _)) => observed.told_in_slots(stream, first, poll.slots),
            None => None,
        }
    }

    /// What is known after a poll of a stream that carries the response `id`.
    pub open spec fn after_poll(self, stream: int, id: u64, poll: Poll) -> Watched {
        let observed = self.observed(stream, id);
        match observed.unseen(stream, poll.last) {
            Some((first, last)) => observed.after_slots(stream, first, poll.slots).seen(
                stream,
                last,
            ),
            None => observed,
        }
    }

    /// The slots that a poll asks the service for, in order.
    pub open spec fn asked_in_poll(self, stream: int, id: u64, poll: Poll) -> Seq<int> {
        match self.observed(stream, id).unseen(stream, poll.last) {
            Some((first, _)) => asked(first as int, poll.slots),
            None => Seq::empty(),
        }
    }

    /// Whether a poll tells of each slot that has not been seen yet, and of no other.
    pub open spec fn fits(self, stream: int, id: u64, poll: Poll) -> bool {
        match self.observed(stream, id).unseen(stream, poll.last) {
            Some((first, last)) => poll.slots.len() == last - first + 1,
            None => poll.slots.len() == 0,
        }
    }

    /// What is known after a run of polls of a stream that carries the response `id` all the
    /// while.
    pub open spec fn after_polls(self, stream: int, id: u64, polls: Seq<Poll>) -> Watched
        decreases polls.len(),
    {
        if polls.len() == 0 {
            self
        } else {
            self.after_polls(stream, id, polls.drop_last()).after_poll(stream, id, polls.last())
        }
    }

    /// The slots that a run of polls asks the service for, in order.
    pub open spec fn asked_in_polls(self, stream: int, id: u64, polls: Seq<Poll>) -> Seq<int>
        decreases polls.len(),
    {
        if polls.len() == 0 {
            Seq::empty()
        } else {
            self.asked_in_polls(stream, id, polls.drop_last()) + self.after_polls(
                stream,
                id,
                polls.drop_last(),
            ).asked_in_poll(stream, id, polls.last())
        }
    }

    /// Whether each poll of a run fits what is known when it is made.
    pub open spec fn all_fit(self, stream: int, id: u64, polls: Seq<Poll>) -> bool
        decreases polls.len(),
    {
        polls.len() > 0 ==> {
            &&& self.all_fit(stream, id, polls.drop_last())
            &&& self.after_polls(stream, id, polls.drop_last()).fits(stream, id, polls.last())
        }
    }
}

/// What the service has of a slot: nothing any more, or its bytes and whether they are the end
/// marker.
pub enum Slot {
    Gone,
    Held(Seq<u8>, bool),
}

/// What the service tells of a response in one poll: the last slot that the response has, and
/// the slots that have not been seen yet.
pub struct Poll {
    pub last: usize,
    pub slots: Seq<Slot>,
}

/// The slots that are asked for, from the given one on: each in turn, up to the one that ends
/// the response.
pub open spec fn asked(slot: int, slots: Seq<Slot>) -> Seq<int>
    decreases slots.len(),
{
    if slots.len() == 0 {
        Seq::empty()
    } else {
        match slots[0] {
            Slot::Held(_, true) if slot != 1 => seq![slot],
            _ => seq![slot] + asked(slot + 1, slots.skip(1)),
        }
    }
}

/// The bytes of the body that slots hold, from the given one on: those of each slot that is held
/// and is not the head, in order, up to the one that ends the response.
pub open spec fn body_bytes(slot: int, slots: Seq<Slot>) -> Seq<u8>
    decreases slots.len(),
{
    if slots.len() == 0 {
        Seq::empty()
    } else {
        match slots[0] {
            Slot::Held(bytes, end) => if slot == 1 {
                body_bytes(slot + 1, slots.skip(1))
            } else if end {
                Seq::empty()
            } else {
                bytes + body_bytes(slot + 1, slots.skip(1))
            },
            Slot::Gone => body_bytes(slot + 1, slots.skip(1)),
        }
    }
}

/// The slots that the polls of a run tell of, in order.
pub open spec fn slots_of(polls: Seq<Poll>) -> Seq<Slot>
    decreases polls.len(),
{
    if polls.len() == 0 {
        Seq::empty()
    } else {
        slots_of(polls.drop_last()) + polls.last().slots
    }
}

/// Whether one of the slots, from the given one on, ends the response.
pub open spec fn ends(slot: int, slots: Seq<Slot>) -> bool {
    exists|i: int|
        0 <= i < slots.len() && slot + i != 1 && (#[trigger] slots[i] matches Slot::Held(_, end)
            && end)
}

/// What taking a slot in has led to.
#[derive(Debug, PartialEq, Eq)]
pub enum SlotOutcome {
    /// The next slot follows.
    Next,
    /// The response is complete; its transcript, where it has one, and what the parser says of
    /// its lines that are no events. No further slot of this round is taken in.
    Ended(ReadResponse),
}

/// The transcript of a response with this body.
pub open spec fn body_transcript(body: Seq<u8>) -> Option<Seq<char>> {
    transcript::response_transcript(
        transcript::events_of_lines(text::lines(text::lossy_text(body))),
    )
}

impl TranscriptWatcher {
    /// A watcher of a service with this number of streams.
    pub fn new(num_streams: usize) -> (watcher: TranscriptWatcher)
        ensures
            watcher@ == Watched::fresh(num_streams as nat),
            watcher@.well_formed(),
    {
        let mut stream_ids: Vec<u64> = Vec::new();
        let mut last_seen: Vec<usize> = Vec::new();
        for i in 0..num_streams
            invariant
                stream_ids@ == Seq::new(i as nat, |i: int| 0u64),
                last_seen@ == Seq::new(i as nat, |i: int| 0usize),
        {
            stream_ids.push(0);
            last_seen.push(0);
            assert(stream_ids@ =~= Seq::new((i + 1) as nat, |i: int| 0u64));
            assert(last_seen@ =~= Seq::new((i + 1) as nat, |i: int| 0usize));
        }
        let watcher = TranscriptWatcher { stream_ids, last_seen, bodies: HashMap::new() };
        assert(watcher@ =~= Watched::fresh(num_streams as nat));
        watcher
    }

    /// The number of streams.
    pub fn num_streams(&self) -> (count: usize)
        ensures
            count == self@.stream_ids.len(),
    {
        self.stream_ids.len()
    }

    /// Takes note of the response that a stream carries, zero for none, and tells whether
    /// there is one to follow.
    pub fn observe(&mut self, stream: usize, id: u64) -> (active: bool)
        requires
            old(self)@.well_formed(),
            stream < old(self)@.stream_ids.len(),
        ensures
            active == (id != 0),
            final(self)@ == old(self)@.observed(stream as int, id),
            final(self)@.well_formed(),
    {
        let ghost before = self@;
        let previous = self.stream_ids[stream];
        if previous != id {
            self.bodies.remove(&previous);
            self.stream_ids[stream] = id;
            self.last_seen[stream] = 0;
            assert(self@.bodies =~= before.bodies.remove(previous));
            assert(self@ =~= before.observed(stream as int, id));
            assert forall|other: u64| #[trigger] self@.bodies.dom().contains(other) implies other
                != 0 && self@.stream_ids.contains(other) by {
                assert(before.bodies.dom().contains(other));
                let at = choose|at: int|
                    0 <= at < before.stream_ids.len() && before.stream_ids[at] == other;
                assert(self@.stream_ids[at] == other);
            }
        }
        id != 0
    }

    /// The slots of a stream that have not been seen yet, from the first to the last, given
    /// the last slot that the stream has.
    pub fn unseen_slots(&self, stream: usize, last: usize) -> (slots: Option<(usize, usize)>)
        requires
            self@.well_formed(),
            stream < self@.stream_ids.len(),
        ensures
            slots == self@.unseen(stream as int, last),
    {
        let seen = self.last_seen[stream];
        if last <= seen {
            None
        } else {
            Some((seen + 1, last))
        }
    }

    /// Takes a slot of a stream in: its bytes, and whether they are the end marker.
    pub fn accept(&mut self, stream: usize, slot: usize, bytes: &[u8], end: bool) -> (outcome:
        SlotOutcome)
        requires
            old(self)@.well_formed(),
            stream < old(self)@.stream_ids.len(),
            old(self)@.stream_ids[stream as int] != 0,
        ensures
            final(self)@ == old(self)@.accepted(stream as int, slot, bytes@, end),
            final(self)@.well_formed(),
            match outcome {
                SlotOutcome::Next => slot == 1 || !end,
                SlotOutcome::Ended(response) => {
                    let body = old(self)@.body(old(self)@.stream_ids[stream as int]);
                    &&& slot != 1
                    &&& end
                    &&& match response.transcript {
                        Some(found) => body_transcript(body) == Some(found@),
                        None => body_transcript(body) is None,
                    }
                    &&& text::texts(response.faults@) == transcript::faults_of_lines(
                        text::lines(text::lossy_text(body)),
                    )
                },
            },
    {
        if slot == 1 {
            return SlotOutcome::Next;
        }
        let ghost before = self@;
        let id = self.stream_ids[stream];
        let mut body = match self.bodies.remove(&id) {
            Some(body) => body,
            None => Vec::new(),
        };
        assert(body@ =~= before.body(id));
        assert(self@.bodies =~= before.bodies.remove(id));
        if end {
            assert(self@ =~= before.ended(stream as int));
            SlotOutcome::Ended(read_response(body.as_slice()))
        } else {
            body.extend_from_slice(bytes);
            assert(body@ =~= before.body(id) + bytes@);
            self.bodies.insert(id, body);
            assert(self@.bodies =~= before.bodies.insert(id, before.body(id) + bytes@));
            assert(self@ =~= before.extended(stream as int, bytes@));
            assert(before.stream_ids[stream as int] == id);
            SlotOutcome::Next
        }
    }

    /// Takes note that the slots of a stream up to `last` have been seen.
    pub fn mark_seen(&mut self, stream: usize, last: usize)
        requires
            old(self)@.well_formed(),
            stream < old(self)@.stream_ids.len(),
        ensures
            final(self)@ == old(self)@.seen(stream as int, last),
            final(self)@.well_formed(),
    {
        let ghost before = self@;
        self.last_seen[stream] = last;
        assert(self@ =~= before.seen(stream as int, last));
    }
}

/// A stream that turns to another response starts it afresh: nothing of the former
/// response's body is left, and every slot of the new one is still to be seen.
pub proof fn law_responses_do_not_mix(watched: Watched, stream: int, id: u64)
    requires
        watched.well_formed(),
        0 <= stream < watched.stream_ids.len(),
        watched.stream_ids[stream] != id,
    ensures
        watched.observed(stream, id).body(watched.stream_ids[stream]) == Seq::<u8>::empty(),
        watched.observed(stream, id).last_seen[stream] == 0,
        !watched.stream_ids.contains(id) ==> watched.observed(stream, id).body(id) == Seq::<
            u8,
        >::empty(),
{
}

/// What one stream carries is not touched by what happens on another that carries another
/// response.
pub proof fn law_streams_are_independent(
    watched: Watched,
    stream: int,
    other: int,
    id: u64,
    slot: usize,
    bytes: Seq<u8>,
    end: bool,
)
    requires
        watched.well_formed(),
        0 <= stream < watched.stream_ids.len(),
        0 <= other < watched.stream_ids.len(),
        watched.stream_ids[stream] != watched.stream_ids[other],
    ensures
        watched.observed(stream, id).stream_ids[other] == watched.stream_ids[other],
        watched.observed(stream, id).last_seen[other] == watched.last_seen[other],
        watched.observed(stream, id).body(watched.stream_ids[other]) == watched.body(
            watched.stream_ids[other],
        ),
        watched.accepted(stream, slot, bytes, end).last_seen == watched.last_seen,
        watched.accepted(stream, slot, bytes, end).body(watched.stream_ids[other])
            == watched.body(watched.stream_ids[other]),
{
}

proof fn lemma_asked_in_turn(slot: int, slots: Seq<Slot>)
    ensures
        asked(slot, slots).len() <= slots.len(),
        forall|i: int|
            0 <= i < asked(slot, slots).len() ==> #[trigger] asked(slot, slots)[i] == slot + i,
        !ends(slot, slots) ==> asked(slot, slots).len() == slots.len(),
    decreases slots.len(),
{
    if slots.len() > 0 {
        let rest = slots.skip(1);
        lemma_asked_in_turn(slot + 1, rest);
        if !ends(slot, slots) {
            assert(slots[0] == slots[0]);
            if ends(slot + 1, rest) {
                let at = choose|i: int|
                    0 <= i < rest.len() && slot + 1 + i != 1 && (#[trigger] rest[i] matches
                        Slot::Held(_, end) && end);
                assert(slots[at + 1] == rest[at]);
            }
        }
    }
}

proof fn lemma_slots_leave_positions(watched: Watched, stream: int, slot: usize, slots: Seq<Slot>)
    ensures
        watched.after_slots(stream, slot, slots).last_seen == watched.last_seen,
        watched.after_slots(stream, slot, slots).stream_ids == watched.stream_ids,
    decreases slots.len(),
{
    if slots.len() > 0 {
        let next = (slot + 1) as usize;
        match slots[0] {
            Slot::Gone => lemma_slots_leave_positions(watched, stream, next, slots.skip(1)),
            Slot::Held(bytes, end) => lemma_slots_leave_positions(
                watched.accepted(stream, slot, bytes, end),
                stream,
                next,
                slots.skip(1),
            ),
        }
    }
}

/// The last slot of a response that was seen before polls of it: none where the stream carried
/// another response.
pub open spec fn seen_before(watched: Watched, stream: int, id: u64) -> usize {
    watched.observed(stream, id).last_seen[stream]
}

/// A poll asks for the slots that have not been seen yet, one after the other from the first,
/// and for none behind the last that the response has. It asks for all of them, unless one of
/// them ends the response. Afterwards they have been seen.
pub proof fn law_poll_asks_for_unseen_slots(watched: Watched, stream: int, id: u64, poll: Poll)
    requires
        0 <= stream < watched.stream_ids.len(),
        watched.last_seen.len() == watched.stream_ids.len(),
        watched.fits(stream, id, poll),
    ensures
        ({
            let asked_for = watched.asked_in_poll(stream, id, poll);
            let before = seen_before(watched, stream, id);
            let after = watched.after_poll(stream, id, poll);
            &&& forall|i: int|
                0 <= i < asked_for.len() ==> #[trigger] asked_for[i] == before + 1 + i
            &&& before + asked_for.len() <= after.last_seen[stream]
            &&& asked_for.len() > 0 ==> before + asked_for.len() <= poll.last
            &&& !ends(before + 1, poll.slots) && poll.last > before ==> asked_for.len()
                == poll.last - before
            &&& after.last_seen[stream] == if poll.last > before {
                poll.last
            } else {
                before
            }
            &&& after.stream_ids[stream] == id
            &&& after.stream_ids.len() == watched.stream_ids.len()
            &&& after.last_seen.len() == watched.last_seen.len()
        }),
{
    let observed = watched.observed(stream, id);
    if let Some((first, last)) = observed.unseen(stream, poll.last) {
        lemma_asked_in_turn(first as int, poll.slots);
        lemma_slots_leave_positions(observed, stream, first, poll.slots);
    }
}

/// Over a run of polls in which a stream carries one response, each slot is asked for at most
/// once and in increasing order: none that was seen before the run, and none behind the last
/// that the response has been told to have.
pub proof fn law_slots_are_asked_for_once(
    watched: Watched,
    stream: int,
    id: u64,
    polls: Seq<Poll>,
)
    requires
        0 <= stream < watched.stream_ids.len(),
        watched.last_seen.len() == watched.stream_ids.len(),
        watched.all_fit(stream, id, polls),
    ensures
        ({
            let asked_for = watched.asked_in_polls(stream, id, polls);
            let after = watched.after_polls(stream, id, polls);
            &&& forall|i: int, j: int|
                0 <= i < j < asked_for.len() ==> #[trigger] asked_for[i] < #[trigger] asked_for[j]
            &&& forall|i: int|
                0 <= i < asked_for.len() ==> seen_before(watched, stream, id)
                    < #[trigger] asked_for[i] <= seen_before(after, stream, id)
            &&& seen_before(after, stream, id) >= seen_before(watched, stream, id)
            &&& seen_before(after, stream, id) == seen_before(watched, stream, id) || exists|i: int|
                0 <= i < polls.len() && (#[trigger] polls[i]).last == seen_before(after, stream, id)
            &&& after.stream_ids.len() == watched.stream_ids.len()
            &&& after.last_seen.len() == watched.last_seen.len()
        }),
    decreases polls.len(),
{
    if polls.len() > 0 {
        let shorter = polls.drop_last();
        law_slots_are_asked_for_once(watched, stream, id, shorter);
        let middle = watched.after_polls(stream, id, shorter);
        let last = polls.last();
        law_poll_asks_for_unseen_slots(middle, stream, id, last);
        let first = watched.asked_in_polls(stream, id, shorter);
        let second = middle.asked_in_poll(stream, id, last);
        let all = watched.asked_in_polls(stream, id, polls);
        let after = watched.after_polls(stream, id, polls);
        assert(all == first + second);
        assert forall|i: int| 0 <= i < all.len() implies seen_before(watched, stream, id)
            < #[trigger] all[i] <= seen_before(after, stream, id) by {
            if i < first.len() {
                assert(all[i] == first[i]);
            } else {
                assert(all[i] == second[i - first.len()]);
            }
        }
        assert forall|i: int, j: int| 0 <= i < j < all.len() implies #[trigger] all[i]
            < #[trigger] all[j] by {
            if j < first.len() {
                assert(all[i] == first[i] && all[j] == first[j]);
            } else {
                assert(all[j] == second[j - first.len()]);
                if i < first.len() {
                    assert(all[i] == first[i]);
                } else {
                    assert(all[i] == second[i - first.len()]);
                }
            }
        }
        if last.last > seen_before(middle, stream, id) {
            assert(polls[polls.len() - 1].last == seen_before(after, stream, id));
        } else if seen_before(middle, stream, id) != seen_before(watched, stream, id) {
            let at = choose|i: int|
                0 <= i < shorter.len() && (#[trigger] shorter[i]).last == seen_before(
                    middle,
                    stream,
                    id,
                );
            assert(polls[at].last == seen_before(after, stream, id));
        }
    }
}

proof fn lemma_ends_apart(slot: int, first: Seq<Slot>, second: Seq<Slot>)
    ensures
        ends(slot, first + second) <==> ends(slot, first) || ends(slot + first.len(), second),
{
    let all = first + second;
    if ends(slot, all) {
        let at = choose|i: int|
            0 <= i < all.len() && slot + i != 1 && (#[trigger] all[i] matches Slot::Held(_, end)
                && end);
        if at < first.len() {
            assert(first[at] == all[at]);
        } else {
            assert(second[at - first.len()] == all[at]);
        }
    }
    if ends(slot, first) {
        let at = choose|i: int|
            0 <= i < first.len() && slot + i != 1 && (#[trigger] first[i] matches Slot::Held(
                _,
                end,
            ) && end);
        assert(all[at] == first[at]);
    }
    if ends(slot + first.len(), second) {
        let at = choose|i: int|
            0 <= i < second.len() && slot + first.len() + i != 1 && (#[trigger] second[i] matches
                Slot::Held(_, end) && end);
        assert(all[first.len() + at] == second[at]);
    }
}

proof fn lemma_ends_later(slot: int, slots: Seq<Slot>)
    requires
        slots.len() > 0,
    ensures
        ends(slot, slots) <==> (slot != 1 && (slots[0] matches Slot::Held(_, end) && end)) || ends(
            slot + 1,
            slots.skip(1),
        ),
{
    let head = seq![slots[0]];
    assert(head + slots.skip(1) =~= slots);
    lemma_ends_apart(slot, head, slots.skip(1));
    if slot != 1 && (slots[0] matches Slot::Held(_, end) && end) {
        assert(head[0] == slots[0]);
    }
}

proof fn lemma_body_bytes_add_up(slot: int, first: Seq<Slot>, second: Seq<Slot>)
    requires
        !ends(slot, first),
    ensures
        body_bytes(slot, first + second) == body_bytes(slot, first) + body_bytes(
            slot + first.len(),
            second,
        ),
    decreases first.len(),
{
    if first.len() == 0 {
        assert(first + second =~= second);
        assert(body_bytes(slot, first) + body_bytes(slot, second) =~= body_bytes(slot, second));
    } else {
        lemma_ends_later(slot, first);
        lemma_body_bytes_add_up(slot + 1, first.skip(1), second);
        assert((first + second).skip(1) =~= first.skip(1) + second);
        assert((first + second)[0] == first[0]);
        assert(body_bytes(slot, first + second) =~= body_bytes(slot, first) + body_bytes(
            slot + first.len(),
            second,
        ));
    }
}

proof fn lemma_body_of_slots(watched: Watched, stream: int, slot: usize, slots: Seq<Slot>)
    requires
        0 <= stream < watched.stream_ids.len(),
        slot + slots.len() - 1 <= usize::MAX,
    ensures
        ({
            let id = watched.stream_ids[stream];
            let body = watched.body(id) + body_bytes(slot as int, slots);
            let after = watched.after_slots(stream, slot, slots);
            &&& !ends(slot as int, slots) ==> after.body(id) == body && watched.told_in_slots(
                stream,
                slot,
                slots,
            ) is None
            &&& ends(slot as int, slots) ==> after.body(id) == Seq::<u8>::empty()
                && watched.told_in_slots(stream, slot, slots) == Some(body_transcript(body))
        }),
    decreases slots.len(),
{
    let id = watched.stream_ids[stream];
    if slots.len() == 0 {
        assert(watched.body(id) + body_bytes(slot as int, slots) =~= watched.body(id));
    } else {
        let rest = slots.skip(1);
        lemma_ends_later(slot as int, slots);
        reveal_with_fuel(body_bytes, 2);
        reveal_with_fuel(Watched::after_slots, 2);
        reveal_with_fuel(Watched::told_in_slots, 2);
        match slots[0] {
            Slot::Gone => {
                if rest.len() > 0 {
                    lemma_body_of_slots(watched, stream, (slot + 1) as usize, rest);
                } else {
                    assert(watched.body(id) + body_bytes(slot as int, slots) =~= watched.body(
                        id,
                    ));
                }
            },
            Slot::Held(bytes, end) => {
                if slot != 1 && end {
                    assert(watched.body(id) + body_bytes(slot as int, slots) =~= watched.body(
                        id,
                    ));
                } else {
                    let next = watched.accepted(stream, slot, bytes, end);
                    assert(next.body(id) + body_bytes(slot + 1, rest) =~= watched.body(id)
                        + body_bytes(slot as int, slots));
                    if rest.len() > 0 {
                        lemma_body_of_slots(next, stream, (slot + 1) as usize, rest);
                    } else {
                        assert(next.body(id) + body_bytes(slot + 1, rest) =~= next.body(id));
                    }
                }
            },
        }
    }
}

proof fn lemma_body_of_polls(watched: Watched, stream: int, id: u64, polls: Seq<Poll>)
    requires
        0 <= stream < watched.stream_ids.len(),
        watched.last_seen.len() == watched.stream_ids.len(),
        watched.all_fit(stream, id, polls),
        !ends(seen_before(watched, stream, id) + 1, slots_of(polls)),
    ensures
        watched.after_polls(stream, id, polls).body(id) == watched.body(id) + body_bytes(
            seen_before(watched, stream, id) + 1,
            slots_of(polls),
        ),
        seen_before(watched.after_polls(stream, id, polls), stream, id) == seen_before(
            watched,
            stream,
            id,
        ) + slots_of(polls).len(),
    decreases polls.len(),
{
    let first = seen_before(watched, stream, id) + 1;
    if polls.len() == 0 {
        assert(watched.body(id) + body_bytes(first, slots_of(polls)) =~= watched.body(id));
    } else {
        let shorter = polls.drop_last();
        let last = polls.last();
        lemma_ends_apart(first, slots_of(shorter), last.slots);
        lemma_body_of_polls(watched, stream, id, shorter);
        lemma_body_bytes_add_up(first, slots_of(shorter), last.slots);
        lemma_body_of_poll(watched, stream, id, shorter, last);
    }
}

proof fn lemma_body_of_poll(
    watched: Watched,
    stream: int,
    id: u64,
    polls: Seq<Poll>,
    poll: Poll,
)
    requires
        0 <= stream < watched.stream_ids.len(),
        watched.last_seen.len() == watched.stream_ids.len(),
        watched.all_fit(stream, id, polls),
        watched.after_polls(stream, id, polls).fits(stream, id, poll),
        !ends(seen_before(watched, stream, id) + 1, slots_of(polls)),
        watched.after_polls(stream, id, polls).body(id) == watched.body(id) + body_bytes(
            seen_before(watched, stream, id) + 1,
            slots_of(polls),
        ),
        seen_before(watched.after_polls(stream, id, polls), stream, id) == seen_before(
            watched,
            stream,
            id,
        ) + slots_of(polls).len(),
    ensures
        ({
            let first = seen_before(watched, stream, id) + 1;
            let slots = slots_of(polls) + poll.slots;
            let body = watched.body(id) + body_bytes(first, slots);
            let middle = watched.after_polls(stream, id, polls);
            let after = middle.after_poll(stream, id, poll);
            &&& !ends(first, slots) ==> after.body(id) == body && middle.told_in_poll(
                stream,
                id,
                poll,
            ) is None
            &&& ends(first, slots) ==> after.body(id) == Seq::<u8>::empty()
                && middle.told_in_poll(stream, id, poll) == Some(body_transcript(body))
            &&& seen_before(after, stream, id) == seen_before(middle, stream, id)
                + poll.slots.len()
        }),
{
    let before = seen_before(watched, stream, id);
    let middle = watched.after_polls(stream, id, polls);
    law_slots_are_asked_for_once(watched, stream, id, polls);
    law_poll_asks_for_unseen_slots(middle, stream, id, poll);
    lemma_ends_apart(before + 1, slots_of(polls), poll.slots);
    lemma_body_bytes_add_up(before + 1, slots_of(polls), poll.slots);
    let observed = middle.observed(stream, id);
    assert(observed.stream_ids[stream] == id);
    assert(observed.body(id) == middle.body(id));
    let body = watched.body(id) + body_bytes(before + 1, slots_of(polls) + poll.slots);
    assert(middle.body(id) + body_bytes(before + slots_of(polls).len() + 1, poll.slots) =~= body);
    if let Some((first, last)) = observed.unseen(stream, poll.last) {
        lemma_body_of_slots(observed, stream, first, poll.slots);
        let taken = observed.after_slots(stream, first, poll.slots);
        assert(taken.seen(stream, last).body(id) == taken.body(id));
    } else {
        assert(middle.body(id) + body_bytes(
            before + slots_of(polls).len() + 1,
            poll.slots,
        ) =~= middle.body(id));
    }
}

/// The body that is collected of a response is what its slots hold, in order, besides the head
/// and the slots that are gone. That is so after each poll of a run in which the stream carries
/// the response, as long as no slot ends it. The poll with the slot that ends it tells the
/// transcript of that body, up to that slot, and leaves none of it. The body adds to what was
/// collected before, which for a new response is nothing.
pub proof fn law_body_is_the_slots_in_order(
    watched: Watched,
    stream: int,
    id: u64,
    polls: Seq<Poll>,
    poll: Poll,
)
    requires
        watched.well_formed(),
        0 <= stream < watched.stream_ids.len(),
        watched.all_fit(stream, id, polls.push(poll)),
        !ends(seen_before(watched, stream, id) + 1, slots_of(polls)),
    ensures
        ({
            let first = seen_before(watched, stream, id) + 1;
            let slots = slots_of(polls.push(poll));
            let body = watched.body(id) + body_bytes(first, slots);
            let middle = watched.after_polls(stream, id, polls);
            let after = watched.after_polls(stream, id, polls.push(poll));
            &&& !ends(first, slots) ==> after.body(id) == body && middle.told_in_poll(
                stream,
                id,
                poll,
            ) is None
            &&& ends(first, slots) ==> after.body(id) == Seq::<u8>::empty()
                && middle.told_in_poll(stream, id, poll) == Some(body_transcript(body))
        }),
        !watched.stream_ids.contains(id) ==> seen_before(watched, stream, id) == 0 && watched.body(
            id,
        ) == Seq::<u8>::empty(),
{
    let all = polls.push(poll);
    assert(all.drop_last() =~= polls);
    assert(all.last() == poll);
    lemma_body_of_polls(watched, stream, id, polls);
    lemma_body_of_poll(watched, stream, id, polls, poll);
    if !watched.stream_ids.contains(id) {
        assert(watched.stream_ids[stream] != id);
    }
}

} // verus!
