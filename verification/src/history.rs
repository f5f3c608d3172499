//! The room as the outcome of everything the registry has processed.

use crate::room::{join_notices, names, without, Member, Notice};
use crate::slots::ClientId;
use crate::text::roster_line;
use vstd::prelude::*;

verus! {

/// A change of membership that the registry has processed.
pub enum Event {
    Join { id: ClientId, name: Seq<char> },
    Leave { id: ClientId },
}

/// The room after one more event.
pub open spec fn apply(room: Seq<Member>, event: Event) -> Seq<Member> {
    match event {
        Event::Join { id, name } => room.push(Member { id, name }),
        Event::Leave { id } => without(room, id),
    }
}

/// The room after `events`, processed in order on an empty room.
pub open spec fn replay(events: Seq<Event>) -> Seq<Member>
    decreases events.len(),
{
    if events.len() == 0 {
        Seq::empty()
    } else {
        apply(replay(events.drop_last()), events.last())
    }
}

/// The event at `at` is a join that no later event of `events` undoes.
pub open spec fn stays(events: Seq<Event>, at: int) -> bool {
    match events[at] {
        Event::Join { id, name } => forall|k: int|
            at < k < events.len() ==> #[trigger] events[k] != (Event::Leave { id }),
        Event::Leave { id } => false,
    }
}

/// Those who joined among the first `upto` events and have not left by the
/// end of `events`, in the order of their joins.
pub open spec fn present(events: Seq<Event>, upto: int) -> Seq<Member>
    decreases upto,
{
    if upto <= 0 {
        Seq::empty()
    } else {
        match events[upto - 1] {
            Event::Join { id, name } if stays(events, upto - 1) => present(events, upto - 1).push(
                Member { id, name },
            ),
            _ => present(events, upto - 1),
        }
    }
}

/// A join at the end leaves the earlier joins as they were.
proof fn lemma_present_after_join(events: Seq<Event>, upto: int)
    requires
        events.len() > 0,
        events.last() is Join,
        0 <= upto < events.len(),
    ensures
        present(events, upto) == present(events.drop_last(), upto),
    decreases upto,
{
    if upto > 0 {
        let earlier = events.drop_last();
        lemma_present_after_join(events, upto - 1);
        assert(earlier[upto - 1] == events[upto - 1]);
        match events[upto - 1] {
            Event::Join { id, name } => {
                if stays(earlier, upto - 1) {
                    assert forall|k: int| upto - 1 < k < events.len() implies #[trigger] events[k]
                        != (Event::Leave { id }) by {
                        if k < earlier.len() {
                            assert(earlier[k] == events[k]);
                        }
                    }
                }
                if stays(events, upto - 1) {
                    assert forall|k: int| upto - 1 < k < earlier.len() implies #[trigger] earlier[k]
                        != (Event::Leave { id }) by {
                        assert(earlier[k] == events[k]);
                    }
                }
            },
            Event::Leave { id } => {},
        }
    }
}

/// A leave at the end takes the leaver out of the earlier joins.
proof fn lemma_present_after_leave(events: Seq<Event>, upto: int, gone: ClientId)
    requires
        events.len() > 0,
        events.last() == (Event::Leave { id: gone }),
        0 <= upto < events.len(),
    ensures
        present(events, upto) == without(present(events.drop_last(), upto), gone),
    decreases upto,
{
    reveal(Seq::filter);
    if upto > 0 {
        let earlier = events.drop_last();
        lemma_present_after_leave(events, upto - 1, gone);
        assert(earlier[upto - 1] == events[upto - 1]);
        match events[upto - 1] {
            Event::Join { id, name } => {
                let member = Member { id, name };
                if stays(earlier, upto - 1) {
                    let before = present(earlier, upto - 1);
                    assert(before.push(member).drop_last() =~= before);
                    if id != gone {
                        assert forall|k: int|
                            upto - 1 < k < events.len() implies #[trigger] events[k] != (
                        Event::Leave { id }) by {
                            if k < earlier.len() {
                                assert(earlier[k] == events[k]);
                            }
                        }
                    } else {
                        assert(events[events.len() - 1] == (Event::Leave { id }));
                    }
                }
                if stays(events, upto - 1) {
                    assert(events[events.len() - 1] != (Event::Leave { id }));
                    assert forall|k: int| upto - 1 < k < earlier.len() implies #[trigger] earlier[k]
                        != (Event::Leave { id }) by {
                        assert(earlier[k] == events[k]);
                    }
                }
            },
            Event::Leave { id } => {},
        }
    }
}

/// After any sequence of joins and leaves the room holds exactly those who
/// joined and have not left since, in the order of their joins.
pub proof fn lemma_room_holds_those_present(events: Seq<Event>)
    ensures
        replay(events) == present(events, events.len() as int),
    decreases events.len(),
{
    if events.len() > 0 {
        let earlier = events.drop_last();
        lemma_room_holds_those_present(earlier);
        match events.last() {
            Event::Join { id, name } => {
                lemma_present_after_join(events, events.len() - 1);
                assert(stays(events, events.len() - 1));
            },
            Event::Leave { id } => {
                lemma_present_after_leave(events, events.len() - 1, id);
            },
        }
    }
}

/// The roster that a newcomer gets lists exactly those who joined before it
/// and had not left, in the order of their joins.
pub proof fn lemma_roster_lists_those_present(events: Seq<Event>, id: ClientId, name: Seq<char>)
    ensures
        join_notices(replay(events), id, name).last() == (Notice {
            to: id,
            line: roster_line(names(present(events, events.len() as int))),
        }),
{
    lemma_room_holds_those_present(events);
}

} // verus!
