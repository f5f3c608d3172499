//! The room as a mathematical value: its members in the order in which they
//! joined, and the notices that each operation of the registry sends.

use crate::slots::ClientId;
use crate::text::{entered_line, left_line, post_line, roster_line};
use vstd::prelude::*;

verus! {

/// A joined client.
pub struct Member {
    pub id: ClientId,
    pub name: Seq<char>,
}

/// One line for one recipient.
pub struct Notice {
    pub to: ClientId,
    pub line: Seq<char>,
}

/// Whether some member of `room` has the identity `id`.
pub open spec fn has_member(room: Seq<Member>, id: ClientId) -> bool {
    exists|i: int| 0 <= i < room.len() && (#[trigger] room[i]).id == id
}

/// No two members of `room` share an identity.
pub open spec fn distinct_ids(room: Seq<Member>) -> bool {
    forall|i: int, j: int|
        0 <= i < room.len() && 0 <= j < room.len() && i != j ==> (#[trigger] room[i]).id != (
        #[trigger] room[j]).id
}

/// The name under which `id` joined, if it is a member.
pub open spec fn name_of(room: Seq<Member>, id: ClientId) -> Option<Seq<char>> {
    if has_member(room, id) {
        Some(room[choose|i: int| 0 <= i < room.len() && (#[trigger] room[i]).id == id].name)
    } else {
        None
    }
}

/// The members' names, in joining order.
pub open spec fn names(room: Seq<Member>) -> Seq<Seq<char>> {
    room.map_values(|m: Member| m.name)
}

/// `room` with the member `id` taken out; the others keep their order.
pub open spec fn without(room: Seq<Member>, id: ClientId) -> Seq<Member> {
    room.filter(|m: Member| m.id != id)
}

/// Those a line goes to: all of `room`, or all but `skip`.
pub open spec fn addressees(room: Seq<Member>, skip: Option<ClientId>) -> Seq<Member> {
    match skip {
        Some(id) => without(room, id),
        None => room,
    }
}

/// `line` addressed to each member of `room`, in joining order.
pub open spec fn notify_all(room: Seq<Member>, line: Seq<char>) -> Seq<Notice> {
    room.map_values(|m: Member| Notice { to: m.id, line })
}

/// What a join sends: the entrance notice to each earlier member, then the
/// roster of the earlier members to the newcomer.
pub open spec fn join_notices(room: Seq<Member>, id: ClientId, name: Seq<char>) -> Seq<Notice> {
    notify_all(room, entered_line(name)).push(Notice { to: id, line: roster_line(names(room)) })
}

/// What a leave sends: the departure notice to each remaining member, or
/// nothing when `id` is no member.
pub open spec fn leave_notices(room: Seq<Member>, id: ClientId) -> Seq<Notice> {
    match name_of(room, id) {
        Some(name) => notify_all(without(room, id), left_line(name)),
        None => Seq::empty(),
    }
}

/// What a post sends: the message to each member but its sender, or nothing
/// when the sender is no member.
pub open spec fn post_notices(room: Seq<Member>, from: ClientId, text: Seq<char>) -> Seq<Notice> {
    match name_of(room, from) {
        Some(name) => notify_all(without(room, from), post_line(name, text)),
        None => Seq::empty(),
    }
}

/// Taking out an identity that no member has changes nothing.
pub proof fn lemma_without_absent(room: Seq<Member>, id: ClientId)
    requires
        !has_member(room, id),
    ensures
        without(room, id) == room,
    decreases room.len(),
{
    reveal(Seq::filter);
    if room.len() > 0 {
        let front = room.drop_last();
        assert(room.last() == room[room.len() - 1]);
        assert forall|i: int| 0 <= i < front.len() implies (#[trigger] front[i]).id != id by {
            assert(front[i] == room[i]);
        }
        lemma_without_absent(front, id);
        assert(front.push(room.last()) =~= room);
    }
}

/// Taking out the identity of the one member at `at` removes that position.
pub proof fn lemma_without_one(room: Seq<Member>, id: ClientId, at: int)
    requires
        0 <= at < room.len(),
        room[at].id == id,
        distinct_ids(room),
    ensures
        without(room, id) == room.remove(at),
    decreases room.len(),
{
    reveal(Seq::filter);
    let front = room.drop_last();
    if at == room.len() - 1 {
        assert forall|i: int| 0 <= i < front.len() implies (#[trigger] front[i]).id != id by {
            assert(front[i] == room[i]);
        }
        assert(!has_member(front, id));
        lemma_without_absent(front, id);
        assert(room.remove(at) =~= front);
    } else {
        assert(room.last() == room[room.len() - 1]);
        assert(room.last().id != id);
        assert forall|i: int, j: int|
            0 <= i < front.len() && 0 <= j < front.len() && i != j implies (#[trigger] front[i]).id
            != (#[trigger] front[j]).id by {
            assert(front[i] == room[i]);
            assert(front[j] == room[j]);
        }
        lemma_without_one(front, id, at);
        assert(room.remove(at) =~= front.remove(at).push(room.last()));
    }
}

/// `id` is the recipient of exactly one of `notices`.
pub open spec fn sent_once(notices: Seq<Notice>, id: ClientId) -> bool {
    exists|k: int|
        0 <= k < notices.len() && (#[trigger] notices[k]).to == id && forall|j: int|
            0 <= j < notices.len() && (#[trigger] notices[j]).to == id ==> j == k
}

/// `id` is the recipient of none of `notices`.
pub open spec fn sent_never(notices: Seq<Notice>, id: ClientId) -> bool {
    forall|k: int| 0 <= k < notices.len() ==> (#[trigger] notices[k]).to != id
}

/// Every one of `notices` carries `line`.
pub open spec fn all_carry(notices: Seq<Notice>, line: Seq<char>) -> bool {
    forall|k: int| 0 <= k < notices.len() ==> (#[trigger] notices[k]).line == line
}

/// A line for all of a room reaches each member once, and nobody else.
pub proof fn lemma_notify_all(room: Seq<Member>, line: Seq<char>, id: ClientId)
    requires
        distinct_ids(room),
    ensures
        has_member(room, id) ==> sent_once(notify_all(room, line), id),
        !has_member(room, id) ==> sent_never(notify_all(room, line), id),
        all_carry(notify_all(room, line), line),
{
    let notices = notify_all(room, line);
    if has_member(room, id) {
        let k = choose|k: int| 0 <= k < room.len() && (#[trigger] room[k]).id == id;
        assert(notices[k].to == id);
        assert forall|j: int| 0 <= j < notices.len() && (#[trigger] notices[j]).to == id implies j
            == k by {
            assert(room[j].id == id);
        }
    } else {
        assert forall|j: int| 0 <= j < notices.len() implies (#[trigger] notices[j]).to != id by {
            assert(room[j].id == notices[j].to);
        }
    }
}

/// What is left of a room of distinct members when one is taken out: the
/// others, still distinct, and not the one taken out.
pub proof fn lemma_without_members(room: Seq<Member>, gone: ClientId, id: ClientId)
    requires
        distinct_ids(room),
    ensures
        distinct_ids(without(room, gone)),
        has_member(without(room, gone), id) == (has_member(room, id) && id != gone),
        name_of(without(room, gone), id) == if id != gone {
            name_of(room, id)
        } else {
            None
        },
{
    if has_member(room, gone) {
        let at = choose|i: int| 0 <= i < room.len() && (#[trigger] room[i]).id == gone;
        lemma_without_one(room, gone, at);
        let rest = room.remove(at);
        assert forall|i: int| 0 <= i < rest.len() implies #[trigger] rest[i] == room[if i < at {
            i
        } else {
            i + 1
        }] by {}
        assert(distinct_ids(rest)) by {
            assert forall|i: int, j: int|
                0 <= i < rest.len() && 0 <= j < rest.len() && i != j implies (#[trigger] rest[i]).id
                != (#[trigger] rest[j]).id by {
                let a = if i < at { i } else { i + 1 };
                let b = if j < at { j } else { j + 1 };
                assert(rest[i] == room[a]);
                assert(rest[j] == room[b]);
            }
        }
        if has_member(rest, id) {
            let i = choose|i: int| 0 <= i < rest.len() && (#[trigger] rest[i]).id == id;
            let a = if i < at { i } else { i + 1 };
            assert(rest[i] == room[a]);
            assert(room[a].id == id);
            assert(a != at);
            let c = choose|c: int| 0 <= c < room.len() && (#[trigger] room[c]).id == id;
            assert(c == a);
        }
        if has_member(room, id) && id != gone {
            let c = choose|c: int| 0 <= c < room.len() && (#[trigger] room[c]).id == id;
            let i = if c < at { c } else { c - 1 };
            assert(rest[i] == room[c]);
            assert(rest[i].id == id);
            let d = choose|d: int| 0 <= d < rest.len() && (#[trigger] rest[d]).id == id;
            let a = if d < at { d } else { d + 1 };
            assert(rest[d] == room[a]);
            assert(a == c);
        }
    } else {
        lemma_without_absent(room, gone);
    }
}

/// A post reaches every member but its sender once, under the sender's name,
/// and reaches nobody else; from a sender that is no member it reaches nobody.
pub proof fn lemma_post_reaches_the_others(
    room: Seq<Member>,
    from: ClientId,
    text: Seq<char>,
    id: ClientId,
)
    requires
        distinct_ids(room),
    ensures
        has_member(room, from) && has_member(room, id) && id != from ==> sent_once(
            post_notices(room, from, text),
            id,
        ),
        !(has_member(room, from) && has_member(room, id) && id != from) ==> sent_never(
            post_notices(room, from, text),
            id,
        ),
        has_member(room, from) ==> all_carry(
            post_notices(room, from, text),
            post_line(name_of(room, from).unwrap(), text),
        ),
{
    if has_member(room, from) {
        let line = post_line(name_of(room, from).unwrap(), text);
        lemma_without_members(room, from, id);
        lemma_notify_all(without(room, from), line, id);
    }
}

/// A leave is announced to every remaining member once, under the leaver's
/// name, and to nobody else. A second leave of the same identity changes
/// nothing and announces nothing.
pub proof fn lemma_leave_announced_once(room: Seq<Member>, gone: ClientId, id: ClientId)
    requires
        distinct_ids(room),
    ensures
        has_member(room, gone) && has_member(room, id) && id != gone ==> sent_once(
            leave_notices(room, gone),
            id,
        ),
        !(has_member(room, gone) && has_member(room, id) && id != gone) ==> sent_never(
            leave_notices(room, gone),
            id,
        ),
        has_member(room, gone) ==> all_carry(
            leave_notices(room, gone),
            left_line(name_of(room, gone).unwrap()),
        ),
        !has_member(without(room, gone), gone),
        without(without(room, gone), gone) == without(room, gone),
        leave_notices(without(room, gone), gone) == Seq::<Notice>::empty(),
{
    lemma_without_members(room, gone, gone);
    lemma_without_absent(without(room, gone), gone);
    if has_member(room, gone) {
        let line = left_line(name_of(room, gone).unwrap());
        lemma_without_members(room, gone, id);
        lemma_notify_all(without(room, gone), line, id);
    }
}

/// A join is announced to every earlier member once, and the newcomer gets
/// one line: the roster of the earlier members.
pub proof fn lemma_join_announced(
    room: Seq<Member>,
    id: ClientId,
    name: Seq<char>,
    other: ClientId,
)
    requires
        distinct_ids(room),
        !has_member(room, id),
    ensures
        sent_once(join_notices(room, id, name), id),
        join_notices(room, id, name).last() == (Notice {
            to: id,
            line: roster_line(names(room)),
        }),
        has_member(room, other) ==> sent_once(join_notices(room, id, name), other),
        !has_member(room, other) && other != id ==> sent_never(
            join_notices(room, id, name),
            other,
        ),
        forall|k: int|
            0 <= k < room.len() ==> (#[trigger] join_notices(room, id, name)[k]).line
                == entered_line(name),
{
    let heralds = notify_all(room, entered_line(name));
    let notices = join_notices(room, id, name);
    lemma_notify_all(room, entered_line(name), id);
    lemma_notify_all(room, entered_line(name), other);
    assert(notices[room.len() as int].to == id);
    assert forall|j: int| 0 <= j < notices.len() && (#[trigger] notices[j]).to == id implies j
        == room.len() by {
        if j < room.len() {
            assert(heralds[j].to == id);
        }
    }
    if has_member(room, other) {
        let k = choose|k: int|
            0 <= k < heralds.len() && (#[trigger] heralds[k]).to == other && forall|j: int|
                0 <= j < heralds.len() && (#[trigger] heralds[j]).to == other ==> j == k;
        assert(notices[k].to == other);
        assert forall|j: int|
            0 <= j < notices.len() && (#[trigger] notices[j]).to == other implies j == k by {
            if j < room.len() {
                assert(heralds[j].to == other);
            }
        }
    } else if other != id {
        assert forall|j: int| 0 <= j < notices.len() implies (#[trigger] notices[j]).to
            != other by {
            if j < room.len() {
                assert(heralds[j].to != other);
            }
        }
    }
}

} // verus!
