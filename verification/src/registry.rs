//! The registry: the one owner of the room's membership. It issues an
//! identity at each join and says, for each operation, which line goes to
//! which member.

use crate::room::{
    addressees, distinct_ids, has_member, join_notices, leave_notices, lemma_without_absent,
    lemma_without_one, name_of, names, notify_all, post_notices, without, Member, Notice,
};
use crate::slots::{
    entries, is_key_bits, table_get, table_insert, table_new, table_remove, ClientId, NameTable,
    SLOT_LIMIT,
};
use crate::text;
use vstd::prelude::*;

verus! {

/// A line on its way to one member.
#[derive(Clone, PartialEq, Eq, Debug)]
pub struct Delivery {
    pub to: ClientId,
    pub line: String,
}

impl DeepView for Delivery {
    type V = Notice;

    open spec fn deep_view(&self) -> Notice {
        Notice { to: self.to, line: self.line@ }
    }
}

/// The members of the room, in the order in which they joined.
pub struct Registry {
    names: NameTable,
    order: Vec<ClientId>,
}

impl View for Registry {
    type V = Seq<Member>;

    closed spec fn view(&self) -> Seq<Member> {
        Seq::new(
            self.order@.len(),
            |i: int| Member { id: self.order@[i], name: entries(self.names)[self.order@[i].0] },
        )
    }
}

impl Registry {
    /// The names are stored under exactly the identities in `order`, each of
    /// which occurs once and has the shape of a key.
    pub closed spec fn wf(&self) -> bool {
        &&& entries(self.names).dom().finite()
        &&& entries(self.names).len() == self.order@.len()
        &&& self.order@.no_duplicates()
        &&& forall|i: int|
            0 <= i < self.order@.len() ==> entries(self.names).contains_key(
                (#[trigger] self.order@[i]).0,
            )
        &&& forall|k: u64| #[trigger]
            entries(self.names).contains_key(k) ==> is_key_bits(k) && self.order@.contains(
                ClientId(k),
            )
    }

    /// In a well-formed registry no two members share an identity.
    pub proof fn lemma_distinct(&self)
        requires
            self.wf(),
        ensures
            distinct_ids(self@),
    {
    }

    /// Membership in the view is membership in `order`.
    proof fn lemma_member(&self, id: ClientId)
        requires
            self.wf(),
        ensures
            has_member(self@, id) == self.order@.contains(id),
            has_member(self@, id) == entries(self.names).contains_key(id.0),
            has_member(self@, id) ==> name_of(self@, id) == Some(entries(self.names)[id.0]),
    {
        if self.order@.contains(id) {
            let i = choose|i: int| 0 <= i < self.order@.len() && self.order@[i] == id;
            assert(self@[i].id == id);
        }
        if has_member(self@, id) {
            let i = choose|i: int| 0 <= i < self@.len() && (#[trigger] self@[i]).id == id;
            assert(self.order@[i] == id);
        }
    }

    /// An empty room.
    pub fn new() -> (registry: Registry)
        ensures
            registry.wf(),
            registry@ == Seq::<Member>::empty(),
    {
        let registry = Registry { names: table_new(), order: Vec::new() };
        assert(registry@ =~= Seq::<Member>::empty());
        registry
    }

    /// The number of members.
    pub fn len(&self) -> (n: usize)
        requires
            self.wf(),
        ensures
            n == self@.len(),
    {
        self.order.len()
    }

    /// `line` for each member in joining order, but for `skip`.
    fn fan_out(&self, skip: Option<ClientId>, line: &String) -> (out: Vec<Delivery>)
        requires
            self.wf(),
        ensures
            out.deep_view() == notify_all(addressees(self@, skip), line@),
    {
        let mut out: Vec<Delivery> = Vec::new();
        let ghost room = self@;
        let mut i: usize = 0;
        proof {
            reveal(Seq::filter);
            assert(room.take(0) =~= Seq::empty());
            assert(out.deep_view() =~= Seq::empty());
        }
        while i < self.order.len()
            invariant
                i <= self.order@.len(),
                room == self@,
                room.len() == self.order@.len(),
                out.deep_view() == notify_all(addressees(room.take(i as int), skip), line@),
            decreases self.order@.len() - i,
        {
            let to = self.order[i];
            let ghost before = out.deep_view();
            let keep = match skip {
                Some(id) => to != id,
                None => true,
            };
            if keep {
                out.push(Delivery { to, line: line.clone() });
            }
            proof {
                reveal(Seq::filter);
                let now = room.take(i + 1);
                assert(now.drop_last() =~= room.take(i as int));
                assert(now.last() == room[i as int]);
                assert(room[i as int].id == to);
                if keep {
                    assert(out.deep_view() =~= before.push(Notice { to, line: line@ }));
                    let kept = addressees(room.take(i as int), skip);
                    let kept_now = addressees(now, skip);
                    assert(kept_now =~= kept.push(room[i as int]));
                    assert(notify_all(kept_now, line@) =~= notify_all(kept, line@).push(
                        Notice { to, line: line@ },
                    ));
                } else {
                    assert(out.deep_view() =~= before);
                }
            }
            i += 1;
        }
        proof {
            assert(room.take(i as int) =~= room);
        }
        out
    }

    /// The members' names, in joining order.
    pub fn roster(&self) -> (list: Vec<String>)
        requires
            self.wf(),
        ensures
            list.deep_view() == names(self@),
    {
        let mut list: Vec<String> = Vec::new();
        let mut i: usize = 0;
        proof {
            assert(list.deep_view() =~= names(self@).take(0));
        }
        while i < self.order.len()
            invariant
                i <= self.order@.len(),
                self.wf(),
                list.deep_view() == names(self@).take(i as int),
            decreases self.order@.len() - i,
        {
            let ghost before = list.deep_view();
            let id = self.order[i];
            proof {
                assert(entries(self.names).contains_key(self.order@[i as int].0));
            }
            match table_get(&self.names, id.0) {
                Some(name) => {
                    list.push(name.clone());
                    proof {
                        assert(list.deep_view() =~= before.push(name@));
                        assert(names(self@).take(i + 1) =~= names(self@).take(i as int).push(
                            name@,
                        ));
                    }
                },
                None => {
                    proof {
                        assert(false);
                    }
                },
            }
            i += 1;
        }
        proof {
            assert(names(self@).take(i as int) =~= names(self@));
        }
        list
    }

    /// Admits a client under `name`: issues its identity, and tells the
    /// earlier members of it and the newcomer of them.
    pub fn join(&mut self, name: String) -> (admitted: (ClientId, Vec<Delivery>))
        requires
            old(self).wf(),
            old(self)@.len() < SLOT_LIMIT,
        ensures
            final(self).wf(),
            !has_member(old(self)@, admitted.0),
            final(self)@ == old(self)@.push(Member { id: admitted.0, name: name@ }),
            admitted.1.deep_view() == join_notices(old(self)@, admitted.0, name@),
    {
        let earlier = self.roster();
        let roster_line = text::roster(&earlier);
        let entered = text::entered(name.as_str());
        let mut out = self.fan_out(None, &entered);
        let ghost heralds = out.deep_view();
        let ghost room = self@;
        let ghost table = entries(self.names);
        let bits = table_insert(&mut self.names, name);
        let id = ClientId(bits);
        self.order.push(id);
        out.push(Delivery { to: id, line: roster_line });
        proof {
            assert(out.deep_view() =~= heralds.push(Notice { to: id, line: roster_line@ }));
            assert(!has_member(room, id)) by {
                if has_member(room, id) {
                    let i = choose|i: int| 0 <= i < room.len() && (#[trigger] room[i]).id == id;
                    assert(table.contains_key(old(self).order@[i].0));
                }
            }
            assert forall|i: int| 0 <= i < old(self).order@.len() implies old(self).order@[i]
                != id by {
                assert(table.contains_key(old(self).order@[i].0));
            }
            assert(self@ =~= room.push(Member { id, name: name@ })) by {
                assert forall|i: int| 0 <= i < room.len() implies self@[i] == room[i] by {
                    assert(table.contains_key(old(self).order@[i].0));
                }
            }
            assert forall|k: u64| #[trigger]
                entries(self.names).contains_key(k) implies is_key_bits(k)
                && self.order@.contains(ClientId(k)) by {
                if k == bits {
                    assert(self.order@[old(self).order@.len() as int] == ClientId(k));
                } else {
                    assert(table.contains_key(k));
                    let i = choose|i: int|
                        0 <= i < old(self).order@.len() && old(self).order@[i] == ClientId(k);
                    assert(self.order@[i] == ClientId(k));
                }
            }
            assert forall|i: int| 0 <= i < self.order@.len() implies entries(
                self.names,
            ).contains_key((#[trigger] self.order@[i]).0) by {
                if i < old(self).order@.len() {
                    assert(table.contains_key(old(self).order@[i].0));
                }
            }
        }
        (id, out)
    }

    /// Whether `id` is a member.
    pub fn contains(&self, id: ClientId) -> (present: bool)
        requires
            self.wf(),
        ensures
            present == has_member(self@, id),
    {
        proof {
            self.lemma_member(id);
        }
        if id.0 & 0x1_0000_0000 == 0 {
            return false;
        }
        table_get(&self.names, id.0).is_some()
    }

    /// The name under which `id` joined, if it is a member.
    pub fn name(&self, id: ClientId) -> (found: Option<String>)
        requires
            self.wf(),
        ensures
            found.deep_view() == name_of(self@, id),
    {
        proof {
            self.lemma_member(id);
        }
        if id.0 & 0x1_0000_0000 == 0 {
            return None;
        }
        match table_get(&self.names, id.0) {
            Some(name) => Some(name.clone()),
            None => None,
        }
    }

    /// The position of `id` in the joining order.
    fn position(&self, id: ClientId) -> (at: usize)
        requires
            self.order@.contains(id),
        ensures
            at < self.order@.len(),
            self.order@[at as int] == id,
    {
        let mut at: usize = 0;
        while at < self.order.len()
            invariant
                at <= self.order@.len(),
                forall|j: int| 0 <= j < at ==> self.order@[j] != id,
            decreases self.order@.len() - at,
        {
            if self.order[at] == id {
                return at;
            }
            at += 1;
        }
        proof {
            let i = choose|i: int| 0 <= i < self.order@.len() && self.order@[i] == id;
            assert(self.order@[i] != id);
        }
        0
    }

    /// Takes `id` out of the room and tells the remaining members; does
    /// nothing, and sends nothing, when `id` is no member.
    pub fn leave(&mut self, id: ClientId) -> (out: Vec<Delivery>)
        requires
            old(self).wf(),
        ensures
            final(self).wf(),
            final(self)@ == without(old(self)@, id),
            out.deep_view() == leave_notices(old(self)@, id),
    {
        let ghost room = self@;
        let ghost table = entries(self.names);
        proof {
            self.lemma_member(id);
            self.lemma_distinct();
            if !has_member(room, id) {
                lemma_without_absent(room, id);
            }
        }
        if id.0 & 0x1_0000_0000 == 0 {
            let out: Vec<Delivery> = Vec::new();
            assert(out.deep_view() =~= Seq::empty());
            return out;
        }
        match table_remove(&mut self.names, id.0) {
            None => {
                let out: Vec<Delivery> = Vec::new();
                assert(out.deep_view() =~= Seq::empty());
                assert(self@ =~= room);
                out
            },
            Some(name) => {
                let at = self.position(id);
                self.order.remove(at);
                proof {
                    let before = old(self).order@;
                    let after = self.order@;
                    assert(after =~= before.remove(at as int));
                    assert forall|i: int| 0 <= i < after.len() implies #[trigger] after[i] != id
                        && before.contains(after[i]) && table.contains_key(after[i].0) by {
                        if i < at {
                            assert(after[i] == before[i]);
                        } else {
                            assert(after[i] == before[i + 1]);
                        }
                    }
                    assert(self@ =~= room.remove(at as int)) by {
                        assert forall|i: int| 0 <= i < after.len() implies self@[i] == room.remove(
                            at as int,
                        )[i] by {
                            if i < at {
                                assert(after[i] == before[i]);
                            } else {
                                assert(after[i] == before[i + 1]);
                            }
                        }
                    }
                    lemma_without_one(room, id, at as int);
                    assert forall|k: u64| #[trigger]
                        entries(self.names).contains_key(k) implies is_key_bits(k)
                        && after.contains(ClientId(k)) by {
                        assert(table.contains_key(k));
                        let i = choose|i: int| 0 <= i < before.len() && before[i] == ClientId(k);
                        if i < at {
                            assert(after[i] == ClientId(k));
                        } else {
                            assert(after[i - 1] == ClientId(k));
                        }
                    }
                }
                let line = text::left(name.as_str());
                self.fan_out(None, &line)
            },
        }
    }

    /// The message `text` from `from` for each other member; nothing when
    /// `from` is no member.
    pub fn post(&self, from: ClientId, text: &str) -> (out: Vec<Delivery>)
        requires
            self.wf(),
        ensures
            out.deep_view() == post_notices(self@, from, text@),
    {
        proof {
            self.lemma_member(from);
        }
        if from.0 & 0x1_0000_0000 == 0 {
            let out: Vec<Delivery> = Vec::new();
            assert(out.deep_view() =~= Seq::empty());
            return out;
        }
        match table_get(&self.names, from.0) {
            None => {
                let out: Vec<Delivery> = Vec::new();
                assert(out.deep_view() =~= Seq::empty());
                out
            },
            Some(name) => {
                let line = text::post(name.as_str(), text);
                self.fan_out(Some(from), &line)
            },
        }
    }
}

} // verus!
