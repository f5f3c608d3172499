//! The slot map that issues client identities and keeps each client's name.

use slotmap::{DefaultKey, Key, KeyData, SlotMap};
use vstd::prelude::*;

verus! {

/// The identity of a joined client: the integer of the slot-map key that the
/// registry issued for it.
#[derive(Clone, Copy, PartialEq, Eq, Structural, Debug, Hash)]
pub struct ClientId(pub u64);

/// A `SlotMap` of the slotmap crate, from the keys it issues to the names
/// stored under them.
#[verifier::external_body]
pub struct NameTable {
    slots: SlotMap<DefaultKey, String>,
}

/// What a table holds: the name under each live key, the key taken as the
/// 64-bit integer that `KeyData::as_ffi` gives for it.
pub uninterp spec fn entries(table: NameTable) -> Map<u64, Seq<char>>;

/// The number of entries at which a slot map is full: `insert` panics on a
/// full one.
pub const SLOT_LIMIT: usize = 0xffff_fffe;

/// Whether `bits` has the shape of a key's integer: the lowest bit of the
/// version, which is the upper half, is set.
pub open spec fn is_key_bits(bits: u64) -> bool {
    bits & 0x1_0000_0000 != 0
}

/// `SlotMap::new`: an empty slot map.
#[verifier::external_body]
pub(crate) fn table_new() -> (table: NameTable)
    ensures
        entries(table) =~= Map::empty(),
{
    NameTable { slots: SlotMap::new() }
}

/// `SlotMap::insert`, the new key handed out as its integer: the key was not
/// live before, has a key's shape, and now holds `name`; nothing else changed.
#[verifier::external_body]
pub(crate) fn table_insert(table: &mut NameTable, name: String) -> (bits: u64)
    requires
        entries(*old(table)).dom().finite(),
        entries(*old(table)).len() < SLOT_LIMIT,
    ensures
        is_key_bits(bits),
        !entries(*old(table)).contains_key(bits),
        entries(*final(table)) == entries(*old(table)).insert(bits, name@),
{
    table.slots.insert(name).data().as_ffi()
}

/// `SlotMap::remove` with the key rebuilt from its integer: the name that was
/// stored under a live key, which is then gone; `None`, and no change, for a
/// key that is not live.
#[verifier::external_body]
pub(crate) fn table_remove(table: &mut NameTable, bits: u64) -> (name: Option<String>)
    requires
        is_key_bits(bits),
    ensures
        name.is_some() == entries(*old(table)).contains_key(bits),
        name.is_some() ==> name.unwrap()@ == entries(*old(table))[bits],
        entries(*final(table)) == entries(*old(table)).remove(bits),
{
    table.slots.remove(KeyData::from_ffi(bits).into())
}

/// `SlotMap::get` with the key rebuilt from its integer: the name stored
/// under a live key, `None` for a key that is not live.
#[verifier::external_body]
pub(crate) fn table_get(table: &NameTable, bits: u64) -> (name: Option<&String>)
    requires
        is_key_bits(bits),
    ensures
        name.is_some() == entries(*table).contains_key(bits),
        name.is_some() ==> name.unwrap()@ == entries(*table)[bits],
{
    table.slots.get(KeyData::from_ffi(bits).into())
}

} // verus!
