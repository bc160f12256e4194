//! Names within a compound are unique.

use crate::protocol_details::datatypes::nbt::name_index::distinct_keys;
use crate::protocol_details::datatypes::nbt::nbt::{entry_names, NbtEntry, NbtValue};
use vstd::prelude::*;

verus! {

/// Whether no compound in `value`, at any depth, has two entries of one
/// name. Every tag that the library builds is of that kind.
pub open spec fn spec_unique_names(value: NbtValue) -> bool
    decreases value,
{
    match value {
        NbtValue::List { type_id, items } => forall|i: int|
            0 <= i < items.len() ==> spec_unique_names(#[trigger] items[i]),
        NbtValue::Compound(entries) => spec_unique_entries(entries),
        _ => true,
    }
}

/// Whether no two of `entries` have the same name, and no compound inside
/// them has two entries of one name.
pub open spec fn spec_unique_entries(entries: Seq<NbtEntry>) -> bool
    decreases entries,
{
    &&& names_distinct(entries)
    &&& forall|i: int| 0 <= i < entries.len() ==> spec_unique_names((#[trigger] entries[i]).value)
}

/// Whether no two of `entries` have the same name.
#[verifier::opaque]
pub open spec fn names_distinct(entries: Seq<NbtEntry>) -> bool {
    distinct_keys(entry_names(entries))
}

} // verus!
