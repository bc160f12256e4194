//! Copies of trees.

use crate::protocol_details::datatypes::nbt::name_index::distinct_keys;
use crate::protocol_details::datatypes::nbt::nbt::{
    entry_names, lemma_insert_fresh, NbtByteArray, NbtCompound, NbtIntArray, NbtList,
    NbtLongArray, NbtTag,
};
use vstd::prelude::*;
use vstd::slice::slice_to_vec;

verus! {

/// A tag that holds the same as `tag`.
pub fn copy_tag(tag: &NbtTag) -> (copy: NbtTag)
    ensures
        copy@ == tag@,
    decreases tag, 0nat,
{
    match tag {
        NbtTag::End => NbtTag::End,
        NbtTag::Byte(v) => NbtTag::Byte(*v),
        NbtTag::Short(v) => NbtTag::Short(*v),
        NbtTag::Int(v) => NbtTag::Int(*v),
        NbtTag::Long(v) => NbtTag::Long(*v),
        NbtTag::Float(v) => NbtTag::Float(*v),
        NbtTag::Double(v) => NbtTag::Double(*v),
        NbtTag::ByteArray(v) => NbtTag::ByteArray(NbtByteArray::new(slice_to_vec(v.list.as_slice()))),
        NbtTag::String(v) => NbtTag::String(v.clone()),
        NbtTag::List(v) => {
            proof {
                assert(decreases_to!(tag => tag->List_0));
            }
            NbtTag::List(copy_list(v))
        },
        NbtTag::Compound(v) => {
            proof {
                assert(decreases_to!(tag => tag->Compound_0));
                v.lemma_view_entries();
            }
            let copy = copy_compound(v);
            proof {
                copy.lemma_view_entries();
            }
            NbtTag::Compound(copy)
        },
        NbtTag::IntArray(v) => NbtTag::IntArray(NbtIntArray::new(slice_to_vec(v.list.as_slice()))),
        NbtTag::LongArray(v) => NbtTag::LongArray(
            NbtLongArray::new(slice_to_vec(v.list.as_slice())),
        ),
    }
}

/// A list that holds the same as `list`.
pub fn copy_list(list: &NbtList) -> (copy: NbtList)
    ensures
        copy@ == list@,
    decreases list, 0nat,
{
    let mut copy = NbtList { type_id: list.type_id, list: Vec::new() };
    let mut i: usize = 0;
    proof {
        assert(copy.spec_items() =~= list.spec_items().take(0));
    }
    while i < list.list.len()
        invariant
            i <= list.list@.len(),
            copy.type_id == list.type_id,
            copy.spec_items() == list.spec_items().take(i as int),
        decreases list.list@.len() - i,
    {
        proof {
            assert(decreases_to!(list => list.list));
            assert(decreases_to!(list.list => list.list[i as int]));
        }
        let ghost before = copy.spec_items();
        let item = copy_tag(&list.list[i]);
        copy.list.push(item);
        proof {
            assert(copy.spec_items() =~= before.push(item@));
            assert(before.push(item@) =~= list.spec_items().take(i + 1));
        }
        i = i + 1;
    }
    proof {
        assert(list.spec_items().take(i as int) =~= list.spec_items());
    }
    copy
}

/// A compound that has the same root name and holds the same as
/// `compound`.
pub fn copy_compound(compound: &NbtCompound) -> (copy: NbtCompound)
    ensures
        copy@ == compound@,
    decreases compound, 0nat,
{
    let mut copy = NbtCompound::new(compound.root_name().clone());
    let count: usize = compound.len();
    let ghost entries = compound@.entries;
    let mut i: usize = 0;
    proof {
        assert(copy@.entries =~= entries.take(0));
    }
    while i < count
        invariant
            i <= count == entries.len(),
            entries == compound@.entries,
            distinct_keys(entry_names(entries)),
            copy@.root_name == compound@.root_name,
            copy@.entries == entries.take(i as int),
        decreases count - i,
    {
        match (compound.name_at(i), compound.tag_at(i)) {
            (Some(name), Some(tag)) => {
                let item = copy_tag(tag);
                copy.add(name.clone(), item);
                proof {
                    lemma_insert_fresh(entries, i as int);
                    assert(entries.take(i as int).push(entries[i as int]) =~= entries.take(i + 1));
                }
            },
            _ => {},
        }
        i = i + 1;
    }
    proof {
        assert(entries.take(i as int) =~= entries);
    }
    copy
}

impl Clone for NbtTag {
    fn clone(&self) -> (copy: Self)
        ensures
            copy@ == self@,
    {
        copy_tag(self)
    }
}

impl Clone for NbtList {
    fn clone(&self) -> (copy: Self)
        ensures
            copy@ == self@,
    {
        copy_list(self)
    }
}

impl Clone for NbtCompound {
    fn clone(&self) -> (copy: Self)
        ensures
            copy@ == self@,
    {
        copy_compound(self)
    }
}

} // verus!
