//! Telling whether two trees hold the same.

use crate::protocol_details::datatypes::nbt::nbt::{NbtCompound, NbtList, NbtTag};
use vstd::prelude::*;

verus! {

/// Whether two arrays hold the same elements in the same order.
pub fn same_bytes(a: &Vec<i8>, b: &Vec<i8>) -> (same: bool)
    ensures
        same == (a@ == b@),
{
    if a.len() != b.len() {
        return false;
    }
    let mut i: usize = 0;
    while i < a.len()
        invariant
            i <= a@.len() == b@.len(),
            forall|j: int| 0 <= j < i ==> a@[j] == b@[j],
        decreases a@.len() - i,
    {
        if a[i] != b[i] {
            return false;
        }
        i = i + 1;
    }
    proof {
        assert(a@ =~= b@);
    }
    true
}

/// Whether two arrays hold the same elements in the same order.
pub fn same_ints(a: &Vec<i32>, b: &Vec<i32>) -> (same: bool)
    ensures
        same == (a@ == b@),
{
    if a.len() != b.len() {
        return false;
    }
    let mut i: usize = 0;
    while i < a.len()
        invariant
            i <= a@.len() == b@.len(),
            forall|j: int| 0 <= j < i ==> a@[j] == b@[j],
        decreases a@.len() - i,
    {
        if a[i] != b[i] {
            return false;
        }
        i = i + 1;
    }
    proof {
        assert(a@ =~= b@);
    }
    true
}

/// Whether two arrays hold the same elements in the same order.
pub fn same_longs(a: &Vec<i64>, b: &Vec<i64>) -> (same: bool)
    ensures
        same == (a@ == b@),
{
    if a.len() != b.len() {
        return false;
    }
    let mut i: usize = 0;
    while i < a.len()
        invariant
            i <= a@.len() == b@.len(),
            forall|j: int| 0 <= j < i ==> a@[j] == b@[j],
        decreases a@.len() - i,
    {
        if a[i] != b[i] {
            return false;
        }
        i = i + 1;
    }
    proof {
        assert(a@ =~= b@);
    }
    true
}

/// Whether two tags hold the same: the same type, and the same values in
/// the same order all the way down.
pub fn same_tag(a: &NbtTag, b: &NbtTag) -> (same: bool)
    ensures
        same == (a@ == b@),
    decreases a, 0nat,
{
    match (a, b) {
        (NbtTag::End, NbtTag::End) => true,
        (NbtTag::Byte(x), NbtTag::Byte(y)) => *x == *y,
        (NbtTag::Short(x), NbtTag::Short(y)) => *x == *y,
        (NbtTag::Int(x), NbtTag::Int(y)) => *x == *y,
        (NbtTag::Long(x), NbtTag::Long(y)) => *x == *y,
        (NbtTag::Float(x), NbtTag::Float(y)) => *x == *y,
        (NbtTag::Double(x), NbtTag::Double(y)) => *x == *y,
        (NbtTag::ByteArray(x), NbtTag::ByteArray(y)) => same_bytes(&x.list, &y.list),
        (NbtTag::String(x), NbtTag::String(y)) => *x == *y,
        (NbtTag::List(x), NbtTag::List(y)) => {
            proof {
                assert(decreases_to!(a => a->List_0));
            }
            same_list(x, y)
        },
        (NbtTag::Compound(x), NbtTag::Compound(y)) => {
            proof {
                assert(decreases_to!(a => a->Compound_0));
                x.lemma_view_entries();
                y.lemma_view_entries();
            }
            same_entries(x, y)
        },
        (NbtTag::IntArray(x), NbtTag::IntArray(y)) => same_ints(&x.list, &y.list),
        (NbtTag::LongArray(x), NbtTag::LongArray(y)) => same_longs(&x.list, &y.list),
        _ => false,
    }
}

/// Whether two lists have the same type and hold the same elements in the
/// same order.
pub fn same_list(a: &NbtList, b: &NbtList) -> (same: bool)
    ensures
        same == (a@ == b@),
    decreases a, 0nat,
{
    if a.type_id != b.type_id {
        return false;
    }
    if a.list.len() != b.list.len() {
        proof {
            assert(a.spec_items().len() != b.spec_items().len());
        }
        return false;
    }
    let mut i: usize = 0;
    while i < a.list.len()
        invariant
            i <= a.list@.len() == b.list@.len(),
            a.type_id == b.type_id,
            forall|j: int| 0 <= j < i ==> a.spec_items()[j] == b.spec_items()[j],
        decreases a.list@.len() - i,
    {
        proof {
            assert(decreases_to!(a => a.list));
            assert(decreases_to!(a.list => a.list[i as int]));
        }
        if !same_tag(&a.list[i], &b.list[i]) {
            proof {
                assert(a.spec_items()[i as int] != b.spec_items()[i as int]);
            }
            return false;
        }
        i = i + 1;
    }
    proof {
        assert(a.spec_items() =~= b.spec_items());
    }
    true
}

/// Whether two compounds hold the same entries in the same order. The root
/// names are not looked at.
pub fn same_entries(a: &NbtCompound, b: &NbtCompound) -> (same: bool)
    ensures
        same == (a@.entries == b@.entries),
    decreases a, 0nat,
{
    let count: usize = a.len();
    if count != b.len() {
        return false;
    }
    let mut i: usize = 0;
    while i < count
        invariant
            i <= count == a@.entries.len() == b@.entries.len(),
            forall|j: int| 0 <= j < i ==> a@.entries[j] == b@.entries[j],
        decreases count - i,
    {
        match (a.name_at(i), a.tag_at(i), b.name_at(i), b.tag_at(i)) {
            (Some(name), Some(tag), Some(other_name), Some(other_tag)) => {
                if !(*name == *other_name) || !same_tag(tag, other_tag) {
                    proof {
                        assert(a@.entries[i as int] != b@.entries[i as int]);
                    }
                    return false;
                }
            },
            _ => {
                return false;
            },
        }
        i = i + 1;
    }
    proof {
        assert(a@.entries =~= b@.entries);
    }
    true
}

/// Whether two root compounds have the same root name and hold the same
/// entries in the same order.
pub fn same_compound(a: &NbtCompound, b: &NbtCompound) -> (same: bool)
    ensures
        same == (a@ == b@),
{
    *a.root_name() == *b.root_name() && same_entries(a, b)
}

impl PartialEq for NbtTag {
    /// Two tags are equal where they have the same type and hold the same,
    /// in the same order all the way down.
    fn eq(&self, other: &Self) -> (same: bool) {
        same_tag(self, other)
    }
}

impl vstd::std_specs::cmp::PartialEqSpecImpl for NbtTag {
    open spec fn obeys_eq_spec() -> bool {
        true
    }

    open spec fn eq_spec(&self, other: &Self) -> bool {
        self@ == other@
    }
}

impl PartialEq for NbtList {
    /// Two lists are equal where they have the same type and the same
    /// elements in the same order.
    fn eq(&self, other: &Self) -> (same: bool) {
        same_list(self, other)
    }
}

impl vstd::std_specs::cmp::PartialEqSpecImpl for NbtList {
    open spec fn obeys_eq_spec() -> bool {
        true
    }

    open spec fn eq_spec(&self, other: &Self) -> bool {
        self@ == other@
    }
}

impl PartialEq for NbtCompound {
    /// Two compounds are equal where they have the same root name and the
    /// same entries in the same order. A compound is an ordered mapping:
    /// the same entries in another order are another compound, and are
    /// written as other bytes.
    fn eq(&self, other: &Self) -> (same: bool) {
        same_compound(self, other)
    }
}

impl vstd::std_specs::cmp::PartialEqSpecImpl for NbtCompound {
    open spec fn obeys_eq_spec() -> bool {
        true
    }

    open spec fn eq_spec(&self, other: &Self) -> bool {
        self@ == other@
    }
}

} // verus!
