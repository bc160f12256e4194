//! The NBT tree: tags, lists, arrays and compounds.
//!
//! A floating-point tag holds the bits of its number: `Float` the 32 bits of
//! a single-precision number, `Double` the 64 bits of a double-precision one.

use crate::packets::serialization::serializer_error::SerializingErr;
use crate::protocol_details::datatypes::nbt::name_index::{
    distinct_keys, has_key, index_insert, index_key_at, index_keys, index_new, index_position,
    index_swap_remove,
};
use indexmap::IndexMap;
use vstd::prelude::*;

verus! {

/// A tag as a mathematical value.
pub enum NbtValue {
    End,
    Byte(i8),
    Short(i16),
    Int(i32),
    Long(i64),
    Float(u32),
    Double(u64),
    ByteArray(Seq<i8>),
    String(Seq<char>),
    List { type_id: u8, items: Seq<NbtValue> },
    Compound(Seq<NbtEntry>),
    IntArray(Seq<i32>),
    LongArray(Seq<i64>),
}

/// One entry of a compound as a mathematical value.
pub struct NbtEntry {
    pub name: Seq<char>,
    pub value: NbtValue,
}

/// A root compound as a mathematical value: its name and its entries in
/// insertion order.
pub struct NbtCompoundView {
    pub root_name: Seq<char>,
    pub entries: Seq<NbtEntry>,
}

impl NbtValue {
    /// The type id of the tag, 0 to 12.
    pub open spec fn type_id(self) -> u8 {
        match self {
            NbtValue::End => 0,
            NbtValue::Byte(_) => 1,
            NbtValue::Short(_) => 2,
            NbtValue::Int(_) => 3,
            NbtValue::Long(_) => 4,
            NbtValue::Float(_) => 5,
            NbtValue::Double(_) => 6,
            NbtValue::ByteArray(_) => 7,
            NbtValue::String(_) => 8,
            NbtValue::List { .. } => 9,
            NbtValue::Compound(_) => 10,
            NbtValue::IntArray(_) => 11,
            NbtValue::LongArray(_) => 12,
        }
    }

    /// The size of the payload in bytes, for the tags whose payload has a
    /// fixed size.
    pub open spec fn payload_size(self) -> Option<u8> {
        match self {
            NbtValue::End => Some(0u8),
            NbtValue::Byte(_) => Some(1u8),
            NbtValue::Short(_) => Some(2u8),
            NbtValue::Int(_) => Some(4u8),
            NbtValue::Long(_) => Some(8u8),
            NbtValue::Float(_) => Some(4u8),
            NbtValue::Double(_) => Some(8u8),
            _ => None,
        }
    }

    /// The name of the tag's type.
    pub open spec fn tag_name(self) -> Seq<char> {
        match self {
            NbtValue::End => "TAG_End"@,
            NbtValue::Byte(_) => "TAG_Byte"@,
            NbtValue::Short(_) => "TAG_Short"@,
            NbtValue::Int(_) => "TAG_Int"@,
            NbtValue::Long(_) => "TAG_Long"@,
            NbtValue::Float(_) => "TAG_Float"@,
            NbtValue::Double(_) => "TAG_Double"@,
            NbtValue::ByteArray(_) => "TAG_Byte_Array"@,
            NbtValue::String(_) => "TAG_String"@,
            NbtValue::List { .. } => "TAG_List"@,
            NbtValue::Compound(_) => "TAG_Compound"@,
            NbtValue::IntArray(_) => "TAG_Int_Array"@,
            NbtValue::LongArray(_) => "TAG_Long_Array"@,
        }
    }
}

/// The names of `entries`, in their order.
pub open spec fn entry_names(entries: Seq<NbtEntry>) -> Seq<Seq<char>> {
    Seq::new(entries.len(), |i: int| entries[i].name)
}

/// What adding `value` under `name` makes of `entries`: an entry of that
/// name keeps its place and gets the new value; a new name goes to the end.
pub open spec fn spec_insert(entries: Seq<NbtEntry>, name: Seq<char>, value: NbtValue) -> Seq<
    NbtEntry,
> {
    if has_key(entry_names(entries), name) {
        let at = choose|i: int| 0 <= i < entries.len() && entries[i].name == name;
        entries.update(at, NbtEntry { name, value })
    } else {
        entries.push(NbtEntry { name, value })
    }
}

/// What removing `name` makes of `entries`: the last entry takes the place
/// of the one removed. Entries without that name stay as they are.
pub open spec fn spec_remove(entries: Seq<NbtEntry>, name: Seq<char>) -> Seq<NbtEntry> {
    if has_key(entry_names(entries), name) {
        let at = choose|i: int| 0 <= i < entries.len() && entries[i].name == name;
        entries.update(at, entries.last()).drop_last()
    } else {
        entries
    }
}

/// The value under `name`, if `entries` has one.
pub open spec fn spec_get(entries: Seq<NbtEntry>, name: Seq<char>) -> Option<NbtValue> {
    if has_key(entry_names(entries), name) {
        let at = choose|i: int| 0 <= i < entries.len() && entries[i].name == name;
        Some(entries[at].value)
    } else {
        None
    }
}

/// Adding the entry at position `at` of entries with names of their own to
/// the entries before it puts it behind them.
pub proof fn lemma_insert_fresh(entries: Seq<NbtEntry>, at: int)
    requires
        0 <= at < entries.len(),
        distinct_keys(entry_names(entries)),
    ensures
        spec_insert(entries.take(at), entries[at].name, entries[at].value) == entries.take(
            at,
        ).push(entries[at]),
{
    let front = entries.take(at);
    if has_key(entry_names(front), entries[at].name) {
        let i = choose|i: int| 0 <= i < front.len() && entry_names(front)[i] == entries[at].name;
        assert(entry_names(entries)[i] == entry_names(entries)[at]);
    }
}

/// An array of signed bytes.
#[derive(Debug, Clone, PartialEq, Eq)]
pub struct NbtByteArray {
    pub list: Vec<i8>,
}

/// An array of signed 32-bit integers.
#[derive(Debug, Clone, PartialEq, Eq)]
pub struct NbtIntArray {
    pub list: Vec<i32>,
}

/// An array of signed 64-bit integers.
#[derive(Debug, Clone, PartialEq, Eq)]
pub struct NbtLongArray {
    pub list: Vec<i64>,
}

impl NbtByteArray {
    /// An array of the elements of `list`.
    pub fn new(list: Vec<i8>) -> (array: Self)
        ensures
            array.list == list,
    {
        Self { list }
    }
}

impl NbtIntArray {
    /// An array of the elements of `list`.
    pub fn new(list: Vec<i32>) -> (array: Self)
        ensures
            array.list == list,
    {
        Self { list }
    }
}

impl NbtLongArray {
    /// An array of the elements of `list`.
    pub fn new(list: Vec<i64>) -> (array: Self)
        ensures
            array.list == list,
    {
        Self { list }
    }
}

/// One tag of the tree.
#[derive(Debug)]
pub enum NbtTag {
    End,
    Byte(i8),
    Short(i16),
    Int(i32),
    Long(i64),
    Float(u32),
    Double(u64),
    ByteArray(NbtByteArray),
    String(String),
    List(NbtList),
    Compound(NbtCompound),
    IntArray(NbtIntArray),
    LongArray(NbtLongArray),
}

/// A list of tags of one type. An empty list may have the type `End`.
#[derive(Debug)]
pub struct NbtList {
    pub type_id: u8,
    pub list: Vec<NbtTag>,
}

/// An ordered mapping from names to tags, with a root name that is written
/// where the compound is the root of a named tree.
#[derive(Debug)]
pub struct NbtCompound {
    names: IndexMap<String, ()>,
    tags: Vec<NbtTag>,
    root_name: String,
}

impl View for NbtTag {
    type V = NbtValue;

    open spec fn view(&self) -> NbtValue
        decreases self,
    {
        match self {
            NbtTag::End => NbtValue::End,
            NbtTag::Byte(v) => NbtValue::Byte(*v),
            NbtTag::Short(v) => NbtValue::Short(*v),
            NbtTag::Int(v) => NbtValue::Int(*v),
            NbtTag::Long(v) => NbtValue::Long(*v),
            NbtTag::Float(v) => NbtValue::Float(*v),
            NbtTag::Double(v) => NbtValue::Double(*v),
            NbtTag::ByteArray(v) => NbtValue::ByteArray(v.list@),
            NbtTag::String(v) => NbtValue::String(v@),
            NbtTag::List(v) => NbtValue::List { type_id: v.type_id, items: v.spec_items() },
            NbtTag::Compound(v) => NbtValue::Compound(v.spec_entries()),
            NbtTag::IntArray(v) => NbtValue::IntArray(v.list@),
            NbtTag::LongArray(v) => NbtValue::LongArray(v.list@),
        }
    }
}

impl NbtList {
    /// The elements as mathematical values.
    pub open spec fn spec_items(&self) -> Seq<NbtValue>
        decreases self,
    {
        Seq::new(
            self.list@.len(),
            |i: int|
                if 0 <= i < self.list@.len() {
                    self.list@[i]@
                } else {
                    NbtValue::End
                },
        )
    }
}

impl View for NbtList {
    type V = NbtValue;

    open spec fn view(&self) -> NbtValue {
        NbtValue::List { type_id: self.type_id, items: self.spec_items() }
    }
}

impl View for NbtCompound {
    type V = NbtCompoundView;

    closed spec fn view(&self) -> NbtCompoundView {
        NbtCompoundView { root_name: self.root_name@, entries: self.spec_entries() }
    }
}

impl NbtCompound {
    /// The entries as mathematical values, in insertion order.
    pub closed spec fn spec_entries(&self) -> Seq<NbtEntry>
        decreases self,
    {
        Seq::new(
            self.tags@.len(),
            |i: int|
                NbtEntry {
                    name: index_keys(self.names)[i],
                    value: if 0 <= i < self.tags@.len() {
                        self.tags@[i]@
                    } else {
                        NbtValue::End
                    },
                },
        )
    }

    #[verifier::type_invariant]
    spec fn inv(self) -> bool {
        &&& index_keys(self.names).len() == self.tags@.len()
        &&& distinct_keys(index_keys(self.names))
    }

    /// The view holds the entries.
    pub proof fn lemma_view_entries(&self)
        ensures
            self@.entries == self.spec_entries(),
    {
    }
}

impl NbtTag {
    /// The type id of the tag, 0 to 12.
    pub fn get_type_id(&self) -> (id: u8)
        ensures
            id == self@.type_id(),
            id <= 12,
    {
        match self {
            NbtTag::End => 0,
            NbtTag::Byte(_) => 1,
            NbtTag::Short(_) => 2,
            NbtTag::Int(_) => 3,
            NbtTag::Long(_) => 4,
            NbtTag::Float(_) => 5,
            NbtTag::Double(_) => 6,
            NbtTag::ByteArray(_) => 7,
            NbtTag::String(_) => 8,
            NbtTag::List(_) => 9,
            NbtTag::Compound(_) => 10,
            NbtTag::IntArray(_) => 11,
            NbtTag::LongArray(_) => 12,
        }
    }

    /// The size of the payload in bytes, for the tags whose payload has a
    /// fixed size.
    pub fn get_payload_size(&self) -> (size: Option<u8>)
        ensures
            size == self@.payload_size(),
    {
        match self {
            NbtTag::End => Some(0),
            NbtTag::Byte(_) => Some(1),
            NbtTag::Short(_) => Some(2),
            NbtTag::Int(_) => Some(4),
            NbtTag::Long(_) => Some(8),
            NbtTag::Float(_) => Some(4),
            NbtTag::Double(_) => Some(8),
            NbtTag::ByteArray(_) => None,
            NbtTag::String(_) => None,
            NbtTag::List(_) => None,
            NbtTag::Compound(_) => None,
            NbtTag::IntArray(_) => None,
            NbtTag::LongArray(_) => None,
        }
    }

    /// The name of the tag's type.
    pub fn get_name(&self) -> (name: String)
        ensures
            name@ == self@.tag_name(),
    {
        match self {
            NbtTag::End => "TAG_End".to_owned(),
            NbtTag::Byte(_) => "TAG_Byte".to_owned(),
            NbtTag::Short(_) => "TAG_Short".to_owned(),
            NbtTag::Int(_) => "TAG_Int".to_owned(),
            NbtTag::Long(_) => "TAG_Long".to_owned(),
            NbtTag::Float(_) => "TAG_Float".to_owned(),
            NbtTag::Double(_) => "TAG_Double".to_owned(),
            NbtTag::ByteArray(_) => "TAG_Byte_Array".to_owned(),
            NbtTag::String(_) => "TAG_String".to_owned(),
            NbtTag::List(_) => "TAG_List".to_owned(),
            NbtTag::Compound(_) => "TAG_Compound".to_owned(),
            NbtTag::IntArray(_) => "TAG_Int_Array".to_owned(),
            NbtTag::LongArray(_) => "TAG_Long_Array".to_owned(),
        }
    }
}

/// Whether every element of a list has the list's type, and the type of a
/// list with elements is not `End`.
pub open spec fn spec_list_valid(type_id: u8, items: Seq<NbtValue>) -> bool {
    &&& forall|i: int| 0 <= i < items.len() ==> (#[trigger] items[i]).type_id() == type_id
    &&& items.len() > 0 ==> type_id != 0
}

impl NbtList {
    /// An empty list, of type `End` until its first element is added.
    pub fn new() -> (list: Self)
        ensures
            list.type_id == 0,
            list.spec_items() == Seq::<NbtValue>::empty(),
    {
        let list = Self { type_id: 0, list: Vec::new() };
        proof {
            assert(list.spec_items() =~= Seq::<NbtValue>::empty());
        }
        list
    }

    /// The number of elements.
    pub fn len(&self) -> (n: usize)
        ensures
            n == self.spec_items().len(),
    {
        self.list.len()
    }

    /// The element at position `i`, if the list has that many.
    pub fn get(&self, i: usize) -> (r: Option<&NbtTag>)
        ensures
            i < self.spec_items().len() ==> r is Some && r->0@ == self.spec_items()[i as int],
            i >= self.spec_items().len() ==> r is None,
    {
        if i < self.list.len() {
            Some(&self.list[i])
        } else {
            None
        }
    }

    /// What `add` makes of a list: an `End` tag is refused; the first
    /// element gives a list of type `End` its type; later ones must have the
    /// type of the list.
    pub open spec fn spec_add(type_id: u8, items: Seq<NbtValue>, tag: NbtValue) -> Result<
        (u8, Seq<NbtValue>),
        SerializingErr,
    > {
        if tag.type_id() == 0 {
            Err(SerializingErr::InvalidTagType)
        } else if type_id == 0 {
            Ok((tag.type_id(), items.push(tag)))
        } else if type_id != tag.type_id() {
            Err(SerializingErr::InvalidTagType)
        } else {
            Ok((type_id, items.push(tag)))
        }
    }

    /// Appends `tag`, and gives a list that has no type yet the type of
    /// `tag`. Fails with `InvalidTagType`, and changes nothing, where `tag`
    /// is an `End` tag or is not of the list's type.
    pub fn add(&mut self, tag: NbtTag) -> (r: Result<(), SerializingErr>)
        ensures
            match Self::spec_add(old(self).type_id, old(self).spec_items(), tag@) {
                Ok((type_id, items)) => r is Ok && final(self).type_id == type_id && final(self).spec_items() == items,
                Err(e) => r == Err::<(), SerializingErr>(e) && *final(self) == *old(self),
            },
            spec_list_valid(old(self).type_id, old(self).spec_items()) ==> spec_list_valid(
                final(self).type_id,
                final(self).spec_items(),
            ),
    {
        let id: u8 = tag.get_type_id();
        if id == 0 {
            return Err(SerializingErr::InvalidTagType);
        }
        if self.type_id == 0 {
            self.type_id = id;
        } else if self.type_id != id {
            return Err(SerializingErr::InvalidTagType);
        }
        self.list.push(tag);
        proof {
            assert(self.spec_items() =~= old(self).spec_items().push(tag@));
        }
        Ok(())
    }

    /// What `add_tag` makes of a list: an `End` tag is refused, and so is a
    /// tag that is not of the list's type, which a list that has no type yet
    /// does not get from it.
    pub open spec fn spec_add_tag(type_id: u8, items: Seq<NbtValue>, tag: NbtValue) -> Result<
        (u8, Seq<NbtValue>),
        SerializingErr,
    > {
        if tag.type_id() == 0 || tag.type_id() != type_id {
            Err(SerializingErr::InvalidTagType)
        } else {
            Ok((type_id, items.push(tag)))
        }
    }

    /// Appends `tag` where it is of the list's type. Fails with
    /// `InvalidTagType`, and changes nothing, where it is not, and where it
    /// is an `End` tag: no list has `End` tags for elements, so nothing can
    /// be appended this way to a list that has no type yet.
    pub fn add_tag(&mut self, tag: NbtTag) -> (r: Result<(), SerializingErr>)
        ensures
            match Self::spec_add_tag(old(self).type_id, old(self).spec_items(), tag@) {
                Ok((type_id, items)) => r is Ok && final(self).type_id == type_id && final(self).spec_items() == items,
                Err(e) => r == Err::<(), SerializingErr>(e) && *final(self) == *old(self),
            },
            spec_list_valid(old(self).type_id, old(self).spec_items()) ==> spec_list_valid(
                final(self).type_id,
                final(self).spec_items(),
            ),
    {
        let id: u8 = tag.get_type_id();
        if id == 0 || id != self.type_id {
            return Err(SerializingErr::InvalidTagType);
        }
        self.list.push(tag);
        proof {
            assert(self.spec_items() =~= old(self).spec_items().push(tag@));
        }
        Ok(())
    }
}

impl NbtCompound {
    /// A compound without entries.
    pub fn new(root_name: String) -> (compound: Self)
        ensures
            compound@ == (NbtCompoundView { root_name: root_name@, entries: Seq::empty() }),
    {
        let compound = Self { names: index_new(), tags: Vec::new(), root_name };
        proof {
            assert(compound.spec_entries() =~= Seq::<NbtEntry>::empty());
        }
        compound
    }

    /// The names of the entries are the keys of the index.
    proof fn lemma_names(&self)
        requires
            index_keys(self.names).len() == self.tags@.len(),
        ensures
            entry_names(self.spec_entries()) == index_keys(self.names),
    {
        assert(entry_names(self.spec_entries()) =~= index_keys(self.names));
    }

    /// Gives the compound another root name.
    pub fn change_root_name(&mut self, name: String)
        ensures
            final(self)@ == (NbtCompoundView { root_name: name@, entries: old(self)@.entries }),
    {
        proof {
            use_type_invariant(&*self);
        }
        self.root_name = name;
    }

    /// The root name.
    pub fn root_name(&self) -> (name: &String)
        ensures
            name@ == self@.root_name,
    {
        &self.root_name
    }

    /// The number of entries. No two entries have the same name.
    pub fn len(&self) -> (n: usize)
        ensures
            n == self@.entries.len(),
            distinct_keys(entry_names(self@.entries)),
    {
        proof {
            use_type_invariant(self);
            self.lemma_names();
        }
        self.tags.len()
    }

    /// The name of the entry at position `i`, if there are that many.
    pub fn name_at(&self, i: usize) -> (r: Option<&String>)
        ensures
            i < self@.entries.len() ==> r is Some && r->0@ == self@.entries[i as int].name,
            i >= self@.entries.len() ==> r is None,
    {
        proof {
            use_type_invariant(self);
        }
        index_key_at(&self.names, i)
    }

    /// The tag of the entry at position `i`, if there are that many.
    pub fn tag_at(&self, i: usize) -> (r: Option<&NbtTag>)
        ensures
            i < self@.entries.len() ==> r is Some && r->0@ == self@.entries[i as int].value
                && decreases_to!(self => r->0),
            i >= self@.entries.len() ==> r is None,
    {
        if i < self.tags.len() {
            Some(&self.tags[i])
        } else {
            None
        }
    }

    /// Puts `tag` under `name`: in the place of the tag that was there, or,
    /// where the name is new, behind the last entry.
    pub fn add(&mut self, name: String, tag: NbtTag)
        ensures
            final(self)@ == (NbtCompoundView {
                root_name: old(self)@.root_name,
                entries: spec_insert(old(self)@.entries, name@, tag@),
            }),
    {
        proof {
            use_type_invariant(&*self);
            self.lemma_names();
        }
        let mut taken = NbtCompound::new(String::new());
        core::mem::swap(self, &mut taken);
        let NbtCompound { mut names, mut tags, root_name } = taken;
        let ghost before = old(self).spec_entries();
        let (position, existed) = index_insert(&mut names, name);
        if existed {
            tags.set(position, tag);
        } else {
            tags.push(tag);
        }
        let rebuilt = NbtCompound { names, tags, root_name };
        proof {
            if existed {
                let at = choose|i: int| 0 <= i < before.len() && before[i].name == name@;
                assert(before[position as int].name == name@);
                assert(entry_names(before)[at] == entry_names(before)[position as int]);
                assert(rebuilt.spec_entries() =~= before.update(
                    at,
                    NbtEntry { name: name@, value: tag@ },
                ));
            } else {
                assert(rebuilt.spec_entries() =~= before.push(
                    NbtEntry { name: name@, value: tag@ },
                ));
            }
        }
        *self = rebuilt;
    }

    /// Removes the entry of `name`, if there is one; the last entry then
    /// takes its place.
    pub fn remove(&mut self, name: &str)
        ensures
            final(self)@ == (NbtCompoundView {
                root_name: old(self)@.root_name,
                entries: spec_remove(old(self)@.entries, name@),
            }),
    {
        proof {
            use_type_invariant(&*self);
            self.lemma_names();
        }
        let mut taken = NbtCompound::new(String::new());
        core::mem::swap(self, &mut taken);
        let NbtCompound { mut names, mut tags, root_name } = taken;
        let ghost before = old(self).spec_entries();
        match index_swap_remove(&mut names, name) {
            Some(position) => {
                let _ = tags.swap_remove(position);
                let rebuilt = NbtCompound { names, tags, root_name };
                proof {
                    let at = choose|i: int| 0 <= i < before.len() && before[i].name == name@;
                    assert(before[position as int].name == name@);
                    assert(entry_names(before)[at] == entry_names(before)[position as int]);
                    assert(rebuilt.spec_entries() =~= before.update(at, before.last()).drop_last());
                }
                *self = rebuilt;
            },
            None => {
                let rebuilt = NbtCompound { names, tags, root_name };
                proof {
                    assert(rebuilt.spec_entries() =~= before);
                }
                *self = rebuilt;
            },
        }
    }

    /// The tag under `name`, if there is one.
    pub fn get(&self, name: &str) -> (r: Option<&NbtTag>)
        ensures
            match spec_get(self@.entries, name@) {
                Some(value) => r is Some && r->0@ == value,
                None => r is None,
            },
    {
        proof {
            use_type_invariant(self);
            self.lemma_names();
        }
        match index_position(&self.names, name) {
            Some(position) => {
                proof {
                    let entries = self.spec_entries();
                    let at = choose|i: int| 0 <= i < entries.len() && entries[i].name == name@;
                    assert(entries[position as int].name == name@);
                    assert(entry_names(entries)[at] == entry_names(entries)[position as int]);
                }
                Some(&self.tags[position])
            },
            None => None,
        }
    }
}

} // verus!
