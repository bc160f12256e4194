//! The append-only output buffer, the input cursor, and the two traits that
//! every wire type implements.

use crate::packets::serialization::serializer_error::SerializingErr;
use vstd::prelude::*;
use vstd::slice::slice_subrange;

verus! {

/// An append-only byte buffer that values are written to.
pub struct McSerializer {
    pub output: Vec<u8>,
}

impl View for McSerializer {
    type V = Seq<u8>;

    open spec fn view(&self) -> Seq<u8> {
        self.output@
    }
}

impl McSerializer {
    /// An empty buffer.
    pub fn new() -> (s: Self)
        ensures
            s@ == Seq::<u8>::empty(),
    {
        Self { output: Vec::new() }
    }

    /// Empties the buffer.
    pub fn clear(&mut self)
        ensures
            final(self)@ == Seq::<u8>::empty(),
    {
        self.output.clear();
    }

    /// The number of bytes written so far.
    pub fn len(&self) -> (n: usize)
        ensures
            n == self@.len(),
    {
        self.output.len()
    }

    /// Appends `input`.
    pub fn serialize_bytes(&mut self, input: &[u8])
        ensures
            final(self)@ == old(self)@ + input@,
    {
        self.output.extend_from_slice(input);
        assert(self.output@ =~= old(self)@ + input@);
    }

    /// Appends the bytes of `vec`.
    pub fn serialize_vec(&mut self, vec: Vec<u8>)
        ensures
            final(self)@ == old(self)@ + vec@,
    {
        self.serialize_bytes(vec.as_slice());
    }

    /// Appends one byte.
    pub fn serialize_u8(&mut self, b: u8)
        ensures
            final(self)@ == old(self)@.push(b),
    {
        self.output.push(b);
    }

    /// Appends everything that `other` holds.
    pub fn merge(&mut self, other: McSerializer)
        ensures
            final(self)@ == old(self)@ + other@,
    {
        self.serialize_bytes(other.output.as_slice());
    }

    /// Drops what was written after the first `len` bytes. A `len` beyond the
    /// end changes nothing.
    pub fn truncate(&mut self, len: usize)
        ensures
            final(self)@ == if len <= old(self)@.len() {
                old(self)@.take(len as int)
            } else {
                old(self)@
            },
    {
        self.output.truncate(len);
    }
}

/// A cursor over a byte slice: the bytes before the position have been read,
/// the bytes from it on are still to come. Its view is what is still to come.
/// A copy of a cursor remembers a position to go back to.
#[derive(Clone, Copy)]
pub struct McDeserializer<'a> {
    data: &'a [u8],
    index: usize,
}

impl<'a> View for McDeserializer<'a> {
    type V = Seq<u8>;

    closed spec fn view(&self) -> Seq<u8> {
        self.data@.skip(self.index as int)
    }
}

impl<'a> McDeserializer<'a> {
    #[verifier::type_invariant]
    spec fn inv(self) -> bool {
        self.index <= self.data@.len()
    }

    /// A cursor at the start of `data`.
    pub fn new(data: &'a [u8]) -> (d: Self)
        ensures
            d@ == data@,
    {
        proof {
            assert(data@.skip(0) =~= data@);
        }
        Self { data, index: 0 }
    }

    /// How many bytes are still to come.
    pub fn remaining(&self) -> (n: usize)
        ensures
            n == self@.len(),
    {
        proof {
            use_type_invariant(self);
        }
        self.data.len() - self.index
    }

    /// Whether nothing is left to read.
    pub fn is_at_end(&self) -> (b: bool)
        ensures
            b == (self@.len() == 0),
    {
        proof {
            use_type_invariant(self);
        }
        self.index >= self.data.len()
    }

    /// Everything that is still to come, without reading it.
    pub fn collect_remaining(&self) -> (rest: &'a [u8])
        ensures
            rest@ == self@,
    {
        proof {
            use_type_invariant(self);
        }
        let rest = slice_subrange(self.data, self.index, self.data.len());
        proof {
            assert(rest@ =~= self@);
        }
        rest
    }

    /// The next `n` bytes, without reading them. Fails with `InputEnded`
    /// where fewer are left.
    pub fn peek(&self, n: usize) -> (r: Result<&'a [u8], SerializingErr>)
        ensures
            n <= self@.len() ==> r is Ok && r->Ok_0@ == self@.take(n as int),
            n > self@.len() ==> r == Err::<&[u8], SerializingErr>(SerializingErr::InputEnded),
    {
        proof {
            use_type_invariant(self);
        }
        if n > self.data.len() - self.index {
            return Err(SerializingErr::InputEnded);
        }
        let next = slice_subrange(self.data, self.index, self.index + n);
        proof {
            assert(next@ =~= self@.take(n as int));
        }
        Ok(next)
    }

    /// Reads the next `n` bytes. Where fewer are left it fails with
    /// `InputEnded` and reads nothing.
    pub fn take(&mut self, n: usize) -> (r: Result<&'a [u8], SerializingErr>)
        ensures
            n <= old(self)@.len() ==> r is Ok && r->Ok_0@ == old(self)@.take(n as int)
                && final(self)@ == old(self)@.skip(n as int),
            n > old(self)@.len() ==> r == Err::<&[u8], SerializingErr>(SerializingErr::InputEnded)
                && *final(self) == *old(self),
    {
        proof {
            use_type_invariant(&*self);
        }
        if n > self.data.len() - self.index {
            return Err(SerializingErr::InputEnded);
        }
        let next = slice_subrange(self.data, self.index, self.index + n);
        proof {
            assert(next@ =~= self@.take(n as int));
            assert(self.data@.skip(self.index + n) =~= self@.skip(n as int));
        }
        self.index = self.index + n;
        Ok(next)
    }

    /// Reads one byte, if one is left.
    pub fn pop(&mut self) -> (r: Option<u8>)
        ensures
            old(self)@.len() > 0 ==> r == Some(old(self)@[0]) && final(self)@ == old(self)@.skip(1),
            old(self)@.len() == 0 ==> r == None::<u8> && *final(self) == *old(self),
    {
        proof {
            use_type_invariant(&*self);
        }
        if self.index >= self.data.len() {
            return None;
        }
        let b: u8 = self.data[self.index];
        proof {
            assert(self.data@.skip(self.index + 1) =~= self@.skip(1));
        }
        self.index = self.index + 1;
        Some(b)
    }

    /// Counts the next `n` bytes as read. Where fewer are left it fails with
    /// `InputEnded` and reads nothing.
    pub fn increment(&mut self, n: usize) -> (r: Result<(), SerializingErr>)
        ensures
            n <= old(self)@.len() ==> r is Ok && final(self)@ == old(self)@.skip(n as int),
            n > old(self)@.len() ==> r == Err::<(), SerializingErr>(SerializingErr::InputEnded)
                && *final(self) == *old(self),
    {
        match self.take(n) {
            Ok(_) => Ok(()),
            Err(e) => Err(e),
        }
    }

    /// A child cursor over the next `n` bytes, which the parent then counts
    /// as read: however little of them the child reads, and however it may
    /// fail, the parent goes on behind them. Where fewer than `n` bytes are
    /// left it fails with `InputEnded` and reads nothing.
    pub fn sub_deserializer_length(&mut self, n: usize) -> (r: Result<
        McDeserializer<'a>,
        SerializingErr,
    >)
        ensures
            n <= old(self)@.len() ==> r is Ok && r->Ok_0@ == old(self)@.take(n as int)
                && final(self)@ == old(self)@.skip(n as int),
            n > old(self)@.len() ==> r == Err::<McDeserializer<'a>, SerializingErr>(
                SerializingErr::InputEnded,
            ) && *final(self) == *old(self),
    {
        match self.take(n) {
            Ok(bytes) => Ok(McDeserializer::new(bytes)),
            Err(e) => Err(e),
        }
    }
}

/// A value that has a wire form.
pub trait McSerialize {
    /// The bytes that stand for the value, or why it has none.
    spec fn spec_serialize(&self) -> Result<Seq<u8>, SerializingErr>;

    /// Appends the wire form of the value. Where it has none, nothing is
    /// appended.
    fn mc_serialize(&self, serializer: &mut McSerializer) -> (r: Result<(), SerializingErr>)
        ensures
            match self.spec_serialize() {
                Ok(bytes) => r is Ok && final(serializer)@ == old(serializer)@ + bytes,
                Err(e) => r == Err::<(), SerializingErr>(e) && final(serializer)@ == old(serializer)@,
            },
    ;
}

/// A value that can be read from its wire form.
pub trait McDeserialize: Sized + View {
    /// The value at the front of `bytes` and how many bytes it takes, or why
    /// there is none.
    spec fn spec_deserialize(bytes: Seq<u8>) -> Result<(Self::V, nat), SerializingErr>;

    /// Reads one value. Where that fails nothing is read.
    fn mc_deserialize<'a>(deserializer: &mut McDeserializer<'a>) -> (r: Result<
        Self,
        SerializingErr,
    >)
        ensures
            match Self::spec_deserialize(old(deserializer)@) {
                Ok((value, len)) => r is Ok && r->Ok_0@ == value && len <= old(deserializer)@.len()
                    && final(deserializer)@ == old(deserializer)@.skip(len as int),
                Err(e) => r is Err && r->Err_0 == e && *final(deserializer) == *old(deserializer),
            },
    ;
}

} // verus!
