//! The failures of the codec, as values.

use core::str::Utf8Error;
use vstd::prelude::*;

verus! {

/// Why a value could not be read from, or written to, the wire.
#[derive(Debug, Clone, Copy, PartialEq, Eq, Hash, Structural)]
pub enum SerializingErr {
    /// The decoder ran off the end of its input. While framing this means
    /// "wait for more bytes"; inside a frame it means the frame is malformed.
    InputEnded,
    /// A VarInt or VarLong went on past its maximum byte count.
    VarIntOverflow,
    /// The bytes of a string are not UTF-8.
    InvalidUtf8,
    /// A length prefix is larger than the bound declared for it.
    LengthExceedsBound,
    /// A value was decoded but bytes of its input are left.
    LeftoverInput,
    /// No packet schema has this id in this state and direction.
    UnknownPacket,
    /// An NBT type id is none of 0..=12, or is not allowed where it stands.
    InvalidTagType,
}

impl SerializingErr {
    /// The text that describes each failure.
    pub open spec fn spec_message(self) -> Seq<char> {
        match self {
            SerializingErr::InputEnded => "Input ended prematurely"@,
            SerializingErr::VarIntOverflow => "The VarType did not end when it should have"@,
            SerializingErr::InvalidUtf8 => "Could not deserialize String"@,
            SerializingErr::LengthExceedsBound => "A length prefix exceeds its bound"@,
            SerializingErr::LeftoverInput => "There is unused input data left"@,
            SerializingErr::UnknownPacket => "Could not find matching type"@,
            SerializingErr::InvalidTagType => "Could not identify tag type"@,
        }
    }

    /// Whether more input can cure the failure. Only `InputEnded` is of that
    /// kind; `LeftoverInput` is a warning, and the rest are final.
    pub open spec fn spec_is_recoverable(self) -> bool {
        self == SerializingErr::InputEnded
    }

    /// A human-readable description of the failure.
    pub fn message(&self) -> (text: String)
        ensures
            text@ == self.spec_message(),
    {
        match self {
            SerializingErr::InputEnded => "Input ended prematurely".to_owned(),
            SerializingErr::VarIntOverflow => "The VarType did not end when it should have".to_owned(),
            SerializingErr::InvalidUtf8 => "Could not deserialize String".to_owned(),
            SerializingErr::LengthExceedsBound => "A length prefix exceeds its bound".to_owned(),
            SerializingErr::LeftoverInput => "There is unused input data left".to_owned(),
            SerializingErr::UnknownPacket => "Could not find matching type".to_owned(),
            SerializingErr::InvalidTagType => "Could not identify tag type".to_owned(),
        }
    }

    /// True exactly for the failure that waiting for more bytes can cure.
    pub fn is_recoverable(&self) -> (b: bool)
        ensures
            b == self.spec_is_recoverable(),
    {
        match self {
            SerializingErr::InputEnded => true,
            _ => false,
        }
    }
}

impl From<Utf8Error> for SerializingErr {
    /// Bytes that are not UTF-8 are `InvalidUtf8`, wherever they fail.
    fn from(value: Utf8Error) -> (e: Self) {
        SerializingErr::InvalidUtf8
    }
}

impl vstd::std_specs::convert::FromSpecImpl<Utf8Error> for SerializingErr {
    open spec fn obeys_from_spec() -> bool {
        true
    }

    open spec fn from_spec(value: Utf8Error) -> Self {
        SerializingErr::InvalidUtf8
    }
}

} // verus!
