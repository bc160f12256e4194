//! The table of protocol versions: the number that a client sends in its
//! handshake, and the release that it stands for.

use vstd::prelude::*;

verus! {

/// A release of the game whose protocol number the library knows. Where
/// several releases share a number, the first of them names it.
#[derive(Debug, Clone, Copy, PartialEq, Eq, Hash, Structural)]
pub enum ProtocolVerison {
    V1_18_2,
    V1_19,
    V1_19_1,
    V1_19_3,
    V1_19_4,
    V1_20,
    V1_20_2,
    V1_20_3,
    V1_20_5,
    V1_21,
}

impl ProtocolVerison {
    /// The number that stands for the release on the wire.
    pub open spec fn spec_version_number(self) -> i16 {
        match self {
            ProtocolVerison::V1_18_2 => 758,
            ProtocolVerison::V1_19 => 759,
            ProtocolVerison::V1_19_1 => 760,
            ProtocolVerison::V1_19_3 => 761,
            ProtocolVerison::V1_19_4 => 762,
            ProtocolVerison::V1_20 => 763,
            ProtocolVerison::V1_20_2 => 764,
            ProtocolVerison::V1_20_3 => 765,
            ProtocolVerison::V1_20_5 => 766,
            ProtocolVerison::V1_21 => 767,
        }
    }

    /// The release that `number` stands for, if the table has one.
    pub open spec fn spec_from(number: int) -> Option<ProtocolVerison> {
        if number == 758 {
            Some(ProtocolVerison::V1_18_2)
        } else if number == 759 {
            Some(ProtocolVerison::V1_19)
        } else if number == 760 {
            Some(ProtocolVerison::V1_19_1)
        } else if number == 761 {
            Some(ProtocolVerison::V1_19_3)
        } else if number == 762 {
            Some(ProtocolVerison::V1_19_4)
        } else if number == 763 {
            Some(ProtocolVerison::V1_20)
        } else if number == 764 {
            Some(ProtocolVerison::V1_20_2)
        } else if number == 765 {
            Some(ProtocolVerison::V1_20_3)
        } else if number == 766 {
            Some(ProtocolVerison::V1_20_5)
        } else if number == 767 {
            Some(ProtocolVerison::V1_21)
        } else {
            None
        }
    }

    /// The name of the release.
    pub open spec fn spec_fancy_name(self) -> Seq<char> {
        match self {
            ProtocolVerison::V1_18_2 => "1.18.2"@,
            ProtocolVerison::V1_19 => "1.19"@,
            ProtocolVerison::V1_19_1 => "1.19.1"@,
            ProtocolVerison::V1_19_3 => "1.19.3"@,
            ProtocolVerison::V1_19_4 => "1.19.4"@,
            ProtocolVerison::V1_20 => "1.20"@,
            ProtocolVerison::V1_20_2 => "1.20.2"@,
            ProtocolVerison::V1_20_3 => "1.20.3"@,
            ProtocolVerison::V1_20_5 => "1.20.5"@,
            ProtocolVerison::V1_21 => "1.21"@,
        }
    }

    /// The number that stands for the release on the wire.
    pub fn get_version_number(&self) -> (number: i16)
        ensures
            number == self.spec_version_number(),
    {
        match self {
            ProtocolVerison::V1_18_2 => 758,
            ProtocolVerison::V1_19 => 759,
            ProtocolVerison::V1_19_1 => 760,
            ProtocolVerison::V1_19_3 => 761,
            ProtocolVerison::V1_19_4 => 762,
            ProtocolVerison::V1_20 => 763,
            ProtocolVerison::V1_20_2 => 764,
            ProtocolVerison::V1_20_3 => 765,
            ProtocolVerison::V1_20_5 => 766,
            ProtocolVerison::V1_21 => 767,
        }
    }

    /// The name of the release.
    pub fn get_fancy_name(&self) -> (name: String)
        ensures
            name@ == self.spec_fancy_name(),
    {
        match self {
            ProtocolVerison::V1_18_2 => "1.18.2".to_owned(),
            ProtocolVerison::V1_19 => "1.19".to_owned(),
            ProtocolVerison::V1_19_1 => "1.19.1".to_owned(),
            ProtocolVerison::V1_19_3 => "1.19.3".to_owned(),
            ProtocolVerison::V1_19_4 => "1.19.4".to_owned(),
            ProtocolVerison::V1_20 => "1.20".to_owned(),
            ProtocolVerison::V1_20_2 => "1.20.2".to_owned(),
            ProtocolVerison::V1_20_3 => "1.20.3".to_owned(),
            ProtocolVerison::V1_20_5 => "1.20.5".to_owned(),
            ProtocolVerison::V1_21 => "1.21".to_owned(),
        }
    }

    /// The release that `number` stands for. A number that the table does
    /// not have is no error: it stays unresolved.
    pub fn from(number: i16) -> (version: Option<ProtocolVerison>)
        ensures
            version == Self::spec_from(number as int),
    {
        match number {
            758 => Some(ProtocolVerison::V1_18_2),
            759 => Some(ProtocolVerison::V1_19),
            760 => Some(ProtocolVerison::V1_19_1),
            761 => Some(ProtocolVerison::V1_19_3),
            762 => Some(ProtocolVerison::V1_19_4),
            763 => Some(ProtocolVerison::V1_20),
            764 => Some(ProtocolVerison::V1_20_2),
            765 => Some(ProtocolVerison::V1_20_3),
            766 => Some(ProtocolVerison::V1_20_5),
            767 => Some(ProtocolVerison::V1_21),
            _ => None,
        }
    }

    /// Looking a release up by its own number finds it, and a number that
    /// stands for a release is that release's number.
    pub proof fn lemma_table_is_one_to_one(version: ProtocolVerison, number: int)
        ensures
            Self::spec_from(version.spec_version_number() as int) == Some(version),
            Self::spec_from(number) == Some(version) ==> number == version.spec_version_number(),
    {
    }
}

} // verus!
