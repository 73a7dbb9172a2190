//! The editions of the product that a key can name.

use crate::error::KeyError;
use vstd::prelude::*;
use vstd::std_specs::convert::TryFromSpecImpl;
use vstd::string::StringSliceAdditionalSpecFns;
use vstd::utf8::encode_utf8_decode_utf8;

verus! {

/// An edition of the product.
#[derive(Debug, Copy, Clone, PartialEq, Eq, Structural)]
pub enum KeyEdition {
    Business,
    Extreme,
    Engineer,
    NetworkAudit,
}

impl KeyEdition {
    /// The number that stands for the edition in a key.
    pub open spec fn code(self) -> int {
        match self {
            KeyEdition::Business => 0,
            KeyEdition::Extreme => 1,
            KeyEdition::Engineer => 2,
            KeyEdition::NetworkAudit => 3,
        }
    }

    /// The edition that `value` stands for, if any.
    pub open spec fn of_code(value: int) -> Option<KeyEdition> {
        if value == 0 {
            Some(KeyEdition::Business)
        } else if value == 1 {
            Some(KeyEdition::Extreme)
        } else if value == 2 {
            Some(KeyEdition::Engineer)
        } else if value == 3 {
            Some(KeyEdition::NetworkAudit)
        } else {
            None
        }
    }

    /// The edition that goes by the lower-case short name `name`, if any.
    pub open spec fn of_name(name: Seq<char>) -> Option<KeyEdition> {
        if name == "business"@ {
            Some(KeyEdition::Business)
        } else if name == "extreme"@ {
            Some(KeyEdition::Extreme)
        } else if name == "engineer"@ {
            Some(KeyEdition::Engineer)
        } else if name == "network"@ {
            Some(KeyEdition::NetworkAudit)
        } else {
            None
        }
    }

    /// The name of the edition as shown to people.
    pub open spec fn display_name(self) -> Seq<char> {
        match self {
            KeyEdition::Business => "Business"@,
            KeyEdition::Extreme => "Extreme"@,
            KeyEdition::Engineer => "Engineer"@,
            KeyEdition::NetworkAudit => "Network Audit"@,
        }
    }

    /// The number that stands for the edition in a key.
    pub fn to_code(self) -> (value: i32)
        ensures
            value == self.code(),
            KeyEdition::of_code(value as int) == Some(self),
    {
        match self {
            KeyEdition::Business => 0,
            KeyEdition::Extreme => 1,
            KeyEdition::Engineer => 2,
            KeyEdition::NetworkAudit => 3,
        }
    }

    /// The name of the edition as shown to people.
    pub fn name(&self) -> (text: &'static str)
        ensures
            text@ == self.display_name(),
    {
        match self {
            KeyEdition::Business => "Business",
            KeyEdition::Extreme => "Extreme",
            KeyEdition::Engineer => "Engineer",
            KeyEdition::NetworkAudit => "Network Audit",
        }
    }

    /// The four editions, in the order of their codes.
    pub fn all() -> (editions: [KeyEdition; 4])
        ensures
            forall|i: int| 0 <= i < 4 ==> (#[trigger] editions@[i]).code() == i,
    {
        [KeyEdition::Business, KeyEdition::Extreme, KeyEdition::Engineer, KeyEdition::NetworkAudit]
    }
}

/// Whether two strings hold the same text.
fn same_text(left: &str, right: &str) -> (same: bool)
    ensures
        same == (left@ == right@),
{
    let a = left.as_bytes();
    let b = right.as_bytes();
    proof {
        encode_utf8_decode_utf8(left@);
        encode_utf8_decode_utf8(right@);
    }
    if a.len() != b.len() {
        return false;
    }
    let mut i: usize = 0;
    while i < a.len()
        invariant
            i <= a.len(),
            a.len() == b.len(),
            a@ == left.spec_bytes(),
            b@ == right.spec_bytes(),
            forall|j: int| 0 <= j < i ==> a@[j] == b@[j],
        decreases a.len() - i,
    {
        if a[i] != b[i] {
            return false;
        }
        i += 1;
    }
    assert(a@ =~= b@);
    true
}

impl TryFrom<i32> for KeyEdition {
    type Error = KeyError;

    /// The edition that `value` stands for; `UnknownEdition` for a number
    /// other than 0, 1, 2 and 3.
    fn try_from(value: i32) -> (edition: Result<Self, Self::Error>)
        ensures
            edition == match KeyEdition::of_code(value as int) {
                Some(e) => Ok::<KeyEdition, KeyError>(e),
                None => Err(KeyError::UnknownEdition),
            },
    {
        match value {
            0 => Ok(KeyEdition::Business),
            1 => Ok(KeyEdition::Extreme),
            2 => Ok(KeyEdition::Engineer),
            3 => Ok(KeyEdition::NetworkAudit),
            _ => Err(KeyError::UnknownEdition),
        }
    }
}

impl TryFromSpecImpl<i32> for KeyEdition {
    open spec fn obeys_try_from_spec() -> bool {
        true
    }

    open spec fn try_from_spec(value: i32) -> Result<Self, Self::Error> {
        match KeyEdition::of_code(value as int) {
            Some(e) => Ok(e),
            None => Err(KeyError::UnknownEdition),
        }
    }
}

impl<'a> TryFrom<&'a str> for KeyEdition {
    type Error = KeyError;

    /// The edition that goes by the short name `value`; `UnknownEdition`
    /// for any other text.
    fn try_from(value: &'a str) -> (edition: Result<Self, Self::Error>)
        ensures
            edition == match KeyEdition::of_name(value@) {
                Some(e) => Ok::<KeyEdition, KeyError>(e),
                None => Err(KeyError::UnknownEdition),
            },
    {
        if same_text(value, "business") {
            Ok(KeyEdition::Business)
        } else if same_text(value, "extreme") {
            Ok(KeyEdition::Extreme)
        } else if same_text(value, "engineer") {
            Ok(KeyEdition::Engineer)
        } else if same_text(value, "network") {
            Ok(KeyEdition::NetworkAudit)
        } else {
            Err(KeyError::UnknownEdition)
        }
    }
}

impl<'a> TryFromSpecImpl<&'a str> for KeyEdition {
    open spec fn obeys_try_from_spec() -> bool {
        true
    }

    open spec fn try_from_spec(value: &'a str) -> Result<Self, Self::Error> {
        match KeyEdition::of_name(value@) {
            Some(e) => Ok(e),
            None => Err(KeyError::UnknownEdition),
        }
    }
}

} // verus!
