//! The three-valued relay command and its wire forms.

use vstd::prelude::*;
use vstd::string::{StrSliceExecFns, StringSliceAdditionalSpecFns};

verus! {

/// The command sent to the furnace relay: off, heat or cool.
///
/// On the wire it is a lowercase ASCII word; on input only the first letter
/// decides, case-insensitively.
#[derive(Copy, Clone, PartialEq, Eq, Structural, Debug)]
pub enum HvacRequest {
    Off,
    Heat,
    Cool,
}

impl HvacRequest {
    /// The command a leading payload byte denotes, if any.
    pub open spec fn spec_from_byte(b: u8) -> Option<HvacRequest> {
        if b == 'o' as u8 || b == 'O' as u8 {
            Some(HvacRequest::Off)
        } else if b == 'h' as u8 || b == 'H' as u8 {
            Some(HvacRequest::Heat)
        } else if b == 'c' as u8 || b == 'C' as u8 {
            Some(HvacRequest::Cool)
        } else {
            None
        }
    }

    /// The command a payload denotes: its first byte decides.
    pub open spec fn spec_from_payload(p: Seq<u8>) -> Option<HvacRequest> {
        if p.len() == 0 {
            None
        } else {
            Self::spec_from_byte(p[0])
        }
    }

    /// The command a character string denotes: its first character decides.
    pub open spec fn spec_from_chars(s: Seq<char>) -> Option<HvacRequest> {
        if s.len() == 0 {
            None
        } else if s[0] == 'o' || s[0] == 'O' {
            Some(HvacRequest::Off)
        } else if s[0] == 'h' || s[0] == 'H' {
            Some(HvacRequest::Heat)
        } else if s[0] == 'c' || s[0] == 'C' {
            Some(HvacRequest::Cool)
        } else {
            None
        }
    }

    /// Decode a bus payload into a command by its first byte.
    pub fn from_payload(payload: &[u8]) -> (r: Option<HvacRequest>)
        ensures
            r == Self::spec_from_payload(payload@),
    {
        if payload.len() == 0 {
            None
        } else {
            let b = payload[0];
            if b == 'o' as u8 || b == 'O' as u8 {
                Some(HvacRequest::Off)
            } else if b == 'h' as u8 || b == 'H' as u8 {
                Some(HvacRequest::Heat)
            } else if b == 'c' as u8 || b == 'C' as u8 {
                Some(HvacRequest::Cool)
            } else {
                None
            }
        }
    }

    /// Decode a string into a command by its first character.
    pub fn from_string(payload: String) -> (r: Option<HvacRequest>)
        ensures
            r == Self::spec_from_chars(payload@),
    {
        let s = payload.as_str();
        if s.unicode_len() == 0 {
            None
        } else {
            match s.get_char(0) {
                'o' | 'O' => Some(HvacRequest::Off),
                'h' | 'H' => Some(HvacRequest::Heat),
                'c' | 'C' => Some(HvacRequest::Cool),
                _ => None,
            }
        }
    }

    /// The wire word of the command, as characters.
    pub open spec fn spec_payload_str(self) -> Seq<char> {
        match self {
            HvacRequest::Off => "off"@,
            HvacRequest::Heat => "heat"@,
            HvacRequest::Cool => "cool"@,
        }
    }

    /// The wire word of the command, as bytes.
    pub open spec fn spec_payload_bytes(self) -> Seq<u8> {
        match self {
            HvacRequest::Off => seq!['o' as u8, 'f' as u8, 'f' as u8],
            HvacRequest::Heat => seq!['h' as u8, 'e' as u8, 'a' as u8, 't' as u8],
            HvacRequest::Cool => seq!['c' as u8, 'o' as u8, 'o' as u8, 'l' as u8],
        }
    }

    /// The lowercase wire word of the command.
    pub fn payload_str(self) -> (r: &'static str)
        ensures
            r@ == self.spec_payload_str(),
    {
        match self {
            HvacRequest::Off => "off",
            HvacRequest::Heat => "heat",
            HvacRequest::Cool => "cool",
        }
    }

    /// The lowercase wire word of the command, as bytes.
    pub fn payload(self) -> (r: Vec<u8>)
        ensures
            r@ == self.spec_payload_bytes(),
    {
        let mut v: Vec<u8> = Vec::new();
        match self {
            HvacRequest::Off => {
                v.push('o' as u8);
                v.push('f' as u8);
                v.push('f' as u8);
            },
            HvacRequest::Heat => {
                v.push('h' as u8);
                v.push('e' as u8);
                v.push('a' as u8);
                v.push('t' as u8);
            },
            HvacRequest::Cool => {
                v.push('c' as u8);
                v.push('o' as u8);
                v.push('o' as u8);
                v.push('l' as u8);
            },
        }
        proof {
            assert(v@ =~= self.spec_payload_bytes());
        }
        v
    }

    /// What `&` means on commands: both must agree on heat or cool, else off.
    pub open spec fn spec_bitand(self, rhs: HvacRequest) -> HvacRequest {
        match (self, rhs) {
            (HvacRequest::Heat, HvacRequest::Heat) => HvacRequest::Heat,
            (HvacRequest::Cool, HvacRequest::Cool) => HvacRequest::Cool,
            _ => HvacRequest::Off,
        }
    }

    /// Combine two commands: they must agree on heat or cool, else off.
    pub fn bitand(self, rhs: HvacRequest) -> (r: HvacRequest)
        ensures
            r == self.spec_bitand(rhs),
    {
        match (self, rhs) {
            (HvacRequest::Heat, HvacRequest::Heat) => HvacRequest::Heat,
            (HvacRequest::Cool, HvacRequest::Cool) => HvacRequest::Cool,
            _ => HvacRequest::Off,
        }
    }
}

/// The wire word of a command reads back as that command.
pub proof fn law_wire_word_round_trip(r: HvacRequest)
    ensures
        HvacRequest::spec_from_payload(r.spec_payload_bytes()) == Some(r),
{
}

impl Default for HvacRequest {
    /// The default command is off.
    fn default() -> (r: Self)
        ensures
            r == HvacRequest::Off,
    {
        HvacRequest::Off
    }
}

/// A lowercase letter for an uppercase ASCII one; any other byte as it is.
pub open spec fn lower_byte(b: u8) -> u8 {
    if 'A' as u8 <= b <= 'Z' as u8 {
        (b + 0x20) as u8
    } else {
        b
    }
}

/// The operator's high-level intent: off, heat or cool. It steers the
/// script's choice and is distinct from the emitted call.
#[derive(Copy, Clone, PartialEq, Eq, Structural, Debug)]
pub enum HvacMode {
    Off,
    Heat,
    Cool,
}

impl HvacMode {
    /// The mode a word names, compared without regard to ASCII case.
    pub open spec fn spec_from_bytes(b: Seq<u8>) -> Option<HvacMode> {
        if b.len() == 3 && lower_byte(b[0]) == 'o' as u8 && lower_byte(b[1]) == 'f' as u8
            && lower_byte(b[2]) == 'f' as u8 {
            Some(HvacMode::Off)
        } else if b.len() == 4 && lower_byte(b[0]) == 'h' as u8 && lower_byte(b[1]) == 'e' as u8
            && lower_byte(b[2]) == 'a' as u8 && lower_byte(b[3]) == 't' as u8 {
            Some(HvacMode::Heat)
        } else if b.len() == 4 && lower_byte(b[0]) == 'c' as u8 && lower_byte(b[1]) == 'o' as u8
            && lower_byte(b[2]) == 'o' as u8 && lower_byte(b[3]) == 'l' as u8 {
            Some(HvacMode::Cool)
        } else {
            None
        }
    }

    /// Parse a mode word, ignoring ASCII case; any other text is an error.
    pub fn from_str(s: &str) -> (r: Result<HvacMode, ()>)
        ensures
            match r {
                Ok(m) => Self::spec_from_bytes(s.spec_bytes()) == Some(m),
                Err(_) => Self::spec_from_bytes(s.spec_bytes()) is None,
            },
    {
        let b = s.as_bytes();
        if b.len() == 3 && lower(b[0]) == 'o' as u8 && lower(b[1]) == 'f' as u8 && lower(b[2])
            == 'f' as u8 {
            Ok(HvacMode::Off)
        } else if b.len() == 4 && lower(b[0]) == 'h' as u8 && lower(b[1]) == 'e' as u8 && lower(
            b[2],
        ) == 'a' as u8 && lower(b[3]) == 't' as u8 {
            Ok(HvacMode::Heat)
        } else if b.len() == 4 && lower(b[0]) == 'c' as u8 && lower(b[1]) == 'o' as u8 && lower(
            b[2],
        ) == 'o' as u8 && lower(b[3]) == 'l' as u8 {
            Ok(HvacMode::Cool)
        } else {
            Err(())
        }
    }

    /// The mode's display word, capitalized.
    pub fn display_str(self) -> (r: &'static str)
        ensures
            r@ == match self {
                HvacMode::Off => "Off"@,
                HvacMode::Heat => "Heat"@,
                HvacMode::Cool => "Cool"@,
            },
    {
        match self {
            HvacMode::Off => "Off",
            HvacMode::Heat => "Heat",
            HvacMode::Cool => "Cool",
        }
    }
}

/// Lowercase an ASCII letter.
fn lower(b: u8) -> (r: u8)
    ensures
        r == lower_byte(b),
{
    if 'A' as u8 <= b && b <= 'Z' as u8 {
        b + 0x20
    } else {
        b
    }
}

/// A relay command packed into one byte, as shared state keeps it.
pub struct AtomicHvacRequest {
    value: u8,
}

impl AtomicHvacRequest {
    /// The command the cell holds: an unknown encoding reads as off.
    pub closed spec fn spec_value(&self) -> HvacRequest {
        if self.value == 1 {
            HvacRequest::Heat
        } else if self.value == 2 {
            HvacRequest::Cool
        } else {
            HvacRequest::Off
        }
    }

    /// A fresh cell, holding off.
    pub fn new() -> (r: AtomicHvacRequest)
        ensures
            r.spec_value() == HvacRequest::Off,
    {
        AtomicHvacRequest { value: 0 }
    }

    /// Store a command.
    pub fn store(&mut self, request: HvacRequest)
        ensures
            final(self).spec_value() == request,
    {
        self.value = match request {
            HvacRequest::Off => 0,
            HvacRequest::Heat => 1,
            HvacRequest::Cool => 2,
        };
    }

    /// Read the held command.
    pub fn load(&self) -> (r: HvacRequest)
        ensures
            r == self.spec_value(),
    {
        if self.value == 1 {
            HvacRequest::Heat
        } else if self.value == 2 {
            HvacRequest::Cool
        } else {
            HvacRequest::Off
        }
    }
}

} // verus!
