//! Font-format magic numbers.

use crate::error::FontIoError;
use vstd::prelude::*;

verus! {

/// 32-bit font-format identification magic number.
///
/// Embedded OpenType and MicroType Express cannot be detected with a simple
/// magic-number sniff.
#[derive(Debug, Clone, Copy, PartialEq, Eq, Structural)]
pub enum Magic {
    /// 'OTTO' - OpenType
    OpenType,
    /// FIXED 1.0 - TrueType (or possibly v1.0 Embedded OpenType)
    TrueType,
    /// 'typ1' - PostScript Type 1
    PostScriptType1,
    /// 'true' - TrueType fonts for OS X / iOS
    AppleTrue,
    /// 'wOFF' - WOFF 1.0
    Woff,
    /// 'wOF2' - WOFF 2.0
    Woff2,
}

impl Magic {
    /// The number that identifies this format.
    pub open spec fn spec_value(self) -> u32 {
        match self {
            Magic::OpenType => 0x4f54544f,
            Magic::TrueType => 0x00010000,
            Magic::PostScriptType1 => 0x74797031,
            Magic::AppleTrue => 0x74727565,
            Magic::Woff => 0x774f4646,
            Magic::Woff2 => 0x774f4632,
        }
    }

    /// The format that `v` identifies, if any.
    pub open spec fn spec_from_value(v: u32) -> Option<Magic> {
        if v == 0x4f54544f {
            Some(Magic::OpenType)
        } else if v == 0x00010000 {
            Some(Magic::TrueType)
        } else if v == 0x74797031 {
            Some(Magic::PostScriptType1)
        } else if v == 0x74727565 {
            Some(Magic::AppleTrue)
        } else if v == 0x774f4646 {
            Some(Magic::Woff)
        } else if v == 0x774f4632 {
            Some(Magic::Woff2)
        } else {
            None
        }
    }

    /// The number that identifies this format.
    pub fn value(&self) -> (r: u32)
        ensures
            r == self.spec_value(),
    {
        match self {
            Magic::OpenType => 0x4f54544f,
            Magic::TrueType => 0x00010000,
            Magic::PostScriptType1 => 0x74797031,
            Magic::AppleTrue => 0x74727565,
            Magic::Woff => 0x774f4646,
            Magic::Woff2 => 0x774f4632,
        }
    }
}

/// A format's number names that format, and a number names a format only if
/// it is that format's number.
pub proof fn lemma_magic_value_roundtrip(m: Magic, v: u32)
    ensures
        Magic::spec_from_value(m.spec_value()) == Some(m),
        Magic::spec_from_value(v) matches Some(f) ==> f.spec_value() == v,
{
}

impl TryFrom<u32> for Magic {
    type Error = FontIoError;

    /// Matches `v` against the known font-format magic numbers.
    fn try_from(v: u32) -> (r: Result<Magic, FontIoError>) {
        if v == 0x4f54544f {
            Ok(Magic::OpenType)
        } else if v == 0x00010000 {
            Ok(Magic::TrueType)
        } else if v == 0x74797031 {
            Ok(Magic::PostScriptType1)
        } else if v == 0x74727565 {
            Ok(Magic::AppleTrue)
        } else if v == 0x774f4646 {
            Ok(Magic::Woff)
        } else if v == 0x774f4632 {
            Ok(Magic::Woff2)
        } else {
            Err(FontIoError::UnknownMagic(v))
        }
    }
}

impl vstd::std_specs::convert::TryFromSpecImpl<u32> for Magic {
    open spec fn obeys_try_from_spec() -> bool {
        true
    }

    open spec fn try_from_spec(v: u32) -> Result<Magic, FontIoError> {
        match Magic::spec_from_value(v) {
            Some(m) => Ok(m),
            None => Err(FontIoError::UnknownMagic(v)),
        }
    }
}

} // verus!
