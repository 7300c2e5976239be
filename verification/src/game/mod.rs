//! World and zone packet codecs and the protocol dialect boundary.

pub mod chat;
pub mod command;

use vstd::prelude::*;

verus! {

/// Game packet layout used by a client generation.
#[derive(Clone, Copy, Debug, Eq, PartialEq, Structural)]
#[non_exhaustive]
pub enum GameDialect {
    /// Titanium with the Project 1999 V62 patch.
    TitaniumP99,
    /// The Windows TAKP/EQMac client used by Project Quarm.
    EqMac,
}

impl Default for GameDialect {
    fn default() -> (d: Self)
        ensures
            d == GameDialect::TitaniumP99,
    {
        GameDialect::TitaniumP99
    }
}

} // verus!
