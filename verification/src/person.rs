//! The ENS extension a person can attach to their identity document.

use vstd::prelude::*;

verus! {

/// An Ethereum Name Service name claimed by a person.
pub struct Ens {
    pub name: String,
}

impl Ens {
    /// The namespace URL the extension is stored under.
    pub fn namespace() -> (r: &'static str)
        ensures
            r@ == "https://radicle.xyz/ethereum/ens/v1"@,
    {
        "https://radicle.xyz/ethereum/ens/v1"
    }
}

} // verus!
