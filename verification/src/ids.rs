//! Identifiers of the collaboration network, held as plain byte strings.
//!
//! The network derives these from content hashes and public keys; the engine
//! treats them as opaque: it compares them for equality, orders peer ids
//! byte-lexicographically, and resolves user-supplied prefixes of patch ids.

use vstd::prelude::*;
use crate::bytes::{bytes_copy, bytes_eq};

verus! {

/// A commit object id: an opaque content hash of a commit.
pub struct Oid {
    pub bytes: Vec<u8>,
}

impl View for Oid {
    type V = Seq<u8>;

    open spec fn view(&self) -> Seq<u8> {
        self.bytes@
    }
}

impl Oid {
    /// A commit hash is 20 or 32 bytes wide.
    pub open spec fn wf(&self) -> bool {
        self.bytes@.len() == 20 || self.bytes@.len() == 32
    }

    pub fn new(bytes: Vec<u8>) -> (r: Oid)
        ensures
            r@ == bytes@,
    {
        Oid { bytes }
    }

    pub fn same(&self, other: &Oid) -> (r: bool)
        ensures
            r == (self@ == other@),
    {
        bytes_eq(&self.bytes, &other.bytes)
    }

    pub fn duplicate(&self) -> (r: Oid)
        ensures
            r@ == self@,
    {
        Oid { bytes: bytes_copy(&self.bytes) }
    }
}

/// A peer's stable identifier, derived from its public key.
pub struct PeerId {
    pub bytes: Vec<u8>,
}

impl View for PeerId {
    type V = Seq<u8>;

    open spec fn view(&self) -> Seq<u8> {
        self.bytes@
    }
}

impl PeerId {
    pub fn new(bytes: Vec<u8>) -> (r: PeerId)
        ensures
            r@ == bytes@,
    {
        PeerId { bytes }
    }

    pub fn same(&self, other: &PeerId) -> (r: bool)
        ensures
            r == (self@ == other@),
    {
        bytes_eq(&self.bytes, &other.bytes)
    }

    pub fn duplicate(&self) -> (r: PeerId)
        ensures
            r@ == self@,
    {
        PeerId { bytes: bytes_copy(&self.bytes) }
    }
}

/// A stable reference to a project or change-object in the network.
pub struct Urn {
    pub bytes: Vec<u8>,
}

impl View for Urn {
    type V = Seq<u8>;

    open spec fn view(&self) -> Seq<u8> {
        self.bytes@
    }
}

impl Urn {
    pub fn new(bytes: Vec<u8>) -> (r: Urn)
        ensures
            r@ == bytes@,
    {
        Urn { bytes }
    }

    pub fn same(&self, other: &Urn) -> (r: bool)
        ensures
            r == (self@ == other@),
    {
        bytes_eq(&self.bytes, &other.bytes)
    }

    pub fn duplicate(&self) -> (r: Urn)
        ensures
            r@ == self@,
    {
        Urn { bytes: bytes_copy(&self.bytes) }
    }
}

/// A patch change-object is addressed by the urn of the object.
pub type PatchId = Urn;

/// A user-supplied shortened form of a patch id, resolved by prefix.
pub struct CobIdentifier {
    pub bytes: Vec<u8>,
}

impl View for CobIdentifier {
    type V = Seq<u8>;

    open spec fn view(&self) -> Seq<u8> {
        self.bytes@
    }
}

impl CobIdentifier {
    pub fn new(bytes: Vec<u8>) -> (r: CobIdentifier)
        ensures
            r@ == bytes@,
    {
        CobIdentifier { bytes }
    }
}

/// A byte is forbidden anywhere in a reference name: spaces and control
/// characters cannot occur.
pub open spec fn ref_byte_forbidden(b: u8) -> bool {
    b == 0x20 || b < 0x20 || b == 0x7f
}

/// A syntactically valid branch or reference name: non-empty, no leading
/// `-`, no `..`, no spaces, no control characters.
pub open spec fn valid_ref_name(s: Seq<u8>) -> bool {
    &&& s.len() > 0
    &&& s[0] != 0x2d
    &&& forall|j: int| 0 <= j < s.len() ==> !ref_byte_forbidden(#[trigger] s[j])
    &&& forall|j: int| 0 <= j && j + 1 < s.len() ==> !(#[trigger] s[j] == 0x2e && s[j + 1] == 0x2e)
}

/// A syntactically validated branch or reference name.
pub struct RefLike {
    pub bytes: Vec<u8>,
}

impl View for RefLike {
    type V = Seq<u8>;

    open spec fn view(&self) -> Seq<u8> {
        self.bytes@
    }
}

impl RefLike {
    /// Validates a proposed reference name; the only constructor, so every
    /// `RefLike` in the program satisfies `valid_ref_name`.
    pub fn try_new(bytes: Vec<u8>) -> (r: Option<RefLike>)
        ensures
            match r {
                Some(rl) => rl@ == bytes@ && valid_ref_name(bytes@),
                None => !valid_ref_name(bytes@),
            },
    {
        let n = bytes.len();
        if n == 0 {
            return None;
        }
        if bytes[0] == 0x2d {
            return None;
        }
        let mut i: usize = 0;
        while i < n
            invariant
                n == bytes@.len(),
                i <= n,
                forall|j: int| 0 <= j < i ==> !ref_byte_forbidden(#[trigger] bytes@[j]),
                forall|j: int| 0 <= j < i && j + 1 < n ==> !(#[trigger] bytes@[j] == 0x2e
                    && bytes@[j + 1] == 0x2e),
            decreases n - i,
        {
            let b = bytes[i];
            if b <= 0x20 || b == 0x7f {
                return None;
            }
            if i + 1 < n && b == 0x2e && bytes[i + 1] == 0x2e {
                return None;
            }
            i = i + 1;
        }
        Some(RefLike { bytes })
    }

    pub fn same(&self, other: &RefLike) -> (r: bool)
        ensures
            r == (self@ == other@),
    {
        bytes_eq(&self.bytes, &other.bytes)
    }

    pub fn duplicate(&self) -> (r: RefLike)
        ensures
            r@ == self@,
            valid_ref_name(self@) ==> valid_ref_name(r@),
    {
        RefLike { bytes: bytes_copy(&self.bytes) }
    }

    pub fn as_bytes(&self) -> (r: &Vec<u8>)
        ensures
            r@ == self@,
    {
        &self.bytes
    }
}

} // verus!
