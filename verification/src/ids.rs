//! Content identifiers: fixed-width digests of canonical block bytes.

use vstd::prelude::*;
use sha2::Digest;

verus! {

/// The digest that `sha2`'s SHA-256 computes for a byte sequence. The
/// result depends on the bytes alone; nothing further is assumed of it.
pub uninterp spec fn sha256_of(bytes: Seq<u8>) -> Seq<u8>;

/// The all-zero identifier: "no parent", legal only for the genesis block.
pub open spec fn empty_id() -> Seq<u8> {
    Seq::new(32, |i: int| 0u8)
}

/// An identifier is always exactly 32 bytes.
pub broadcast proof fn lemma_id_len(id: Id)
    ensures
        (#[trigger] id@).len() == 32,
{
}

/// A fixed-width content identifier. A block's identifier is the SHA-256
/// digest of its encoded bytes; the all-zero identifier stands for
/// "no parent".
#[derive(Clone, Copy, Debug)]
pub struct Id {
    digest: [u8; 32],
}

impl View for Id {
    type V = Seq<u8>;

    closed spec fn view(&self) -> Seq<u8> {
        self.digest@
    }
}

impl Id {
    /// The all-zero identifier.
    pub fn empty() -> (r: Id)
        ensures
            r@ == empty_id(),
    {
        let digest = [0u8; 32];
        proof {
            assert(digest@ =~= empty_id());
        }
        Id { digest }
    }

    /// Whether this is the all-zero identifier.
    pub fn is_empty(&self) -> (r: bool)
        ensures
            r == (self@ == empty_id()),
    {
        let mut i: usize = 0;
        while i < 32
            invariant
                i <= 32,
                forall|j: int| 0 <= j < i ==> self@[j] == 0,
            decreases 32 - i,
        {
            if self.digest[i] != 0 {
                proof {
                    assert(self@[i as int] != empty_id()[i as int]);
                }
                return false;
            }
            i = i + 1;
        }
        proof {
            assert(self@ =~= empty_id());
        }
        true
    }

    /// Rebuilds an identifier from its 32 bytes.
    pub fn from_bytes(v: &[u8]) -> (r: Id)
        requires
            v@.len() == 32,
        ensures
            r@ == v@,
    {
        let mut digest = [0u8; 32];
        let mut i: usize = 0;
        while i < 32
            invariant
                i <= 32,
                v@.len() == 32,
                forall|j: int| 0 <= j < i ==> digest@[j] == v@[j],
            decreases 32 - i,
        {
            digest[i] = v[i];
            i = i + 1;
        }
        proof {
            assert(digest@ =~= v@);
        }
        Id { digest }
    }

    /// The identifier's bytes.
    pub fn as_slice(&self) -> (r: &[u8])
        ensures
            r@ == self@,
    {
        self.digest.as_slice()
    }

    /// The identifier as lowercase hexadecimal text.
    pub fn to_hex(&self) -> (r: String)
        ensures
            vstd::utf8::encode_utf8(r@) == crate::codec::hex_of(self@),
    {
        let mut bytes: Vec<u8> = Vec::new();
        crate::codec::push_hex(&mut bytes, self.as_slice());
        let ghost bv = bytes@;
        proof {
            crate::codec::lemma_hex_of_is_hex(self@);
            assert forall|i: int| 0 <= i < bv.len() implies bv[i] < 0x80 by {
                assert(crate::codec::is_lower_hex(bv[i]));
            }
            crate::codec::lemma_ascii_valid_utf8(bv);
        }
        match crate::codec::string_from_utf8(bytes) {
            Some(s) => {
                proof {
                    vstd::utf8::decode_utf8_encode_utf8(bv);
                }
                s
            },
            None => {
                proof {
                    assert(false);
                }
                String::new()
            },
        }
    }

    /// Relies on `sha2::Sha256::digest`: the 32-byte SHA-256 digest of the
    /// input, a function of the input bytes alone.
    #[verifier::external_body]
    pub(crate) fn sha256(bytes: &[u8]) -> (r: Id)
        ensures
            r@ == sha256_of(bytes@),
    {
        Id { digest: sha2::Sha256::digest(bytes).into() }
    }
}

impl PartialEq for Id {
    fn eq(&self, other: &Id) -> (r: bool) {
        let mut i: usize = 0;
        while i < 32
            invariant
                i <= 32,
                forall|j: int| 0 <= j < i ==> self@[j] == other@[j],
            decreases 32 - i,
        {
            if self.digest[i] != other.digest[i] {
                proof {
                    assert(self@[i as int] != other@[i as int]);
                }
                return false;
            }
            i = i + 1;
        }
        proof {
            assert(self@ =~= other@);
        }
        true
    }
}

impl vstd::std_specs::cmp::PartialEqSpecImpl for Id {
    open spec fn obeys_eq_spec() -> bool {
        true
    }

    open spec fn eq_spec(&self, other: &Id) -> bool {
        self@ == other@
    }
}

} // verus!
