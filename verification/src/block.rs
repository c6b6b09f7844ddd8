//! The block entity: an immutable-once-hashed chain entry that owns its
//! canonical encoding, its content-derived identifier, and its decision
//! status.

use vstd::prelude::*;
use crate::codec;
use crate::codec::{decode_block_spec, encode_block_spec};
use crate::ids::{empty_id, sha256_of, Id};
use crate::state::{State, StateView};
use crate::Error;

verus! {

broadcast use crate::ids::lemma_id_len;

/// A block's decision state. Not part of the canonical encoding.
#[derive(Clone, Copy, Debug, PartialEq, Eq, Structural)]
pub enum Status {
    /// Verified (or freshly parsed) but not yet decided.
    Processing,
    /// Decided canonical by the consensus engine.
    Accepted,
    /// Decided non-canonical; kept for history, never extended.
    Rejected,
}

impl Default for Status {
    /// A fresh block is undecided.
    fn default() -> (r: Self)
        ensures
            r == Status::Processing,
    {
        Status::Processing
    }
}

/// The mathematical content of a [`Block`].
pub ghost struct BlockView {
    /// Identifier of the preceding block; all-zero for the genesis block.
    pub parent_id: Seq<u8>,
    /// Chain height; the genesis block sits at height zero.
    pub height: u64,
    /// Unix seconds at which the block was proposed.
    pub timestamp: u64,
    /// The opaque application payload.
    pub data: Seq<u8>,
    /// The decision state.
    pub status: Status,
    /// The exact bytes whose digest is the block's identifier.
    pub bytes: Seq<u8>,
    /// The content-derived identifier.
    pub id: Seq<u8>,
}

impl BlockView {
    /// Well-formedness: the cached bytes really decode to the block's
    /// fields, and the identifier really is their digest.
    pub open spec fn wf(self) -> bool {
        &&& self.parent_id.len() == 32
        &&& decode_block_spec(self.bytes) == Some(
            (self.parent_id, self.height, self.timestamp, self.data),
        )
        &&& self.id == sha256_of(self.bytes)
    }

    /// The genesis rule: height zero with no parent.
    pub open spec fn is_genesis(self) -> bool {
        self.height == 0 && self.parent_id == empty_id()
    }
}

/// One chain entry. Its identifier is the SHA-256 digest of its canonical
/// encoded bytes; the bytes are cached at construction so that the
/// identifier of a decoded block is derived from the exact bytes received.
#[derive(Debug)]
pub struct Block {
    parent_id: Id,
    height: u64,
    timestamp: u64,
    data: Vec<u8>,
    status: Status,
    bytes: Vec<u8>,
    id: Id,
}

impl View for Block {
    type V = BlockView;

    closed spec fn view(&self) -> BlockView {
        BlockView {
            parent_id: self.parent_id@,
            height: self.height,
            timestamp: self.timestamp,
            data: self.data@,
            status: self.status,
            bytes: self.bytes@,
            id: self.id@,
        }
    }
}

impl Block {
    /// Constructs a block from its fields: computes the canonical
    /// encoding and derives the identifier from it. Never fails for
    /// well-formed inputs; the `Result` mirrors the operation surface.
    pub fn new(parent_id: Id, height: u64, timestamp: u64, data: Vec<u8>, status: Status) -> (r:
        Result<Block, Error>)
        ensures
            r is Ok,
            r matches Ok(b) ==> {
                &&& b@.parent_id == parent_id@
                &&& b@.height == height
                &&& b@.timestamp == timestamp
                &&& b@.data == data@
                &&& b@.status == status
                &&& b@.bytes == encode_block_spec(parent_id@, height, timestamp, data@)
                &&& b@.id == sha256_of(b@.bytes)
                &&& b@.wf()
            },
    {
        let bytes = codec::encode_block(parent_id.as_slice(), height, timestamp, data.as_slice());
        let id = Id::sha256(bytes.as_slice());
        proof {
            codec::lemma_decode_encode_block(parent_id@, height, timestamp, data@);
        }
        Ok(Block { parent_id, height, timestamp, data, status, bytes, id })
    }

    /// Decodes a block from raw bytes. The received bytes are kept
    /// verbatim and the identifier is their digest, so byte-identical
    /// inputs always yield the same identifier. Fails exactly on inputs
    /// that are not a canonical block document.
    pub fn from_slice(d: &[u8]) -> (r: Result<Block, Error>)
        ensures
            r is Ok <==> decode_block_spec(d@) is Some,
            r matches Err(e) ==> e == Error::InvalidData,
            r matches Ok(b) ==> {
                &&& decode_block_spec(d@) == Some((b@.parent_id, b@.height, b@.timestamp, b@.data))
                &&& b@.bytes == d@
                &&& b@.id == sha256_of(d@)
                &&& b@.status == Status::Processing
                &&& b@.wf()
            },
    {
        match codec::decode_block(d) {
            None => Err(Error::InvalidData),
            Some((pv, h, t, dv)) => {
                proof {
                    codec::lemma_decode_block_shape(d@);
                    assert(pv@.len() == 32);
                }
                let parent_id = Id::from_bytes(pv.as_slice());
                let bytes = vstd::slice::slice_to_vec(d);
                let id = Id::sha256(d);
                Ok(
                    Block {
                        parent_id,
                        height: h,
                        timestamp: t,
                        data: dv,
                        status: Status::Processing,
                        bytes,
                        id,
                    },
                )
            },
        }
    }

    /// The canonical document as text: the string whose UTF-8 bytes are
    /// exactly the block's canonical encoding, which is all ASCII. Never
    /// fails; the `Result` mirrors the operation surface.
    pub fn to_json_string(&self) -> (r: Result<String, Error>)
        ensures
            r is Ok,
            r matches Ok(s) ==> vstd::utf8::encode_utf8(s@) == encode_block_spec(
                self@.parent_id,
                self@.height,
                self@.timestamp,
                self@.data,
            ),
    {
        let bytes = codec::encode_block(
            self.parent_id.as_slice(),
            self.height,
            self.timestamp,
            self.data.as_slice(),
        );
        let ghost bv = bytes@;
        proof {
            codec::lemma_encode_block_ascii(self@.parent_id, self@.height, self@.timestamp, self@.data);
            codec::lemma_ascii_valid_utf8(bv);
        }
        match codec::string_from_utf8(bytes) {
            Some(s) => {
                proof {
                    vstd::utf8::decode_utf8_encode_utf8(bv);
                }
                Ok(s)
            },
            None => {
                proof {
                    assert(false);
                }
                Err(Error::InvalidData)
            },
        }
    }

    /// Re-encodes the block's fields canonically. Never fails; the
    /// `Result` mirrors the operation surface.
    pub fn to_slice(&self) -> (r: Result<Vec<u8>, Error>)
        ensures
            r is Ok,
            r matches Ok(v) ==> v@ == encode_block_spec(
                self@.parent_id,
                self@.height,
                self@.timestamp,
                self@.data,
            ),
    {
        Ok(codec::encode_block(self.parent_id.as_slice(), self.height, self.timestamp, self.data.as_slice()))
    }

    /// The identifier of the preceding block.
    pub fn parent_id(&self) -> (r: Id)
        ensures
            r@ == self@.parent_id,
    {
        self.parent_id
    }

    /// This block's height.
    pub fn height(&self) -> (r: u64)
        ensures
            r == self@.height,
    {
        self.height
    }

    /// Unix second when this block was proposed.
    pub fn timestamp(&self) -> (r: u64)
        ensures
            r == self@.timestamp,
    {
        self.timestamp
    }

    /// The application payload.
    pub fn data(&self) -> (r: &[u8])
        ensures
            r@ == self@.data,
    {
        self.data.as_slice()
    }

    /// The current decision state.
    pub fn status(&self) -> (r: Status)
        ensures
            r == self@.status,
    {
        self.status
    }

    /// Overwrites the decision state and nothing else.
    pub fn set_status(&mut self, status: Status)
        ensures
            final(self)@ == (BlockView { status: status, ..old(self)@ }),
    {
        self.status = status;
    }

    /// The exact bytes the identifier was derived from.
    pub fn bytes(&self) -> (r: &[u8])
        ensures
            r@ == self@.bytes,
    {
        self.bytes.as_slice()
    }

    /// The content-derived identifier.
    pub fn id(&self) -> (r: Id)
        ensures
            r@ == self@.id,
    {
        self.id
    }
}

/// The parent-relative checks: the parent must be known to the store,
/// the block must sit one above it, and time must not run backwards.
pub open spec fn parent_checks(b: BlockView, s: StateView) -> bool {
    match s.get_spec(b.parent_id) {
        Some(p) => p.height + 1 == b.height && p.timestamp <= b.timestamp,
        None => false,
    }
}

/// Whether verification of block `b` against store `s` succeeds: a
/// genesis block unconditionally, a block the store already knows
/// immediately, anything else by the parent-relative checks.
pub open spec fn verify_ok(b: BlockView, s: StateView) -> bool {
    b.is_genesis() || s.known(b.id) || parent_checks(b, s)
}

/// The error a failing verification reports: the missing parent, else
/// the failing validation.
pub open spec fn verify_err(b: BlockView, s: StateView) -> Error {
    if s.get_spec(b.parent_id) is None {
        Error::NotFound
    } else {
        Error::InvalidData
    }
}

/// The store a verification leaves behind: unchanged, except that a
/// block which newly passed the parent-relative checks is filed in the
/// verified-candidate map.
pub open spec fn verify_post(b: BlockView, s: StateView) -> StateView {
    if !b.is_genesis() && !s.known(b.id) && parent_checks(b, s) {
        StateView { verified: s.verified.insert(b.id, b), ..s }
    } else {
        s
    }
}

impl Block {
    /// Validates this block against its parent in the store.
    ///
    /// A genesis block passes unconditionally; a block the store already
    /// knows passes immediately and mutates nothing; otherwise the parent
    /// is fetched and the height and timestamp rules are checked, and the
    /// block joins the verified-candidate map exactly when they hold.
    pub fn verify(&self, store: &mut State) -> (r: Result<(), Error>)
        requires
            old(store).inv(),
            self@.wf(),
        ensures
            final(store).inv(),
            r is Ok <==> verify_ok(self@, old(store)@),
            final(store)@ == verify_post(self@, old(store)@),
            r matches Err(e) ==> e == verify_err(self@, old(store)@),
    {
        if self.height == 0 && self.parent_id.is_empty() {
            return Ok(());
        }
        if store.get_block(&self.id).is_ok() {
            return Ok(());
        }
        let parent = match store.get_block(&self.parent_id) {
            Ok(p) => p,
            Err(_) => {
                return Err(Error::NotFound);
            },
        };
        if self.height == 0 || parent.height() != self.height - 1 {
            return Err(Error::InvalidData);
        }
        if parent.timestamp() > self.timestamp {
            return Err(Error::InvalidData);
        }
        store.add_verified(self);
        Ok(())
    }

    /// Marks this block accepted, persists it, and moves the canonical
    /// head to it. The operation never fails; the `Result` mirrors the
    /// operation surface.
    pub fn accept(&mut self, store: &mut State) -> (r: Result<(), Error>)
        requires
            old(store).inv(),
            old(self)@.wf(),
        ensures
            final(store).inv(),
            r is Ok,
            final(self)@ == (BlockView { status: Status::Accepted, ..old(self)@ }),
            final(store)@ == (StateView {
                committed: old(store)@.committed.insert(
                    old(self)@.id,
                    (old(self)@.bytes, Status::Accepted),
                ),
                last_accepted: Some(old(self)@.id),
                ..old(store)@
            }),
    {
        self.set_status(Status::Accepted);
        store.put_block(self);
        store.set_last_accepted_block(&self.id);
        Ok(())
    }

    /// Marks this block rejected and persists it for history; the
    /// canonical head is left exactly where it was. The operation never
    /// fails; the `Result` mirrors the operation surface.
    pub fn reject(&mut self, store: &mut State) -> (r: Result<(), Error>)
        requires
            old(store).inv(),
            old(self)@.wf(),
        ensures
            final(store).inv(),
            r is Ok,
            final(self)@ == (BlockView { status: Status::Rejected, ..old(self)@ }),
            final(store)@ == (StateView {
                committed: old(store)@.committed.insert(
                    old(self)@.id,
                    (old(self)@.bytes, Status::Rejected),
                ),
                ..old(store)@
            }),
            final(store)@.last_accepted == old(store)@.last_accepted,
    {
        self.set_status(Status::Rejected);
        store.put_block(self);
        Ok(())
    }
}

/// Round trip: a constructed block's encoded bytes decode back to
/// exactly the fields they were encoded from. A block decoded from those
/// bytes therefore carries the same fields, and — its identifier being
/// the digest of those same bytes — the same identifier as the block
/// they came from.
pub proof fn lemma_construct_decode_round_trip(
    parent_id: Seq<u8>,
    height: u64,
    timestamp: u64,
    data: Seq<u8>,
)
    requires
        parent_id.len() == 32,
    ensures
        ({
            let bytes = encode_block_spec(parent_id, height, timestamp, data);
            decode_block_spec(bytes) == Some((parent_id, height, timestamp, data))
        }),
{
    codec::lemma_decode_encode_block(parent_id, height, timestamp, data);
}

/// A well-formed block's cached bytes are exactly the canonical encoding
/// of its fields. Re-encoding therefore reproduces the cached bytes, the
/// identifier is stable under re-serialization, and two well-formed
/// blocks with equal fields carry equal bytes.
pub proof fn lemma_wf_bytes_canonical(b: BlockView)
    requires
        b.wf(),
    ensures
        b.bytes == encode_block_spec(b.parent_id, b.height, b.timestamp, b.data),
{
    codec::lemma_decode_block_canonical(b.bytes);
}

/// The parent-relative validation rules, in both directions: a block
/// that is not a genesis block and not already known verifies exactly
/// when it sits one above its stored parent without turning time back;
/// a height or timestamp violation is reported as invalid data.
pub proof fn lemma_verify_parent_rules(b: BlockView, s: StateView)
    requires
        !b.is_genesis(),
        !s.known(b.id),
        s.get_spec(b.parent_id) matches Some(p),
    ensures
        ({
            let p = s.get_spec(b.parent_id)->Some_0;
            verify_ok(b, s) <==> (p.height + 1 == b.height && p.timestamp <= b.timestamp)
        }),
        !verify_ok(b, s) ==> verify_err(b, s) == Error::InvalidData,
{
}

/// Verification is idempotent on a block the store has already decided:
/// it succeeds and leaves the store untouched, on the first run and on
/// every run after it.
pub proof fn lemma_verify_idempotent_decided(b: BlockView, s: StateView)
    requires
        s.committed.contains_key(b.id),
    ensures
        verify_ok(b, s),
        verify_post(b, s) == s,
        verify_ok(b, verify_post(b, s)),
        verify_post(b, verify_post(b, s)) == s,
{
}

/// Once a verification has succeeded, running it again succeeds too and
/// changes nothing further: the store reached after one success is a
/// fixed point.
pub proof fn lemma_verify_idempotent(b: BlockView, s: StateView)
    requires
        verify_ok(b, s),
    ensures
        verify_ok(b, verify_post(b, s)),
        verify_post(b, verify_post(b, s)) == verify_post(b, s),
{
    if !b.is_genesis() && !s.known(b.id) && parent_checks(b, s) {
        let s1 = verify_post(b, s);
        assert(s1.verified.contains_key(b.id));
        assert(s1.known(b.id));
    }
}

impl Default for Block {
    /// The all-empty placeholder block: no parent, zero height and time,
    /// no payload, no cached bytes, an all-zero identifier. It is not
    /// well-formed; working blocks come from `new` or `from_slice`.
    fn default() -> (r: Self)
        ensures
            r@.parent_id == empty_id(),
            r@.height == 0,
            r@.timestamp == 0,
            r@.data == Seq::<u8>::empty(),
            r@.status == Status::Processing,
            r@.bytes == Seq::<u8>::empty(),
            r@.id == empty_id(),
    {
        Block {
            parent_id: Id::empty(),
            height: 0,
            timestamp: 0,
            data: Vec::new(),
            status: Status::Processing,
            bytes: Vec::new(),
            id: Id::empty(),
        }
    }
}

impl Clone for Block {
    /// An exact copy: every field, the cached bytes included.
    fn clone(&self) -> (r: Block)
        ensures
            r@ == self@,
    {
        Block {
            parent_id: self.parent_id,
            height: self.height,
            timestamp: self.timestamp,
            data: vstd::slice::slice_to_vec(self.data.as_slice()),
            status: self.status,
            bytes: vstd::slice::slice_to_vec(self.bytes.as_slice()),
            id: self.id,
        }
    }
}

impl PartialEq for Block {
    fn eq(&self, other: &Block) -> (r: bool) {
        let fields = self.parent_id == other.parent_id && self.height == other.height
            && self.timestamp == other.timestamp && self.data == other.data && self.status
            == other.status && self.bytes == other.bytes && self.id == other.id;
        proof {
            if fields {
                assert(self@.data =~= other@.data);
                assert(self@.bytes =~= other@.bytes);
                assert(self@ == other@);
            }
        }
        fields
    }
}

impl vstd::std_specs::cmp::PartialEqSpecImpl for Block {
    open spec fn obeys_eq_spec() -> bool {
        true
    }

    open spec fn eq_spec(&self, other: &Block) -> bool {
        self@ == other@
    }
}

} // verus!
