//! The chain store: committed blocks keyed by identifier, the
//! last-accepted pointer, and the volatile map of verified-but-undecided
//! candidate blocks.

use vstd::prelude::*;
use crate::block::{Block, BlockView, Status};
use crate::codec::decode_block_spec;
use crate::ids::{sha256_of, Id};
use crate::Error;

verus! {

broadcast use crate::ids::lemma_id_len;

/// One committed entry: the block's exact encoded bytes and its decision.
struct CommittedEntry {
    id: Id,
    bytes: Vec<u8>,
    status: Status,
}

/// The mathematical content of the store.
pub ghost struct StateView {
    /// Durable history: identifier to (encoded bytes, decision). Populated
    /// only by accept and reject.
    pub committed: Map<Seq<u8>, (Seq<u8>, Status)>,
    /// The canonical head, absent on a fresh chain.
    pub last_accepted: Option<Seq<u8>>,
    /// Candidates that passed validation but are not yet decided.
    pub verified: Map<Seq<u8>, BlockView>,
}

/// What always holds of one committed value under its key.
pub open spec fn committed_value_ok(k: Seq<u8>, v: (Seq<u8>, Status)) -> bool {
    &&& decode_block_spec(v.0) is Some
    &&& k == sha256_of(v.0)
    &&& v.1 != Status::Processing
}

impl StateView {
    /// Every committed entry decodes and is decided; every verified entry
    /// is a well-formed block filed under its own identifier.
    pub open spec fn wf(self) -> bool {
        &&& forall|k: Seq<u8>| self.committed.contains_key(k) ==> committed_value_ok(
            k,
            #[trigger] self.committed[k],
        )
        &&& forall|k: Seq<u8>| self.verified.contains_key(k) ==> (#[trigger] self.verified[k]).wf()
            && self.verified[k].id == k
    }

    /// Whether any block with this identifier is known, decided or not.
    pub open spec fn known(self, id: Seq<u8>) -> bool {
        self.committed.contains_key(id) || self.verified.contains_key(id)
    }

    /// The block a lookup returns: the durable history first, the
    /// candidate map as fall-back.
    pub open spec fn get_spec(self, id: Seq<u8>) -> Option<BlockView> {
        if self.committed.contains_key(id) {
            Some(committed_block_view(id, self.committed[id].0, self.committed[id].1))
        } else if self.verified.contains_key(id) {
            Some(self.verified[id])
        } else {
            None
        }
    }
}

/// The block that a committed entry denotes: its fields re-decoded from
/// the stored bytes, stamped with the stored decision.
pub open spec fn committed_block_view(id: Seq<u8>, bytes: Seq<u8>, status: Status) -> BlockView {
    let f = decode_block_spec(bytes)->Some_0;
    BlockView {
        parent_id: f.0,
        height: f.1,
        timestamp: f.2,
        data: f.3,
        status,
        bytes,
        id,
    }
}

/// The map denoted by a sequence of committed entries; a later entry for
/// the same identifier supersedes an earlier one.
spec fn committed_map_of(entries: Seq<CommittedEntry>) -> Map<Seq<u8>, (Seq<u8>, Status)>
    decreases entries.len(),
{
    if entries.len() == 0 {
        Map::empty()
    } else {
        committed_map_of(entries.drop_last()).insert(
            entries.last().id@,
            (entries.last().bytes@, entries.last().status),
        )
    }
}

/// The map denoted by a sequence of verified blocks, keyed by identifier.
spec fn verified_map_of(entries: Seq<Block>) -> Map<Seq<u8>, BlockView>
    decreases entries.len(),
{
    if entries.len() == 0 {
        Map::empty()
    } else {
        verified_map_of(entries.drop_last()).insert(entries.last()@.id, entries.last()@)
    }
}

/// A key none of the entries carries is not in the map.
proof fn lemma_committed_absent(entries: Seq<CommittedEntry>, key: Seq<u8>)
    requires
        forall|i: int| 0 <= i < entries.len() ==> (#[trigger] entries[i]).id@ != key,
    ensures
        !committed_map_of(entries).contains_key(key),
    decreases entries.len(),
{
    if entries.len() > 0 {
        lemma_committed_absent(entries.drop_last(), key);
    }
}

/// The last entry carrying a key decides the map's value at that key.
proof fn lemma_committed_found(entries: Seq<CommittedEntry>, key: Seq<u8>, i: int)
    requires
        0 <= i < entries.len(),
        entries[i].id@ == key,
        forall|j: int| i < j < entries.len() ==> (#[trigger] entries[j]).id@ != key,
    ensures
        committed_map_of(entries).contains_key(key),
        committed_map_of(entries)[key] == (entries[i].bytes@, entries[i].status),
    decreases entries.len(),
{
    if i == entries.len() - 1 {
    } else {
        lemma_committed_found(entries.drop_last(), key, i);
    }
}

/// See [`lemma_committed_absent`].
proof fn lemma_verified_absent(entries: Seq<Block>, key: Seq<u8>)
    requires
        forall|i: int| 0 <= i < entries.len() ==> (#[trigger] entries[i])@.id != key,
    ensures
        !verified_map_of(entries).contains_key(key),
    decreases entries.len(),
{
    if entries.len() > 0 {
        lemma_verified_absent(entries.drop_last(), key);
    }
}

/// See [`lemma_committed_found`].
proof fn lemma_verified_found(entries: Seq<Block>, key: Seq<u8>, i: int)
    requires
        0 <= i < entries.len(),
        entries[i]@.id == key,
        forall|j: int| i < j < entries.len() ==> (#[trigger] entries[j])@.id != key,
    ensures
        verified_map_of(entries).contains_key(key),
        verified_map_of(entries)[key] == entries[i]@,
    decreases entries.len(),
{
    if i == entries.len() - 1 {
    } else {
        lemma_verified_found(entries.drop_last(), key, i);
    }
}

/// Persisting a well-formed decided block and looking its identifier up
/// returns exactly that block: the stored bytes decode back to its
/// fields and the stored decision stamps it.
pub proof fn lemma_get_after_put(s: StateView, b: BlockView)
    requires
        b.wf(),
        b.status != Status::Processing,
    ensures
        ({
            let s1 = StateView { committed: s.committed.insert(b.id, (b.bytes, b.status)), ..s };
            s1.get_spec(b.id) == Some(b)
        }),
{
}

/// The store. One instance is created at initialization and shared by
/// borrow with every operation that validates or persists blocks.
pub struct State {
    committed: Vec<CommittedEntry>,
    last_accepted: Option<Id>,
    verified: Vec<Block>,
}

impl View for State {
    type V = StateView;

    closed spec fn view(&self) -> StateView {
        StateView {
            committed: committed_map_of(self.committed@),
            last_accepted: match self.last_accepted {
                Some(id) => Some(id@),
                None => None,
            },
            verified: verified_map_of(self.verified@),
        }
    }
}

impl State {
    /// The representation invariant behind [`StateView::wf`].
    closed spec fn entries_ok(&self) -> bool {
        &&& forall|i: int| 0 <= i < self.committed@.len() ==> {
            let e = #[trigger] self.committed@[i];
            decode_block_spec(e.bytes@) is Some && e.id@ == sha256_of(e.bytes@) && e.status
                != Status::Processing
        }
        &&& forall|i: int| 0 <= i < self.verified@.len() ==> (#[trigger] self.verified@[i])@.wf()
    }

    /// The store's invariant; every operation preserves it.
    pub closed spec fn inv(&self) -> bool {
        self.entries_ok()
    }

    /// The invariant carries over to the store's mathematical content.
    pub proof fn lemma_inv_view_wf(&self)
        requires
            self.inv(),
        ensures
            self@.wf(),
    {
        Self::lemma_committed_entries_wf(self.committed@);
        Self::lemma_verified_entries_wf(self.verified@);
    }

    proof fn lemma_committed_entries_wf(entries: Seq<CommittedEntry>)
        requires
            forall|i: int| 0 <= i < entries.len() ==> {
                let e = #[trigger] entries[i];
                decode_block_spec(e.bytes@) is Some && e.id@ == sha256_of(e.bytes@) && e.status
                    != Status::Processing
            },
        ensures
            forall|k: Seq<u8>| committed_map_of(entries).contains_key(k) ==> committed_value_ok(
                k,
                #[trigger] committed_map_of(entries)[k],
            ),
        decreases entries.len(),
    {
        if entries.len() > 0 {
            let d = entries.drop_last();
            assert forall|i: int| 0 <= i < d.len() implies {
                let e = #[trigger] d[i];
                decode_block_spec(e.bytes@) is Some && e.id@ == sha256_of(e.bytes@) && e.status
                    != Status::Processing
            } by {
                assert(d[i] == entries[i]);
            }
            Self::lemma_committed_entries_wf(d);
            let last = entries.last();
            assert(entries[entries.len() - 1] == last);
            assert forall|k: Seq<u8>| committed_map_of(entries).contains_key(k)
                implies committed_value_ok(k, #[trigger] committed_map_of(entries)[k]) by {
                if k != last.id@ {
                    assert(committed_map_of(entries)[k] == committed_map_of(d)[k]);
                }
            }
        }
    }

    proof fn lemma_verified_entries_wf(entries: Seq<Block>)
        requires
            forall|i: int| 0 <= i < entries.len() ==> (#[trigger] entries[i])@.wf(),
        ensures
            forall|k: Seq<u8>| verified_map_of(entries).contains_key(k) ==> (
            #[trigger] verified_map_of(entries)[k]).wf() && verified_map_of(entries)[k].id == k,
        decreases entries.len(),
    {
        if entries.len() > 0 {
            let d = entries.drop_last();
            assert forall|i: int| 0 <= i < d.len() implies (#[trigger] d[i])@.wf() by {
                assert(d[i] == entries[i]);
            }
            Self::lemma_verified_entries_wf(d);
            let last = entries.last();
            assert(entries[entries.len() - 1] == last);
            assert forall|k: Seq<u8>| verified_map_of(entries).contains_key(k) implies (
            #[trigger] verified_map_of(entries)[k]).wf() && verified_map_of(entries)[k].id == k by {
                if k != last@.id {
                    assert(verified_map_of(entries)[k] == verified_map_of(d)[k]);
                }
            }
        }
    }

    /// An empty store: no history, no head, no candidates.
    pub fn new() -> (r: State)
        ensures
            r.inv(),
            r@.committed == Map::<Seq<u8>, (Seq<u8>, Status)>::empty(),
            r@.last_accepted is None,
            r@.verified == Map::<Seq<u8>, BlockView>::empty(),
    {
        State { committed: Vec::new(), last_accepted: None, verified: Vec::new() }
    }

    /// Looks a block up: durable history first, then the candidate map.
    pub fn get_block(&self, id: &Id) -> (r: Result<Block, Error>)
        requires
            self.inv(),
        ensures
            match r {
                Ok(b) => self@.get_spec(id@) == Some(b@) && b@.wf(),
                Err(e) => self@.get_spec(id@) is None && e == Error::NotFound,
            },
    {
        let mut i: usize = self.committed.len();
        while i > 0
            invariant
                i <= self.committed@.len(),
                self.inv(),
                forall|j: int| i <= j < self.committed@.len() ==> (#[trigger] self.committed@[j]).id@
                    != id@,
            decreases i,
        {
            i = i - 1;
            if self.committed[i].id == *id {
                proof {
                    lemma_committed_found(self.committed@, id@, i as int);
                }
                let entry = &self.committed[i];
                match Block::from_slice(entry.bytes.as_slice()) {
                    Ok(mut b) => {
                        b.set_status(entry.status);
                        return Ok(b);
                    },
                    Err(_) => {
                        proof {
                            assert(false);
                        }
                        return Err(Error::NotFound);
                    },
                }
            }
        }
        proof {
            lemma_committed_absent(self.committed@, id@);
        }
        let mut i: usize = self.verified.len();
        while i > 0
            invariant
                i <= self.verified@.len(),
                self.inv(),
                !self@.committed.contains_key(id@),
                forall|j: int| i <= j < self.verified@.len() ==> (#[trigger] self.verified@[j])@.id
                    != id@,
            decreases i,
        {
            i = i - 1;
            let probe = self.verified[i].id();
            if probe == *id {
                proof {
                    lemma_verified_found(self.verified@, id@, i as int);
                }
                return Ok(self.verified[i].clone());
            }
        }
        proof {
            lemma_verified_absent(self.verified@, id@);
        }
        Err(Error::NotFound)
    }

    /// Persists a decided block's encoded bytes under its identifier.
    /// Writing the same block again is harmless: same identifier, same
    /// bytes.
    pub fn put_block(&mut self, b: &Block)
        requires
            old(self).inv(),
            b@.wf(),
            b@.status != Status::Processing,
        ensures
            final(self).inv(),
            final(self)@ == (StateView {
                committed: old(self)@.committed.insert(b@.id, (b@.bytes, b@.status)),
                ..old(self)@
            }),
    {
        let entry = CommittedEntry {
            id: b.id(),
            bytes: vstd::slice::slice_to_vec(b.bytes()),
            status: b.status(),
        };
        self.committed.push(entry);
        proof {
            assert(self.committed@.drop_last() =~= old(self).committed@);
        }
    }

    /// Files a block that passed validation in the candidate map.
    pub fn add_verified(&mut self, b: &Block)
        requires
            old(self).inv(),
            b@.wf(),
        ensures
            final(self).inv(),
            final(self)@ == (StateView {
                verified: old(self)@.verified.insert(b@.id, b@),
                ..old(self)@
            }),
    {
        self.verified.push(b.clone());
        proof {
            assert(self.verified@.drop_last() =~= old(self).verified@);
        }
    }

    /// Whether the chain has a canonical head yet: distinguishes a fresh
    /// chain from one with history.
    pub fn has_last_accepted_block(&self) -> (r: bool)
        ensures
            r == (self@.last_accepted is Some),
    {
        self.last_accepted.is_some()
    }

    /// The canonical head's identifier.
    pub fn get_last_accepted_block_id(&self) -> (r: Result<Id, Error>)
        ensures
            match r {
                Ok(id) => self@.last_accepted == Some(id@),
                Err(e) => self@.last_accepted is None && e == Error::NotFound,
            },
    {
        match &self.last_accepted {
            Some(id) => Ok(*id),
            None => Err(Error::NotFound),
        }
    }

    /// Moves the canonical head.
    pub fn set_last_accepted_block(&mut self, id: &Id)
        requires
            old(self).inv(),
        ensures
            final(self).inv(),
            final(self)@ == (StateView { last_accepted: Some(id@), ..old(self)@ }),
    {
        self.last_accepted = Some(*id);
    }
}

} // verus!
