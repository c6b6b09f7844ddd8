//! The chain controller: the bootstrap state machine, the preferred
//! head, the pending-data queue, and the build/parse/get operations a
//! consensus engine drives.

use vstd::prelude::*;
use vstd::utf8::{decode_utf8, valid_utf8};
use crate::block::{verify_err, verify_ok, verify_post, Block, BlockView, Status};
use crate::codec::{decode_block_spec, encode_block_spec};
use crate::genesis::{decode_genesis_spec, Genesis};
use crate::ids::{empty_id, sha256_of, Id};
use crate::state;
use crate::state::StateView;
use crate::Error;

verus! {

broadcast use crate::ids::lemma_id_len;

/// Limits how much data one proposal may carry.
pub const PROPOSE_LIMIT_BYTES: usize = 1024 * 1024;

/// The bootstrap phase the consensus engine reports.
#[derive(Clone, Copy, Debug, PartialEq, Eq, Structural)]
pub enum SnowState {
    /// The chain is being created.
    Initializing,
    /// State sync was requested; this chain does not support it.
    StateSyncing,
    /// The bootstrapper is replaying history.
    Bootstrapping,
    /// Bootstrap is complete; normal operation.
    NormalOp,
}

/// The controller's own mutable state, kept apart from the pending
/// queue, which has its own access pattern.
pub struct State {
    /// The build version reported to the engine, supplied at
    /// construction rather than read from the process environment.
    pub version: String,
    /// The genesis payload, set at initialization.
    pub genesis: Genesis,
    /// The chain store, once the controller has been initialized.
    pub state: Option<state::State>,
    /// The identifier the controller will extend next.
    pub preferred: Id,
    /// The single-slot "work pending" signal to the consensus engine;
    /// repeated proposals coalesce into one pending signal.
    pub block_ready: bool,
    /// Whether bootstrap has finished.
    pub bootstrapped: bool,
}

/// The mathematical content of the controller.
pub ghost struct VmView {
    /// The reported version text.
    pub version: Seq<char>,
    /// The genesis payload text.
    pub genesis_data: Seq<char>,
    /// The store's content, absent before initialization.
    pub store: Option<StateView>,
    /// The identifier to extend next.
    pub preferred: Seq<u8>,
    /// Whether a "work pending" signal is waiting for the engine.
    pub block_ready: bool,
    /// Whether bootstrap has finished.
    pub bootstrapped: bool,
    /// The pending payloads, oldest first.
    pub mempool: Seq<Seq<u8>>,
}

/// The controller. Owns the store and the pending queue for the
/// lifetime of the chain instance.
pub struct Vm {
    /// Controller state other than the queue.
    pub state: State,
    /// Pending payloads awaiting inclusion, oldest first. Not persisted;
    /// lost on restart by design.
    pub mempool: Vec<Vec<u8>>,
}

impl View for Vm {
    type V = VmView;

    closed spec fn view(&self) -> VmView {
        VmView {
            version: self.state.version@,
            genesis_data: self.state.genesis.data@,
            store: match self.state.state {
                Some(st) => Some(st@),
                None => None,
            },
            preferred: self.state.preferred@,
            block_ready: self.state.block_ready,
            bootstrapped: self.state.bootstrapped,
            mempool: self.mempool.deep_view(),
        }
    }
}

/// The last-accepted pointer the controller reports: the store's, once
/// a store is present.
pub open spec fn last_accepted_spec(v: VmView) -> Option<Seq<u8>> {
    match v.store {
        Some(st) => st.last_accepted,
        None => None,
    }
}

/// The block a controller lookup returns.
pub open spec fn get_block_spec(v: VmView, id: Seq<u8>) -> Option<BlockView> {
    match v.store {
        Some(st) => st.get_spec(id),
        None => None,
    }
}

/// The height-zero block built from a genesis payload: no parent, zero
/// timestamp, the payload's bytes as data; accepted at initialization.
pub open spec fn genesis_block_view(data: Seq<u8>) -> BlockView {
    let bytes = encode_block_spec(empty_id(), 0, 0, data);
    BlockView {
        parent_id: empty_id(),
        height: 0,
        timestamp: 0,
        data,
        status: Status::Accepted,
        bytes,
        id: sha256_of(bytes),
    }
}

/// The block freshly decoded candidate bytes denote, before the store is
/// consulted: processing status, the bytes verbatim, their digest as
/// identifier.
pub open spec fn parsed_block_view(bytes: Seq<u8>) -> BlockView {
    let f = decode_block_spec(bytes)->Some_0;
    BlockView {
        parent_id: f.0,
        height: f.1,
        timestamp: f.2,
        data: f.3,
        status: Status::Processing,
        bytes,
        id: sha256_of(bytes),
    }
}

/// What a parse returns once the bytes decode: the store's instance when
/// the identifier is already known, else the fresh block.
pub open spec fn parse_result(st: StateView, bytes: Seq<u8>) -> BlockView {
    match st.get_spec(parsed_block_view(bytes).id) {
        Some(known) => known,
        None => parsed_block_view(bytes),
    }
}

/// The child block a build assembles: the parent's identifier, one more
/// height, the clock reading as timestamp, the queue's head as payload.
pub open spec fn built_block_view(p: BlockView, now: u64, data: Seq<u8>) -> BlockView
    recommends
        p.height < u64::MAX,
{
    let bytes = encode_block_spec(p.id, (p.height + 1) as u64, now, data);
    BlockView {
        parent_id: p.id,
        height: (p.height + 1) as u64,
        timestamp: now,
        data,
        status: Status::Processing,
        bytes,
        id: sha256_of(bytes),
    }
}

/// Whether a build succeeds at clock reading `now`: data is pending, the
/// store and the preferred parent exist, the parent's height has room,
/// and the assembled child passes verification.
pub open spec fn build_ok(v: VmView, now: u64) -> bool {
    &&& v.mempool.len() > 0
    &&& match v.store {
        Some(st) => match st.get_spec(v.preferred) {
            Some(p) => p.height < u64::MAX && verify_ok(built_block_view(p, now, v.mempool[0]), st),
            None => false,
        },
        None => false,
    }
}

/// A `Result` of blocks, seen mathematically.
pub open spec fn res_view(r: Result<Block, Error>) -> Result<BlockView, Error> {
    match r {
        Ok(b) => Ok(b@),
        Err(e) => Err(e),
    }
}

/// The exact build transition at clock reading `now`: what comes back
/// and what the controller looks like afterwards, for every starting
/// state. An empty queue fails before anything happens; after the
/// engine signal, a missing store or parent fails with the queue kept;
/// from the moment the payload is consumed, failure loses it.
pub open spec fn build_transition(
    pre: VmView,
    now: u64,
    r: Result<BlockView, Error>,
    post: VmView,
) -> bool {
    if pre.mempool.len() == 0 {
        post == pre && r == Err::<BlockView, Error>(Error::NotFound)
    } else {
        match pre.store {
            None => post == pre && r == Err::<BlockView, Error>(Error::NotFound),
            Some(st) => {
                let signaled = VmView { block_ready: true, ..pre };
                match st.get_spec(pre.preferred) {
                    None => post == signaled && r == Err::<BlockView, Error>(Error::NotFound),
                    Some(p) => {
                        let popped = VmView {
                            block_ready: true,
                            mempool: pre.mempool.drop_first(),
                            ..pre
                        };
                        if p.height == u64::MAX {
                            post == popped && r == Err::<BlockView, Error>(Error::InvalidData)
                        } else {
                            let b = built_block_view(p, now, pre.mempool[0]);
                            &&& post == (VmView { store: Some(verify_post(b, st)), ..popped })
                            &&& if verify_ok(b, st) {
                                r == Ok::<BlockView, Error>(b)
                            } else {
                                r == Err::<BlockView, Error>(verify_err(b, st))
                            }
                        }
                    },
                }
            },
        }
    }
}

/// Relies on chrono's `Utc::now`: the wall clock as Unix seconds, with a
/// pre-epoch reading clamped to zero. Nothing is assumed of the value;
/// callers state what holds for every reading.
#[verifier::external_body]
fn clock_unix_now() -> u64 {
    u64::try_from(chrono::Utc::now().timestamp()).unwrap_or(0)
}

impl Vm {
    /// The controller's invariant: the store it owns, if any, satisfies
    /// the store invariant.
    pub closed spec fn inv(&self) -> bool {
        match self.state.state {
            Some(st) => st.inv(),
            None => true,
        }
    }

    /// A fresh, uninitialized controller reporting the given version.
    pub fn new(version: String) -> (r: Vm)
        ensures
            r.inv(),
            r@.version == version@,
            r@.store is None,
            r@.preferred == empty_id(),
            !r@.block_ready,
            !r@.bootstrapped,
            r@.mempool == Seq::<Seq<u8>>::empty(),
    {
        let vm = Vm {
            state: State {
                version,
                genesis: Genesis::default(),
                state: None,
                preferred: Id::empty(),
                block_ready: false,
                bootstrapped: false,
            },
            mempool: Vec::new(),
        };
        proof {
            assert(vm.mempool.deep_view() =~~= Seq::<Seq<u8>>::empty());
        }
        vm
    }

    /// Whether bootstrap has finished.
    pub fn is_bootstrapped(&self) -> (r: bool)
        ensures
            r == self@.bootstrapped,
    {
        self.state.bootstrapped
    }

    /// Signals the consensus engine that a block is ready to be built.
    /// The signal is a single slot: signalling twice before the engine
    /// polls coalesces into one pending signal, by design.
    pub fn notify_block_ready(&mut self)
        ensures
            final(self).inv() == old(self).inv(),
            final(self)@ == (VmView { block_ready: true, ..old(self)@ }),
    {
        self.state.block_ready = true;
    }

    /// Drains the "work pending" slot: reports whether a signal was
    /// waiting and clears it. The transport layer polls this.
    pub fn take_block_ready(&mut self) -> (r: bool)
        ensures
            final(self).inv() == old(self).inv(),
            r == old(self)@.block_ready,
            final(self)@ == (VmView { block_ready: false, ..old(self)@ }),
    {
        let r = self.state.block_ready;
        self.state.block_ready = false;
        r
    }

    /// Appends a payload to the pending queue and signals the engine.
    /// Rejects a payload over the size limit and changes nothing then.
    pub fn propose_block(&mut self, d: Vec<u8>) -> (r: Result<(), Error>)
        requires
            old(self).inv(),
        ensures
            final(self).inv(),
            r is Ok <==> d@.len() <= PROPOSE_LIMIT_BYTES,
            r matches Err(e) ==> e == Error::InvalidInput && final(self)@ == old(self)@,
            r is Ok ==> final(self)@ == (VmView {
                mempool: old(self)@.mempool.push(d@),
                block_ready: true,
                ..old(self)@
            }),
    {
        if d.len() > PROPOSE_LIMIT_BYTES {
            return Err(Error::InvalidInput);
        }
        let ghost dv = d@;
        self.mempool.push(d);
        proof {
            assert(self.mempool.deep_view() =~~= old(self).mempool.deep_view().push(dv));
        }
        self.notify_block_ready();
        Ok(())
    }

    /// Applies the bootstrap phase the engine reports: state sync is
    /// refused outright; the other phases set the bootstrapped flag,
    /// unconditionally and without regard to the previous phase.
    pub fn set_state(&mut self, snow_state: SnowState) -> (r: Result<(), Error>)
        ensures
            final(self).inv() == old(self).inv(),
            match snow_state {
                SnowState::StateSyncing => r matches Err(e) && e == Error::Unsupported
                    && final(self)@ == old(self)@,
                SnowState::NormalOp => r is Ok && final(self)@ == (VmView {
                    bootstrapped: true,
                    ..old(self)@
                }),
                _ => r is Ok && final(self)@ == (VmView { bootstrapped: false, ..old(self)@ }),
            },
    {
        match snow_state {
            SnowState::Initializing => {
                self.state.bootstrapped = false;
                Ok(())
            },
            SnowState::StateSyncing => Err(Error::Unsupported),
            SnowState::Bootstrapping => {
                self.state.bootstrapped = false;
                Ok(())
            },
            SnowState::NormalOp => {
                self.state.bootstrapped = true;
                Ok(())
            },
        }
    }

    /// The last accepted block's identifier, or `NotFound` before
    /// initialization or on a chain with no history.
    pub fn last_accepted(&self) -> (r: Result<Id, Error>)
        ensures
            match r {
                Ok(id) => last_accepted_spec(self@) == Some(id@),
                Err(e) => last_accepted_spec(self@) is None && e == Error::NotFound,
            },
    {
        match &self.state.state {
            Some(st) => st.get_last_accepted_block_id(),
            None => Err(Error::NotFound),
        }
    }

    /// Adopts an identifier as the one to extend next. No existence
    /// check is made against the store; the engine is trusted to pass a
    /// real identifier.
    pub fn set_preference(&mut self, id: Id) -> (r: Result<(), Error>)
        ensures
            final(self).inv() == old(self).inv(),
            r is Ok,
            final(self)@ == (VmView { preferred: id@, ..old(self)@ }),
    {
        self.state.preferred = id;
        Ok(())
    }

    /// Fetches a block from the store.
    pub fn get_block(&self, blk_id: &Id) -> (r: Result<Block, Error>)
        requires
            self.inv(),
        ensures
            match r {
                Ok(b) => get_block_spec(self@, blk_id@) == Some(b@) && b@.wf(),
                Err(e) => get_block_spec(self@, blk_id@) is None && e == Error::NotFound,
            },
    {
        match &self.state.state {
            Some(st) => st.get_block(blk_id),
            None => Err(Error::NotFound),
        }
    }

    /// The reported build version.
    pub fn version(&self) -> (r: Result<String, Error>)
        ensures
            r is Ok,
            r matches Ok(v) ==> v@ == self@.version,
    {
        Ok(self.state.version.clone())
    }

    /// Shuts the controller down. Nothing needs releasing.
    pub fn shutdown(&self) -> (r: Result<(), Error>)
        ensures
            r is Ok,
    {
        Ok(())
    }

    /// Transaction issuance is deliberately unimplemented.
    pub fn issue_tx(&self) -> (r: Result<Block, Error>)
        ensures
            r matches Err(e) && e == Error::Unsupported,
    {
        Err(Error::Unsupported)
    }

    /// Batched ancestor queries are deliberately unimplemented.
    pub fn get_ancestors(
        &self,
        _block_id: &Id,
        _max_block_num: i32,
        _max_block_size: i32,
        _max_block_retrieval_time_ms: u64,
    ) -> (r: Result<Vec<Vec<u8>>, Error>)
        ensures
            r matches Err(e) && e == Error::Unsupported,
    {
        Err(Error::Unsupported)
    }

    /// Batched parsing is deliberately unimplemented.
    pub fn batched_parse_block(&self, _blocks: &[Vec<u8>]) -> (r: Result<Vec<Block>, Error>)
        ensures
            r matches Err(e) && e == Error::Unsupported,
    {
        Err(Error::Unsupported)
    }

    /// The height index needs no maintenance here.
    pub fn verify_height_index(&self) -> (r: Result<(), Error>)
        ensures
            r is Ok,
    {
        Ok(())
    }

    /// No height-to-identifier index is kept.
    pub fn get_block_id_at_height(&self, _height: u64) -> (r: Result<Id, Error>)
        ensures
            r matches Err(e) && e == Error::NotFound,
    {
        Err(Error::NotFound)
    }

    /// State sync is not supported.
    pub fn state_sync_enabled(&self) -> (r: Result<bool, Error>)
        ensures
            r matches Ok(b) && !b,
    {
        Ok(false)
    }

    /// Adopts the decoded genesis payload and the store. With history
    /// present, the last-accepted block becomes preferred (resume);
    /// otherwise the height-zero genesis block is built, verified
    /// (trivially, by the genesis rule), accepted, and becomes preferred
    /// (cold start). The pending queue is reset either way.
    pub fn initialize(&mut self, genesis_bytes: &[u8], store: state::State) -> (r: Result<
        (),
        Error,
    >)
        requires
            old(self).inv(),
            store.inv(),
        ensures
            final(self).inv(),
            r is Ok <==> (decode_genesis_spec(genesis_bytes@) matches Some(bs) && valid_utf8(bs)),
            r matches Err(e) ==> e == Error::InvalidData && final(self)@ == old(self)@,
            r is Ok ==> ({
                let bs = decode_genesis_spec(genesis_bytes@)->Some_0;
                &&& final(self)@.genesis_data == decode_utf8(bs)
                &&& final(self)@.version == old(self)@.version
                &&& final(self)@.bootstrapped == old(self)@.bootstrapped
                &&& final(self)@.block_ready == old(self)@.block_ready
                &&& final(self)@.mempool == Seq::<Seq<u8>>::empty()
                &&& match store@.last_accepted {
                    Some(head) => final(self)@.store == Some(store@) && final(self)@.preferred
                        == head,
                    None => ({
                        let gb = genesis_block_view(bs);
                        &&& final(self)@.preferred == gb.id
                        &&& final(self)@.store == Some(
                            StateView {
                                committed: store@.committed.insert(
                                    gb.id,
                                    (gb.bytes, Status::Accepted),
                                ),
                                last_accepted: Some(gb.id),
                                ..store@
                            },
                        )
                    }),
                }
            }),
    {
        let g = match Genesis::from_slice(genesis_bytes) {
            Ok(g) => g,
            Err(e) => {
                return Err(e);
            },
        };
        let mut store = store;
        if store.has_last_accepted_block() {
            let head = match store.get_last_accepted_block_id() {
                Ok(h) => h,
                Err(_) => {
                    proof {
                        assert(false);
                    }
                    return Err(Error::NotFound);
                },
            };
            self.state.preferred = head;
        } else {
            let data = vstd::slice::slice_to_vec(g.data.as_str().as_bytes());
            let mut genesis_block = match Block::new(Id::empty(), 0, 0, data, Status::default()) {
                Ok(b) => b,
                Err(_) => {
                    proof {
                        assert(false);
                    }
                    return Err(Error::InvalidData);
                },
            };
            let _ = genesis_block.verify(&mut store);
            let _ = genesis_block.accept(&mut store);
            self.state.preferred = genesis_block.id();
        }
        self.state.genesis = g;
        self.state.state = Some(store);
        self.mempool = Vec::new();
        proof {
            assert(self.mempool.deep_view() =~~= Seq::<Seq<u8>>::empty());
        }
        Ok(())
    }

    /// Decodes candidate bytes into a block marked `Processing`; when a
    /// block with the same identifier is already known to the store, that
    /// previously known instance is returned instead, so the engine never
    /// sees two representations of one identifier diverge.
    pub fn parse_block(&self, bytes: &[u8]) -> (r: Result<Block, Error>)
        requires
            self.inv(),
        ensures
            self@.store is None ==> (r matches Err(e) && e == Error::NotFound),
            self@.store matches Some(st) ==> match r {
                Ok(b) => decode_block_spec(bytes@) is Some && b@ == parse_result(st, bytes@)
                    && b@.wf(),
                Err(e) => decode_block_spec(bytes@) is None && e == Error::InvalidData,
            },
    {
        let st = match &self.state.state {
            Some(st) => st,
            None => {
                return Err(Error::NotFound);
            },
        };
        let mut new_block = match Block::from_slice(bytes) {
            Ok(b) => b,
            Err(e) => {
                return Err(e);
            },
        };
        new_block.set_status(Status::Processing);
        let bid = new_block.id();
        match st.get_block(&bid) {
            Ok(prev) => Ok(prev),
            Err(_) => Ok(new_block),
        }
    }

    /// Assembles the next block at clock reading `now`: signals the
    /// engine, fetches the preferred block as parent, consumes the
    /// queue's head as payload, stamps the clock reading, and verifies
    /// the result. A failing verification is a build failure and the
    /// consumed payload is not returned to the queue.
    pub fn build_block_at(&mut self, now: u64) -> (r: Result<Block, Error>)
        requires
            old(self).inv(),
        ensures
            final(self).inv(),
            r is Ok <==> build_ok(old(self)@, now),
            build_transition(old(self)@, now, res_view(r), final(self)@),
    {
        if self.mempool.len() == 0 {
            return Err(Error::NotFound);
        }
        if self.state.state.is_none() {
            return Err(Error::NotFound);
        }
        self.state.block_ready = true;
        let preferred = self.state.preferred;
        let parent = match &self.state.state {
            Some(st) => match st.get_block(&preferred) {
                Ok(p) => p,
                Err(e) => {
                    return Err(e);
                },
            },
            None => {
                proof {
                    assert(false);
                }
                return Err(Error::NotFound);
            },
        };
        let first = self.mempool.remove(0);
        proof {
            assert(self.mempool.deep_view() =~~= old(self).mempool.deep_view().drop_first());
            assert(first@ == old(self)@.mempool[0]);
        }
        let parent_height = parent.height();
        if parent_height == u64::MAX {
            return Err(Error::InvalidData);
        }
        let mut block = match Block::new(
            parent.id(),
            parent_height + 1,
            now,
            first,
            Status::Processing,
        ) {
            Ok(b) => b,
            Err(_) => {
                proof {
                    assert(false);
                }
                return Err(Error::InvalidData);
            },
        };
        match &mut self.state.state {
            Some(st) => match block.verify(st) {
                Ok(_) => Ok(block),
                Err(e) => Err(e),
            },
            None => {
                proof {
                    assert(false);
                }
                Err(Error::NotFound)
            },
        }
    }

    /// Assembles the next block at the current wall-clock time. The
    /// clock's reading is outside this library's control, so the
    /// contract states the build transition for whatever it returned.
    pub fn build_block(&mut self) -> (r: Result<Block, Error>)
        requires
            old(self).inv(),
        ensures
            final(self).inv(),
            exists|now: u64| #[trigger] build_transition(old(self)@, now, res_view(r), final(self)@),
    {
        let now = clock_unix_now();
        let r = self.build_block_at(now);
        proof {
            assert(build_transition(old(self)@, now, res_view(r), final(self)@));
        }
        r
    }

    /// The controller is healthy whenever it answers.
    pub fn health_check(&self) -> (r: Result<Vec<u8>, Error>)
        ensures
            r matches Ok(v) && v@ == seq![0x32u8, 0x30u8, 0x30u8],
    {
        let mut v: Vec<u8> = Vec::new();
        v.push(0x32);
        v.push(0x30);
        v.push(0x30);
        proof {
            assert(v@ =~= seq![0x32u8, 0x30u8, 0x30u8]);
        }
        Ok(v)
    }
}

/// Single identity: parsing byte-identical inputs yields the same
/// identifier whatever the store held at either call; and once the store
/// has decided a block with that identifier, a parse returns that
/// decided instance, its decision visible.
pub proof fn lemma_parse_single_identity(st1: StateView, st2: StateView, bytes: Seq<u8>)
    requires
        decode_block_spec(bytes) is Some,
        st1.wf(),
        st2.wf(),
    ensures
        parse_result(st1, bytes).id == sha256_of(bytes),
        parse_result(st2, bytes).id == sha256_of(bytes),
        st2.committed.contains_key(sha256_of(bytes)) ==> parse_result(st2, bytes).status
            == st2.committed[sha256_of(bytes)].1 && parse_result(st2, bytes).status
            != Status::Processing,
{
}

/// An empty queue never builds. After one proposal, a build at any
/// clock reading not before the parent's timestamp succeeds: it returns
/// a block that passed verification, carrying exactly the proposed
/// payload, and leaves the queue empty.
pub proof fn lemma_propose_then_build(v: VmView, d: Seq<u8>, now: u64)
    requires
        v.mempool.len() == 0,
        v.store matches Some(st) && st.wf() && match st.get_spec(v.preferred) {
            Some(p) => p.height < u64::MAX && p.timestamp <= now,
            None => false,
        },
    ensures
        !build_ok(v, now),
        ({
            let v1 = VmView { mempool: v.mempool.push(d), block_ready: true, ..v };
            let st = v.store->Some_0;
            let p = st.get_spec(v.preferred)->Some_0;
            let b = built_block_view(p, now, d);
            &&& build_ok(v1, now)
            &&& b.data == d
            &&& verify_ok(b, st)
            &&& v1.mempool.drop_first() == Seq::<Seq<u8>>::empty()
        }),
{
    let v1 = VmView { mempool: v.mempool.push(d), block_ready: true, ..v };
    let st = v.store->Some_0;
    let p = st.get_spec(v.preferred)->Some_0;
    let b = built_block_view(p, now, d);
    assert(v1.mempool[0] == d);
    assert(p.id == v.preferred);
    assert(!b.is_genesis());
    assert(st.get_spec(b.parent_id) == Some(p));
    assert(crate::block::parent_checks(b, st));
    assert(v1.mempool.drop_first() =~= Seq::<Seq<u8>>::empty());
}

} // verus!
