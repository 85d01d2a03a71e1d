//! A stateful evaluator: a board, a stack of accumulators along the line of play, and caches.
use vstd::prelude::*;
use crate::accumulator_stack::{AccumulatorStack, AccumulatorState};
use crate::finny_tables::{FinnyTables, lemma_cleared_cache_consistent};
use crate::loader::LoadError;
use crate::network::{NnueNetworks, ScratchBuffer};
use crate::network::load::{header_refused, load_error, network_bytes_ok, networks_loaded_from};
use crate::types::Piece;
use board::{Board, board_consistent};
use tracking::{Position, tracks};

pub mod board;
pub mod edits;
pub mod evaluate;
pub mod moves;
pub mod takeback;
pub mod position;
pub mod tracking;
pub mod listing;

verus! {

/// The networks a probe reads: borrowed from the caller or owned.
pub enum NetworkHandle<'a> {
    Borrowed(&'a NnueNetworks),
    Owned(Box<NnueNetworks>),
}

impl<'a> NetworkHandle<'a> {
    /// The networks behind the handle.
    pub open spec fn nets(&self) -> NnueNetworks {
        match self {
            NetworkHandle::Borrowed(n) => **n,
            NetworkHandle::Owned(b) => **b,
        }
    }

    /// The networks behind the handle.
    pub fn as_ref(&self) -> (r: &NnueNetworks)
        ensures
            *r == self.nets(),
    {
        match self {
            NetworkHandle::Borrowed(n) => n,
            NetworkHandle::Owned(b) => b,
        }
    }
}

/// The networks can evaluate accumulators: the big one of 3072 values, the small one of 128.
pub open spec fn networks_ready(n: NnueNetworks) -> bool {
    n.big_net.wf(3072) && n.small_net.wf(128)
}

/// Stateful NNUE evaluator over immutable network weights.
pub struct NNUEProbe<'a> {
    networks: NetworkHandle<'a>,
    scratch_big: ScratchBuffer,
    scratch_small: ScratchBuffer,
    board: Board,
    accumulator_stack: AccumulatorStack,
    finny_tables: FinnyTables,
    history: Ghost<Seq<Position>>,
}

impl NNUEProbe<'static> {
    /// Reads both networks from the bytes of their files and builds a probe that owns them.
    pub fn new(big_bytes: Vec<u8>, small_bytes: Vec<u8>) -> (r: Result<NNUEProbe<'static>, LoadError>)
        ensures
            r is Ok <==> network_bytes_ok(big_bytes@, 3072) && network_bytes_ok(small_bytes@, 128),
            r is Ok ==> r.unwrap().wf() && r.unwrap().stack().depth() == 1
                && r.unwrap().current().pieces@ == board::empty_board()
                && networks_loaded_from(r.unwrap().nets(), big_bytes@, small_bytes@),
            header_refused(big_bytes@) ==> r is Err && r->Err_0 == LoadError::InvalidData,
            network_bytes_ok(big_bytes@, 3072) && header_refused(small_bytes@)
                ==> r is Err && r->Err_0 == LoadError::InvalidData,
            big_bytes@.len() < 4 ==> r is Err && r->Err_0 == LoadError::UnexpectedEof,
            network_bytes_ok(big_bytes@, 3072) && small_bytes@.len() < 4
                ==> r is Err && r->Err_0 == LoadError::UnexpectedEof,
            r is Err ==> r->Err_0 == (if !network_bytes_ok(big_bytes@, 3072) { load_error(big_bytes@, 3072) } else {
                load_error(small_bytes@, 128) }),
    {
        let networks = NnueNetworks::new(big_bytes, small_bytes)?;
        Ok(NNUEProbe::<'static>::from_owned(networks))
    }
}

impl<'a> NNUEProbe<'a> {
    /// The networks the probe evaluates with.
    pub closed spec fn nets(&self) -> NnueNetworks {
        self.networks.nets()
    }

    /// The current board.
    pub closed spec fn current(&self) -> Board {
        self.board
    }

    /// The accumulator stack.
    pub closed spec fn stack(&self) -> AccumulatorStack {
        self.accumulator_stack
    }

    /// The state of the current ply.
    pub closed spec fn latest(&self) -> AccumulatorState {
        self.accumulator_stack.states()[self.accumulator_stack.depth() - 1]
    }

    /// The caches of accumulators per king square.
    pub closed spec fn tables(&self) -> FinnyTables {
        self.finny_tables
    }

    /// The positions of the plies, root first.
    pub closed spec fn positions(&self) -> Seq<Position> {
        self.history@
    }

    /// Networks, buffers, board, stack and caches fit together.
    pub closed spec fn wf(&self) -> bool {
        let nets = self.networks.nets();
        &&& networks_ready(nets)
        &&& self.scratch_big.wf(3072)
        &&& self.scratch_small.wf(128)
        &&& board_consistent(&self.board)
        &&& self.accumulator_stack.wf()
        &&& self.history@.len() >= self.accumulator_stack.depth()
        &&& self.finny_tables.consistent(&nets.big_net.feature_transformer, &nets.small_net.feature_transformer)
    }

    /// Every live ply is computed for both sides and holds what a refresh over its position gives.
    pub closed spec fn plies_tracked(&self) -> bool {
        let d = self.accumulator_stack.depth();
        let nets = self.networks.nets();
        &&& tracks(self.accumulator_stack.states(), d, self.history@, &nets.big_net.feature_transformer,
            &nets.small_net.feature_transformer)
        &&& forall|i: int| 0 <= i < d ==> (#[trigger] self.accumulator_stack.states()[i]).computed == [true, true]
    }

    /// The live plies are tracked and the current board and king squares are the position of the
    /// current ply.
    pub closed spec fn synced(&self) -> bool {
        let d = self.accumulator_stack.depth();
        &&& self.plies_tracked()
        &&& self.board.pieces@ == self.history@[d - 1].0
        &&& self.board.king_squares@ == self.history@[d - 1].1
    }

    /// Builds a probe around already-loaded networks: empty board, fresh stack, caches cleared
    /// to the networks' biases.
    pub fn from_networks(networks: &'a NnueNetworks) -> (r: Self)
        requires
            networks_ready(*networks),
        ensures
            r.wf(),
            r.nets() == *networks,
            r.current().pieces@ == board::empty_board(),
            r.stack().depth() == 1,
    {
        Self::from_handle(NetworkHandle::Borrowed(networks))
    }

    /// Builds a probe around networks it owns.
    pub fn from_owned(networks: NnueNetworks) -> (r: NNUEProbe<'static>)
        requires
            networks_ready(networks),
        ensures
            r.wf(),
            r.nets() == networks,
            r.current().pieces@ == board::empty_board(),
            r.stack().depth() == 1,
    {
        NNUEProbe::<'static>::from_handle(NetworkHandle::Owned(Box::new(networks)))
    }

    fn from_handle(networks: NetworkHandle<'a>) -> (r: Self)
        requires
            networks_ready(networks.nets()),
        ensures
            r.wf(),
            r.nets() == networks.nets(),
            r.current().pieces@ == board::empty_board(),
            r.stack().depth() == 1,
    {
        let nets = networks.as_ref();
        let scratch_big = ScratchBuffer::new(nets.big_net.feature_transformer.half_dims);
        let scratch_small = ScratchBuffer::new(nets.small_net.feature_transformer.half_dims);
        let mut finny_tables = FinnyTables::new();
        finny_tables.clear(nets.big_net.feature_transformer.biases.as_slice(), nets.small_net.feature_transformer.biases.as_slice());
        proof {
            lemma_cleared_cache_consistent(&finny_tables.cache_big, &nets.big_net.feature_transformer);
            lemma_cleared_cache_consistent(&finny_tables.cache_small, &nets.small_net.feature_transformer);
        }
        let accumulator_stack = AccumulatorStack::new();
        let board = Board::empty();
        let ghost root: Position = (board.pieces@, board.king_squares@);
        let r = NNUEProbe {
            networks,
            scratch_big,
            scratch_small,
            board,
            accumulator_stack,
            finny_tables,
            history: Ghost(Seq::<Position>::empty().push(root)),
        };
        r
    }

    /// The current ply's state is the last live state of the stack.
    pub proof fn lemma_latest_of_stack(&self)
        ensures
            self.latest() == self.stack().states()[self.stack().depth() - 1],
    {
    }

    /// The rule-50 counter of the current ply.
    pub fn rule50(&self) -> (r: i32)
        requires
            self.wf(),
        ensures
            r == self.latest().rule50,
    {
        self.accumulator_stack.latest().rule50
    }
}

} // verus!
