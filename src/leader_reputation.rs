//! Reputation-weighted, deterministic choice of the proposer for a round.
use vstd::prelude::*;

use crate::mixing::{round_seed, round_value};
use crate::selection::{
    lemma_prefix_bound, lemma_prefix_monotone, select_proposer_index, selected_index, total_weight,
    prefix_sum,
};

verus! {

/// A validator's identity.
pub type Author = u64;

/// The selection key: a round of consensus.
pub type Round = u64;

/// What one committed block says about who produced it and who voted for it.
pub struct NewBlockEvent {
    pub epoch: u64,
    pub round: Round,
    pub proposer: Author,
    /// One flag per validator, in the fixed validator order: whether it voted.
    pub votes: Vec<bool>,
    pub timestamp: u64,
}

/// The mathematical form of a [`NewBlockEvent`].
pub struct BlockRecord {
    pub epoch: u64,
    pub round: Round,
    pub proposer: Author,
    pub votes: Seq<bool>,
    pub timestamp: u64,
}

impl View for NewBlockEvent {
    type V = BlockRecord;

    open spec fn view(&self) -> BlockRecord {
        BlockRecord {
            epoch: self.epoch,
            round: self.round,
            proposer: self.proposer,
            votes: self.votes@,
            timestamp: self.timestamp,
        }
    }
}

/// The records that a sequence of events holds, in the same order.
pub open spec fn records_of(events: Seq<NewBlockEvent>) -> Seq<BlockRecord> {
    events.map_values(|e: NewBlockEvent| e@)
}

impl NewBlockEvent {
    pub fn new(epoch: u64, round: Round, votes: Vec<bool>, proposer: Author, timestamp: u64) -> (r:
        NewBlockEvent)
        ensures
            r.epoch == epoch,
            r.round == round,
            r.votes@ == votes@,
            r.proposer == proposer,
            r.timestamp == timestamp,
    {
        NewBlockEvent { epoch, round, proposer, votes, timestamp }
    }

    /// An independent copy of this event.
    pub fn duplicate(&self) -> (r: NewBlockEvent)
        ensures
            r@ == self@,
    {
        let mut votes: Vec<bool> = Vec::new();
        let mut i: usize = 0;
        while i < self.votes.len()
            invariant
                0 <= i <= self.votes.len(),
                votes@ =~= self.votes@.take(i as int),
            decreases self.votes.len() - i,
        {
            votes.push(self.votes[i]);
            i = i + 1;
        }
        assert(votes@ =~= self.votes@);
        NewBlockEvent {
            epoch: self.epoch,
            round: self.round,
            proposer: self.proposer,
            votes,
            timestamp: self.timestamp,
        }
    }
}

/// Whether `rec` makes the candidate at index `i` active for `epoch`: the record
/// belongs to that epoch, and the candidate proposed it or voted for it.
pub open spec fn marks(epoch: u64, candidates: Seq<Author>, rec: BlockRecord, i: int) -> bool {
    rec.epoch == epoch && (rec.proposer == candidates[i] || (i < rec.votes.len() && rec.votes[i]))
}

/// Whether some record of `history` makes the candidate at index `i` active.
pub open spec fn is_active(
    epoch: u64,
    candidates: Seq<Author>,
    history: Seq<BlockRecord>,
    i: int,
) -> bool {
    exists|j: int| 0 <= j < history.len() && #[trigger] marks(epoch, candidates, history[j], i)
}

/// The active/inactive weights: `active` for each active candidate, `inactive`
/// for every other one, in candidate order.
pub open spec fn active_inactive_weights(
    epoch: u64,
    candidates: Seq<Author>,
    history: Seq<BlockRecord>,
    active: u64,
    inactive: u64,
) -> Seq<u64> {
    Seq::new(
        candidates.len(),
        |i: int|
            if is_active(epoch, candidates, history, i) {
                active
            } else {
                inactive
            },
    )
}

/// A rule that turns the recent history into one positive weight per candidate.
pub trait ReputationHeuristic {
    /// Whether the heuristic's configuration is usable.
    spec fn well_formed(&self) -> bool;

    /// The weights that the heuristic gives.
    spec fn weights_of(
        &self,
        epoch: u64,
        candidates: Seq<Author>,
        history: Seq<BlockRecord>,
    ) -> Seq<u64>;

    fn get_weights(&self, epoch: u64, candidates: &Vec<Author>, history: &Vec<NewBlockEvent>) -> (r:
        Vec<u64>)
        requires
            self.well_formed(),
        ensures
            r@ == self.weights_of(epoch, candidates@, records_of(history@)),
            r@.len() == candidates@.len(),
            forall|i: int| 0 <= i < r@.len() ==> r@[i] >= 1,
    ;
}

/// Rewards every candidate that proposed or voted in the current epoch.
pub struct ActiveInactiveHeuristic {
    author: Author,
    active_weight: u64,
    inactive_weight: u64,
}

impl ActiveInactiveHeuristic {
    pub fn new(author: Author, active_weight: u64, inactive_weight: u64) -> (r: Self)
        requires
            active_weight >= 1,
            inactive_weight >= 1,
        ensures
            r.well_formed(),
            r.author_spec() == author,
            r.active_weight() == active_weight,
            r.inactive_weight() == inactive_weight,
    {
        ActiveInactiveHeuristic { author, active_weight, inactive_weight }
    }

    /// The validator that runs this heuristic.
    pub fn author(&self) -> (r: Author)
        ensures
            r == self.author_spec(),
    {
        self.author
    }

    pub closed spec fn author_spec(&self) -> Author {
        self.author
    }

    pub closed spec fn active_weight(&self) -> u64 {
        self.active_weight
    }

    pub closed spec fn inactive_weight(&self) -> u64 {
        self.inactive_weight
    }
}

impl ReputationHeuristic for ActiveInactiveHeuristic {
    open spec fn well_formed(&self) -> bool {
        self.active_weight() >= 1 && self.inactive_weight() >= 1
    }

    open spec fn weights_of(
        &self,
        epoch: u64,
        candidates: Seq<Author>,
        history: Seq<BlockRecord>,
    ) -> Seq<u64> {
        active_inactive_weights(
            epoch,
            candidates,
            history,
            self.active_weight(),
            self.inactive_weight(),
        )
    }

    fn get_weights(&self, epoch: u64, candidates: &Vec<Author>, history: &Vec<NewBlockEvent>) -> (r:
        Vec<u64>) {
        let ghost hist = records_of(history@);
        let mut weights: Vec<u64> = Vec::new();
        let mut i: usize = 0;
        while i < candidates.len()
            invariant
                0 <= i <= candidates.len(),
                hist == records_of(history@),
                self.well_formed(),
                weights@ =~= self.weights_of(epoch, candidates@, hist).take(i as int),
            decreases candidates.len() - i,
        {
            let mut active = false;
            let mut j: usize = 0;
            while j < history.len()
                invariant
                    0 <= i < candidates.len(),
                    0 <= j <= history.len(),
                    hist == records_of(history@),
                    hist.len() == history@.len(),
                    active == exists|k: int|
                        0 <= k < j && #[trigger] marks(epoch, candidates@, hist[k], i as int),
                decreases history.len() - j,
            {
                let rec = &history[j];
                assert(hist[j as int] == rec@);
                if rec.epoch == epoch && (rec.proposer == candidates[i] || (i < rec.votes.len()
                    && rec.votes[i])) {
                    assert(marks(epoch, candidates@, hist[j as int], i as int));
                    active = true;
                }
                j = j + 1;
            }
            if active {
                weights.push(self.active_weight);
            } else {
                weights.push(self.inactive_weight);
            }
            i = i + 1;
        }
        weights
    }
}

/// The records of `history` that belong to `epoch`, in order.
pub open spec fn records_in_epoch(epoch: u64, history: Seq<BlockRecord>) -> Seq<BlockRecord> {
    history.filter(|r: BlockRecord| r.epoch == epoch)
}

proof fn lemma_filter_subset(s: Seq<BlockRecord>, pred: spec_fn(BlockRecord) -> bool, k: int)
    requires
        0 <= k < s.filter(pred).len(),
    ensures
        s.contains(s.filter(pred)[k]),
    decreases s.len(),
{
    reveal(Seq::filter);
    if s.len() > 0 {
        let sub = s.drop_last().filter(pred);
        if k < sub.len() {
            lemma_filter_subset(s.drop_last(), pred, k);
            let j = choose|j: int| 0 <= j < s.drop_last().len() && s.drop_last()[j] == sub[k];
            assert(s[j] == s.filter(pred)[k]);
        } else {
            assert(s.filter(pred)[k] == s[s.len() - 1]);
        }
    }
}

proof fn lemma_active_in_epoch(epoch: u64, candidates: Seq<Author>, history: Seq<BlockRecord>, i: int)
    ensures
        is_active(epoch, candidates, history, i) == is_active(
            epoch,
            candidates,
            records_in_epoch(epoch, history),
            i,
        ),
{
    broadcast use vstd::seq_lib::group_filter_ensures;
    let pred = |r: BlockRecord| r.epoch == epoch;
    let f = records_in_epoch(epoch, history);
    if is_active(epoch, candidates, history, i) {
        let j = choose|j: int| 0 <= j < history.len() && #[trigger] marks(epoch, candidates, history[j], i);
        assert(pred(history[j]));
        assert(f.contains(history[j]));
        let k = choose|k: int| 0 <= k < f.len() && f[k] == history[j];
        assert(marks(epoch, candidates, f[k], i));
    }
    if is_active(epoch, candidates, f, i) {
        let k = choose|k: int| 0 <= k < f.len() && #[trigger] marks(epoch, candidates, f[k], i);
        lemma_filter_subset(history, pred, k);
        let j = choose|j: int| 0 <= j < history.len() && history[j] == f[k];
        assert(marks(epoch, candidates, history[j], i));
    }
}

/// Records of other epochs never count: two histories with the same records in
/// the current epoch, in the same order, give the same weights.
pub proof fn lemma_epoch_isolation(
    heuristic: ActiveInactiveHeuristic,
    epoch: u64,
    candidates: Seq<Author>,
    h1: Seq<BlockRecord>,
    h2: Seq<BlockRecord>,
)
    requires
        records_in_epoch(epoch, h1) == records_in_epoch(epoch, h2),
    ensures
        heuristic.weights_of(epoch, candidates, h1) == heuristic.weights_of(epoch, candidates, h2),
{
    assert forall|i: int| 0 <= i < candidates.len() implies is_active(epoch, candidates, h1, i)
        == is_active(epoch, candidates, h2, i) by {
        lemma_active_in_epoch(epoch, candidates, h1, i);
        lemma_active_in_epoch(epoch, candidates, h2, i);
    }
    assert(heuristic.weights_of(epoch, candidates, h1) =~= heuristic.weights_of(
        epoch,
        candidates,
        h2,
    ));
}

/// A history with no record of the current epoch (an empty one included) gives
/// every candidate the inactive weight.
pub proof fn lemma_window_exhaustion(
    heuristic: ActiveInactiveHeuristic,
    epoch: u64,
    candidates: Seq<Author>,
    history: Seq<BlockRecord>,
)
    requires
        forall|j: int| 0 <= j < history.len() ==> #[trigger] history[j].epoch != epoch,
    ensures
        heuristic.weights_of(epoch, candidates, history) =~= Seq::new(
            candidates.len(),
            |i: int| heuristic.inactive_weight(),
        ),
{
    assert forall|i: int| 0 <= i < candidates.len() implies !is_active(
        epoch,
        candidates,
        history,
        i,
    ) by {
        assert forall|j: int| 0 <= j < history.len() implies !#[trigger] marks(
            epoch,
            candidates,
            history[j],
            i,
        ) by {
            assert(history[j].epoch != epoch);
        }
    }
}

/// A source of the recent block history, read by round.
pub trait MetadataBackend {
    /// The window that the backend returns for `target_round`. Being a function
    /// of the round, repeated reads at one round agree.
    spec fn history_at(&self, target_round: Round) -> Seq<BlockRecord>;

    fn get_block_metadata(&self, target_round: Round) -> (r: Vec<NewBlockEvent>)
        ensures
            records_of(r@) == self.history_at(target_round),
    ;
}

/// The records of `data` known at `target_round`: those of that round or earlier.
pub open spec fn known_at(data: Seq<BlockRecord>, target_round: Round) -> Seq<BlockRecord> {
    data.filter(|r: BlockRecord| r.round <= target_round)
}

/// The last `n` entries of `s`, or all of them where there are fewer.
pub open spec fn most_recent(s: Seq<BlockRecord>, n: nat) -> Seq<BlockRecord> {
    if s.len() > n {
        s.subrange(s.len() - n, s.len() as int)
    } else {
        s
    }
}

/// Committed block history held in memory in chain order (oldest first),
/// served as a sliding window of at most `window_size` records.
pub struct InMemoryHistory {
    window_size: usize,
    data: Vec<NewBlockEvent>,
}

impl InMemoryHistory {
    pub fn new(window_size: usize, data: Vec<NewBlockEvent>) -> (r: Self)
        ensures
            r.window_size() == window_size,
            r.records() == records_of(data@),
    {
        InMemoryHistory { window_size, data }
    }

    pub closed spec fn window_size(&self) -> nat {
        self.window_size as nat
    }

    pub closed spec fn records(&self) -> Seq<BlockRecord> {
        records_of(self.data@)
    }
}

impl MetadataBackend for InMemoryHistory {
    open spec fn history_at(&self, target_round: Round) -> Seq<BlockRecord> {
        most_recent(known_at(self.records(), target_round), self.window_size())
    }

    fn get_block_metadata(&self, target_round: Round) -> (r: Vec<NewBlockEvent>) {
        let ghost recs = records_of(self.data@);
        let mut known: Vec<NewBlockEvent> = Vec::new();
        let mut i: usize = 0;
        while i < self.data.len()
            invariant
                0 <= i <= self.data.len(),
                recs == records_of(self.data@),
                records_of(known@) =~= known_at(recs.take(i as int), target_round),
            decreases self.data.len() - i,
        {
            proof {
                reveal(Seq::filter);
                assert(recs.take(i as int + 1).drop_last() =~= recs.take(i as int));
                assert(recs.take(i as int + 1).last() == self.data@[i as int]@);
            }
            if self.data[i].round <= target_round {
                let e = self.data[i].duplicate();
                let ghost prev = known@;
                known.push(e);
                assert(records_of(known@) =~= records_of(prev).push(e@));
            }
            i = i + 1;
        }
        assert(recs.take(self.data.len() as int) =~= recs);
        let start: usize = if known.len() > self.window_size {
            known.len() - self.window_size
        } else {
            0
        };
        let mut out: Vec<NewBlockEvent> = Vec::new();
        let mut k: usize = start;
        while k < known.len()
            invariant
                start <= k <= known.len(),
                records_of(out@) =~= records_of(known@).subrange(start as int, k as int),
            decreases known.len() - k,
        {
            let e = known[k].duplicate();
            assert(records_of(known@)[k as int] == e@);
            let ghost prev = out@;
            out.push(e);
            assert(records_of(out@) =~= records_of(prev).push(e@));
            k = k + 1;
        }
        assert(records_of(known@).subrange(start as int, known.len() as int) =~= most_recent(
            records_of(known@),
            self.window_size as nat,
        ));
        out
    }
}

/// Chooses the proposer of each round from the candidates, weighted by their
/// recent activity.
pub struct LeaderReputation<B: MetadataBackend, H: ReputationHeuristic> {
    epoch: u64,
    proposers: Vec<Author>,
    backend: B,
    heuristic: H,
    exclude_round: u64,
}

/// The round whose history informs the choice at `round`: `lookback` rounds
/// earlier, or round zero.
pub open spec fn target_round(round: Round, lookback: u64) -> Round {
    if round >= lookback {
        (round - lookback) as u64
    } else {
        0
    }
}

/// The proposer that the weights `w` and the round draw choose among `candidates`:
/// the draw reduced modulo the total weight is the threshold.
pub open spec fn chosen_proposer(candidates: Seq<Author>, w: Seq<u64>, round: Round) -> Author {
    candidates[selected_index(w, round_value(round) as int % total_weight(w))]
}

impl<B: MetadataBackend, H: ReputationHeuristic> LeaderReputation<B, H> {
    pub fn new(epoch: u64, proposers: Vec<Author>, backend: B, heuristic: H, exclude_round: u64) -> (r:
        Self)
        requires
            proposers.len() > 0,
            heuristic.well_formed(),
        ensures
            r.well_formed(),
            r.epoch() == epoch,
            r.candidates() == proposers@,
            r.backend() == backend,
            r.heuristic() == heuristic,
            r.lookback() == exclude_round,
    {
        LeaderReputation { epoch, proposers, backend, heuristic, exclude_round }
    }

    pub closed spec fn well_formed(&self) -> bool {
        self.proposers.len() > 0 && self.heuristic.well_formed()
    }

    pub closed spec fn epoch(&self) -> u64 {
        self.epoch
    }

    pub closed spec fn candidates(&self) -> Seq<Author> {
        self.proposers@
    }

    pub closed spec fn backend(&self) -> B {
        self.backend
    }

    pub closed spec fn heuristic(&self) -> H {
        self.heuristic
    }

    pub closed spec fn lookback(&self) -> u64 {
        self.exclude_round
    }

    /// The weights in force at `round`.
    pub open spec fn weights_at(&self, round: Round) -> Seq<u64> {
        self.heuristic().weights_of(
            self.epoch(),
            self.candidates(),
            self.backend().history_at(target_round(round, self.lookback())),
        )
    }

    /// The proposer of `round`.
    pub open spec fn proposer_of(&self, round: Round) -> Author {
        chosen_proposer(self.candidates(), self.weights_at(round), round)
    }

    pub fn get_valid_proposer(&self, round: Round) -> (r: Author)
        requires
            self.well_formed(),
        ensures
            r == self.proposer_of(round),
    {
        let target: u64 = if round >= self.exclude_round {
            round - self.exclude_round
        } else {
            0
        };
        let history = self.backend.get_block_metadata(target);
        let weights = self.heuristic.get_weights(self.epoch, &self.proposers, &history);
        let total = sum_weights(&weights);
        let v = round_seed(round);
        let threshold: u128 = (v as u128) % total;
        let idx = select_proposer_index(&weights, threshold);
        self.proposers[idx]
    }

    pub fn is_valid_proposer(&self, author: Author, round: Round) -> (r: bool)
        requires
            self.well_formed(),
        ensures
            r == (author == self.proposer_of(round)),
    {
        self.get_valid_proposer(round) == author
    }
}

/// The sum of `weights`, which is positive when they are.
pub fn sum_weights(weights: &Vec<u64>) -> (r: u128)
    ensures
        r == total_weight(weights@),
        weights@.len() > 0 && (forall|i: int| 0 <= i < weights@.len() ==> weights@[i] >= 1) ==> r
            > 0,
{
    let ghost w = weights@;
    let mut acc: u128 = 0;
    let mut i: usize = 0;
    while i < weights.len()
        invariant
            w == weights@,
            0 <= i <= w.len(),
            acc == prefix_sum(w, i as int),
        decreases w.len() - i,
    {
        proof {
            lemma_prefix_bound(w, i as int + 1);
            assert(w.len() <= usize::MAX);
        }
        acc = acc + weights[i] as u128;
        i = i + 1;
    }
    proof {
        if w.len() > 0 {
            lemma_prefix_monotone(w, 1, w.len() as int);
        }
    }
    acc
}

/// The choice depends on nothing but the configuration and the history: two
/// engines with the same epoch, candidates, heuristic and lookback, whose
/// backends give the same window for the round, name the same proposer for it;
/// and so does one engine asked twice.
pub proof fn lemma_determinism<B: MetadataBackend, H: ReputationHeuristic>(
    a: &LeaderReputation<B, H>,
    b: &LeaderReputation<B, H>,
    round: Round,
)
    requires
        a.epoch() == b.epoch(),
        a.candidates() == b.candidates(),
        a.heuristic() == b.heuristic(),
        a.lookback() == b.lookback(),
        a.backend().history_at(target_round(round, a.lookback())) == b.backend().history_at(
            target_round(round, b.lookback()),
        ),
    ensures
        a.proposer_of(round) == b.proposer_of(round),
{
}

} // verus!

