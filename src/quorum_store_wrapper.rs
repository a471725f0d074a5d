//! The batching pipeline's state and decisions: pulled transactions are
//! accumulated into a batch, full batches are sealed and await certification,
//! and certified batches queue up for proposals. The driver that talks to the
//! mempool and to the certification service feeds events in and carries the
//! returned commands out.
use vstd::prelude::*;

verus! {

/// The key that identifies a transaction: its sender and sequence number.
#[derive(Clone, Copy, Debug, PartialEq, Eq, Hash, Structural)]
pub struct TransactionSummary {
    pub sender: u64,
    pub sequence_number: u64,
}

/// When a batch was sealed: an epoch and the round within it.
#[derive(Clone, Copy, Debug, PartialEq, Eq, Structural)]
pub struct LogicalTime {
    pub epoch: u64,
    pub round: u64,
}

impl LogicalTime {
    pub fn new(epoch: u64, round: u64) -> (r: LogicalTime)
        ensures
            r.epoch == epoch,
            r.round == round,
    {
        LogicalTime { epoch, round }
    }
}

/// Identifies a certified batch by its content digest and logical time.
pub struct SignedDigestInfo {
    pub digest: Vec<u8>,
    pub logical_time: LogicalTime,
}

/// Evidence that a quorum of validators stores a batch.
pub struct ProofOfStore {
    pub info: SignedDigestInfo,
    pub multi_signature: Vec<u8>,
}

/// Why a certification request came back without a proof.
#[derive(Clone, Copy, Debug, PartialEq, Eq, Structural)]
pub enum QuorumStoreError {
    /// No quorum was reached in time.
    Timeout,
    /// Too few validators signed.
    InsufficientQuorum,
    /// The resolved request belongs to no batch awaiting a proof.
    UnknownBatch,
}

/// Why a pull from the mempool failed.
#[derive(Clone, Copy, Debug, PartialEq, Eq, Structural)]
pub enum PullError {
    /// The request could not be handed to the mempool.
    SendFailed,
    /// No answer came within the pull timeout.
    Timeout,
    /// The mempool answered with something other than a batch of transactions.
    UnexpectedResponse,
}

/// What the sealing stage is told after a pull.
pub enum QuorumStoreCommand {
    /// Add these transactions to the open batch.
    AppendToBatch(Vec<TransactionSummary>),
    /// Add these transactions and seal the batch at this logical time; its
    /// certification is tracked under the batch id.
    EndBatch(Vec<TransactionSummary>, LogicalTime, u64),
}

/// A sealed batch awaiting its proof.
pub struct PendingBatch {
    pub batch_id: u64,
    pub logical_time: LogicalTime,
    pub summaries: Vec<TransactionSummary>,
}

/// The mathematical form of a [`PendingBatch`].
pub struct PendingView {
    pub batch_id: u64,
    pub logical_time: LogicalTime,
    pub summaries: Seq<TransactionSummary>,
}

impl View for PendingBatch {
    type V = PendingView;

    open spec fn view(&self) -> PendingView {
        PendingView {
            batch_id: self.batch_id,
            logical_time: self.logical_time,
            summaries: self.summaries@,
        }
    }
}

/// The pipeline state, owned by its one driver.
pub struct QuorumStoreWrapper {
    mempool_txn_pull_timeout_ms: u64,
    max_pull_size: u64,
    batch_cap: usize,
    batch_in_progress: Vec<TransactionSummary>,
    proof_in_progress: Vec<PendingBatch>,
    certified: Vec<Vec<TransactionSummary>>,
    broadcast_queue: Vec<ProofOfStore>,
    next_batch_id: u64,
}

/// Whether some batch of `batches` holds `s`.
pub open spec fn in_some(batches: Seq<Seq<TransactionSummary>>, s: TransactionSummary) -> bool {
    exists|i: int| 0 <= i < batches.len() && #[trigger] batches[i].contains(s)
}

/// The summaries of each pending batch, in order.
pub open spec fn pending_summaries(p: Seq<PendingView>) -> Seq<Seq<TransactionSummary>> {
    p.map_values(|b: PendingView| b.summaries)
}

/// The ids of the pending batches, in order.
pub open spec fn pending_ids(p: Seq<PendingView>) -> Seq<u64> {
    p.map_values(|b: PendingView| b.batch_id)
}

proof fn lemma_concat_contains(a: Seq<TransactionSummary>, b: Seq<TransactionSummary>, s: TransactionSummary)
    ensures
        (a + b).contains(s) <==> (a.contains(s) || b.contains(s)),
{
    if a.contains(s) {
        let i = choose|i: int| 0 <= i < a.len() && a[i] == s;
        assert((a + b)[i] == s);
    }
    if b.contains(s) {
        let i = choose|i: int| 0 <= i < b.len() && b[i] == s;
        assert((a + b)[a.len() + i] == s);
    }
    if (a + b).contains(s) {
        let i = choose|i: int| 0 <= i < (a + b).len() && (a + b)[i] == s;
        if i < a.len() {
            assert(a[i] == s);
        } else {
            assert(b[i - a.len()] == s);
        }
    }
}

proof fn lemma_in_some_take(bs: Seq<Seq<TransactionSummary>>, n: int, s: TransactionSummary)
    requires
        0 <= n < bs.len(),
    ensures
        in_some(bs.take(n + 1), s) <==> (in_some(bs.take(n), s) || bs[n].contains(s)),
{
    let t = bs.take(n + 1);
    let u = bs.take(n);
    if in_some(t, s) {
        let k = choose|k: int| 0 <= k < t.len() && #[trigger] t[k].contains(s);
        if k < n {
            assert(u[k] == t[k]);
            assert(u[k].contains(s));
        } else {
            assert(t[k] == bs[n]);
        }
    }
    if in_some(u, s) {
        let k = choose|k: int| 0 <= k < u.len() && #[trigger] u[k].contains(s);
        assert(t[k] == u[k]);
        assert(t[k].contains(s));
    }
    if bs[n].contains(s) {
        assert(t[n] == bs[n]);
        assert(t[n].contains(s));
    }
}

/// Whether `s` is in some batch of `bs` other than the one at index `n`.
proof fn lemma_in_some_remove(bs: Seq<Seq<TransactionSummary>>, n: int, s: TransactionSummary)
    requires
        0 <= n < bs.len(),
    ensures
        in_some(bs, s) <==> (in_some(bs.remove(n), s) || bs[n].contains(s)),
{
    let r = bs.remove(n);
    if in_some(bs, s) && !bs[n].contains(s) {
        let k = choose|k: int| 0 <= k < bs.len() && #[trigger] bs[k].contains(s);
        if k < n {
            assert(r[k] == bs[k]);
            assert(r[k].contains(s));
        } else {
            assert(r[k - 1] == bs[k]);
            assert(r[k - 1].contains(s));
        }
    }
    if in_some(r, s) {
        let k = choose|k: int| 0 <= k < r.len() && #[trigger] r[k].contains(s);
        if k < n {
            assert(bs[k] == r[k]);
            assert(bs[k].contains(s));
        } else {
            assert(bs[k + 1] == r[k]);
            assert(bs[k + 1].contains(s));
        }
    }
}

fn append_all(dst: &mut Vec<TransactionSummary>, src: &Vec<TransactionSummary>)
    ensures
        final(dst)@ == old(dst)@ + src@,
{
    let mut i: usize = 0;
    while i < src.len()
        invariant
            0 <= i <= src.len(),
            dst@ =~= old(dst)@ + src@.take(i as int),
        decreases src.len() - i,
    {
        dst.push(src[i]);
        i = i + 1;
    }
    assert(src@.take(src.len() as int) =~= src@);
}

fn contains_summary(v: &Vec<TransactionSummary>, s: TransactionSummary) -> (r: bool)
    ensures
        r == v@.contains(s),
{
    let mut i: usize = 0;
    while i < v.len()
        invariant
            0 <= i <= v.len(),
            forall|j: int| 0 <= j < i ==> v@[j] != s,
        decreases v.len() - i,
    {
        if v[i] == s {
            return true;
        }
        i = i + 1;
    }
    false
}

impl QuorumStoreWrapper {
    pub fn new(mempool_txn_pull_timeout_ms: u64, max_pull_size: u64, batch_cap: usize) -> (r: Self)
        ensures
            r.well_formed(),
            r.pull_timeout_ms() == mempool_txn_pull_timeout_ms,
            r.max_pull_size() == max_pull_size,
            r.batch_cap() == batch_cap,
            r.in_progress() == Seq::<TransactionSummary>::empty(),
            r.pending() == Seq::<PendingView>::empty(),
            r.certified() == Seq::<Seq<TransactionSummary>>::empty(),
            r.queue() == Seq::<ProofOfStore>::empty(),
            r.next_batch_id() == 0,
    {
        QuorumStoreWrapper {
            mempool_txn_pull_timeout_ms,
            max_pull_size,
            batch_cap,
            batch_in_progress: Vec::new(),
            proof_in_progress: Vec::new(),
            certified: Vec::new(),
            broadcast_queue: Vec::new(),
            next_batch_id: 0,
        }
    }

    pub closed spec fn pull_timeout_ms(&self) -> u64 {
        self.mempool_txn_pull_timeout_ms
    }

    pub closed spec fn max_pull_size(&self) -> u64 {
        self.max_pull_size
    }

    pub closed spec fn batch_cap(&self) -> nat {
        self.batch_cap as nat
    }

    /// The summaries of the open batch, in pull order.
    pub closed spec fn in_progress(&self) -> Seq<TransactionSummary> {
        self.batch_in_progress@
    }

    /// The sealed batches awaiting a proof, in seal order.
    pub closed spec fn pending(&self) -> Seq<PendingView> {
        self.proof_in_progress@.map_values(|b: PendingBatch| b@)
    }

    /// The summaries of the certified batches not yet retired.
    pub closed spec fn certified(&self) -> Seq<Seq<TransactionSummary>> {
        self.certified@.map_values(|b: Vec<TransactionSummary>| b@)
    }

    /// The proofs ready for proposals, oldest first.
    pub closed spec fn queue(&self) -> Seq<ProofOfStore> {
        self.broadcast_queue@
    }

    /// The id that the next sealed batch gets.
    pub closed spec fn next_batch_id(&self) -> u64 {
        self.next_batch_id
    }

    /// Whether `s` is part of a known batch: the open one, a sealed one awaiting
    /// its proof, or a certified one.
    pub open spec fn is_known(&self, s: TransactionSummary) -> bool {
        self.in_progress().contains(s) || in_some(pending_summaries(self.pending()), s) || in_some(
            self.certified(),
            s,
        )
    }

    /// No open or sealed batch holds a summary twice, and the pending batches
    /// have distinct ids below the next one.
    pub open spec fn well_formed(&self) -> bool {
        &&& self.in_progress().no_duplicates()
        &&& forall|i: int|
            0 <= i < self.pending().len() ==> (#[trigger] self.pending()[i]).summaries.no_duplicates()
        &&& forall|i: int|
            0 <= i < self.pending().len() ==> #[trigger] self.pending()[i].batch_id
                < self.next_batch_id()
        &&& pending_ids(self.pending()).no_duplicates()
    }

    /// How long a pull from the mempool may take, in milliseconds.
    pub fn pull_timeout(&self) -> (r: u64)
        ensures
            r == self.pull_timeout_ms(),
    {
        self.mempool_txn_pull_timeout_ms
    }

    /// Whether a batch id is left for the next seal.
    pub fn can_seal(&self) -> (r: bool)
        ensures
            r == (self.next_batch_id() < u64::MAX),
    {
        self.next_batch_id < u64::MAX
    }

    /// How many transactions one pull asks for.
    pub fn pull_size(&self) -> (r: u64)
        ensures
            r == self.max_pull_size(),
    {
        self.max_pull_size
    }

    /// The summaries that a pull must exclude: those of every known batch.
    pub fn exclude_summaries(&self) -> (r: Vec<TransactionSummary>)
        ensures
            forall|s: TransactionSummary| r@.contains(s) <==> self.is_known(s),
    {
        let mut out: Vec<TransactionSummary> = Vec::new();
        append_all(&mut out, &self.batch_in_progress);
        let ghost ps = pending_summaries(self.pending());
        let mut i: usize = 0;
        while i < self.proof_in_progress.len()
            invariant
                0 <= i <= self.proof_in_progress.len(),
                ps == pending_summaries(self.pending()),
                ps.len() == self.proof_in_progress@.len(),
                forall|s: TransactionSummary|
                    #![trigger out@.contains(s)]
                    out@.contains(s) <==> (self.in_progress().contains(s) || in_some(
                        ps.take(i as int),
                        s,
                    )),
            decreases self.proof_in_progress.len() - i,
        {
            let ghost prev = out@;
            append_all(&mut out, &self.proof_in_progress[i].summaries);
            proof {
                assert(ps[i as int] == self.proof_in_progress@[i as int].summaries@);
                assert forall|s: TransactionSummary|
                    #![trigger out@.contains(s)]
                    out@.contains(s) <==> (self.in_progress().contains(s) || in_some(
                        ps.take(i as int + 1),
                        s,
                    )) by {
                    lemma_concat_contains(prev, self.proof_in_progress@[i as int].summaries@, s);
                    lemma_in_some_take(ps, i as int, s);
                }
            }
            i = i + 1;
        }
        assert(ps.take(self.proof_in_progress.len() as int) =~= ps);
        let ghost cs = self.certified();
        let mut j: usize = 0;
        while j < self.certified.len()
            invariant
                0 <= j <= self.certified.len(),
                cs == self.certified(),
                cs.len() == self.certified@.len(),
                forall|s: TransactionSummary|
                    #![trigger out@.contains(s)]
                    out@.contains(s) <==> (self.in_progress().contains(s) || in_some(ps, s)
                        || in_some(cs.take(j as int), s)),
            decreases self.certified.len() - j,
        {
            let ghost prev = out@;
            append_all(&mut out, &self.certified[j]);
            proof {
                assert(cs[j as int] == self.certified@[j as int]@);
                assert forall|s: TransactionSummary|
                    #![trigger out@.contains(s)]
                    out@.contains(s) <==> (self.in_progress().contains(s) || in_some(ps, s)
                        || in_some(cs.take(j as int + 1), s)) by {
                    lemma_concat_contains(prev, self.certified@[j as int]@, s);
                    lemma_in_some_take(cs, j as int, s);
                }
            }
            j = j + 1;
        }
        assert(cs.take(self.certified.len() as int) =~= cs);
        out
    }

    /// The summaries of `pulled` that the open batch takes: each one that is not
    /// already known and not taken earlier in `pulled`, in pull order.
    pub open spec fn fresh_of(&self, pulled: Seq<TransactionSummary>) -> Seq<TransactionSummary>
        decreases pulled.len(),
    {
        if pulled.len() == 0 {
            Seq::empty()
        } else {
            let f = self.fresh_of(pulled.drop_last());
            let s = pulled.last();
            if self.is_known(s) || f.contains(s) {
                f
            } else {
                f.push(s)
            }
        }
    }

    /// What a pull takes holds no summary twice and no known one, and it drops
    /// nothing else: each pulled summary is known or taken.
    pub proof fn lemma_fresh(&self, pulled: Seq<TransactionSummary>)
        ensures
            self.fresh_of(pulled).no_duplicates(),
            forall|i: int|
                0 <= i < self.fresh_of(pulled).len() ==> !self.is_known(
                    #[trigger] self.fresh_of(pulled)[i],
                ) && pulled.contains(self.fresh_of(pulled)[i]),
            forall|i: int|
                0 <= i < pulled.len() ==> self.is_known(#[trigger] pulled[i]) || self.fresh_of(
                    pulled,
                ).contains(pulled[i]),
        decreases pulled.len(),
    {
        if pulled.len() > 0 {
            let d = pulled.drop_last();
            self.lemma_fresh(d);
            let f = self.fresh_of(d);
            let r = self.fresh_of(pulled);
            assert forall|i: int| 0 <= i < r.len() implies !self.is_known(#[trigger] r[i])
                && pulled.contains(r[i]) by {
                if i < f.len() {
                    assert(r[i] == f[i]);
                    assert(d.contains(f[i]));
                    let k = choose|k: int| 0 <= k < d.len() && d[k] == f[i];
                    assert(pulled[k] == d[k]);
                } else {
                    assert(r[i] == pulled[pulled.len() - 1]);
                }
            }
            assert forall|i: int| 0 <= i < pulled.len() implies self.is_known(#[trigger] pulled[i])
                || r.contains(pulled[i]) by {
                if i < d.len() {
                    assert(pulled[i] == d[i]);
                    if f.contains(d[i]) {
                        let k = choose|k: int| 0 <= k < f.len() && f[k] == d[i];
                        assert(r[k] == f[k]);
                    }
                } else if !self.is_known(pulled[i]) && !f.contains(pulled[i]) {
                    assert(r[f.len() as int] == pulled[i]);
                }
            }
        }
    }

    fn accept_new(&self, pulled: &Vec<TransactionSummary>) -> (r: Vec<TransactionSummary>)
        ensures
            r@ == self.fresh_of(pulled@),
    {
        let known = self.exclude_summaries();
        let mut acc: Vec<TransactionSummary> = Vec::new();
        let mut i: usize = 0;
        while i < pulled.len()
            invariant
                0 <= i <= pulled.len(),
                forall|s: TransactionSummary| known@.contains(s) <==> self.is_known(s),
                acc@ == self.fresh_of(pulled@.take(i as int)),
            decreases pulled.len() - i,
        {
            let s = pulled[i];
            assert(pulled@.take(i as int + 1).drop_last() =~= pulled@.take(i as int));
            assert(pulled@.take(i as int + 1).last() == s);
            let seen = contains_summary(&known, s);
            let taken = contains_summary(&acc, s);
            if !seen && !taken {
                acc.push(s);
            }
            i = i + 1;
        }
        assert(pulled@.take(pulled.len() as int) =~= pulled@);
        acc
    }

    /// Handles the outcome of one scheduled pull. A failed pull changes nothing.
    /// Otherwise the fresh summaries join the open batch; once it holds at least
    /// the cap, it is sealed at `logical_time` under the next batch id and
    /// awaits its proof.
    pub fn handle_scheduled_pull(
        &mut self,
        pulled: Result<Vec<TransactionSummary>, PullError>,
        logical_time: LogicalTime,
    ) -> (r: Result<QuorumStoreCommand, PullError>)
        requires
            old(self).well_formed(),
            old(self).next_batch_id() < u64::MAX,
        ensures
            final(self).well_formed(),
            final(self).pull_timeout_ms() == old(self).pull_timeout_ms(),
            final(self).max_pull_size() == old(self).max_pull_size(),
            final(self).batch_cap() == old(self).batch_cap(),
            final(self).certified() == old(self).certified(),
            final(self).queue() == old(self).queue(),
            pulled matches Err(e) ==> r == Err::<QuorumStoreCommand, PullError>(e) && *final(self)
                == *old(self),
            forall|s: TransactionSummary| old(self).is_known(s) ==> #[trigger] final(self).is_known(s),
            pulled matches Ok(v) ==> forall|s: TransactionSummary|
                old(self).fresh_of(v@).contains(s) ==> #[trigger] final(self).is_known(s),
            pulled matches Ok(v) ==> ({
                let acc = old(self).fresh_of(v@);
                let combined = old(self).in_progress() + acc;
                if combined.len() >= old(self).batch_cap() {
                    &&& r matches Ok(QuorumStoreCommand::EndBatch(t, lt, id)) && t@ == acc
                        && lt == logical_time && id == old(self).next_batch_id()
                    &&& final(self).in_progress() == Seq::<TransactionSummary>::empty()
                    &&& final(self).pending() == old(self).pending().push(
                        PendingView {
                            batch_id: old(self).next_batch_id(),
                            logical_time,
                            summaries: combined,
                        },
                    )
                    &&& final(self).next_batch_id() == old(self).next_batch_id() + 1
                } else {
                    &&& r matches Ok(QuorumStoreCommand::AppendToBatch(t)) && t@ == acc
                    &&& final(self).in_progress() == combined
                    &&& final(self).pending() == old(self).pending()
                    &&& final(self).next_batch_id() == old(self).next_batch_id()
                }
            }),
    {
        match pulled {
            Err(e) => Err(e),
            Ok(v) => {
                let acc = self.accept_new(&v);
                proof {
                    self.lemma_fresh(v@);
                    let a = self.in_progress();
                    let b = acc@;
                    assert forall|i: int, j: int|
                        0 <= i < (a + b).len() && 0 <= j < (a + b).len() && i != j implies (a
                        + b)[i] != (a + b)[j] by {
                        if i >= a.len() && j < a.len() {
                            assert(a.contains((a + b)[j]));
                        } else if i < a.len() && j >= a.len() {
                            assert(a.contains((a + b)[i]));
                        }
                    }
                }
                let ghost old_pending = self.pending();
                let ghost old_self = *self;
                append_all(&mut self.batch_in_progress, &acc);
                let ghost combined = self.batch_in_progress@;
                proof {
                    assert forall|s: TransactionSummary|
                        old_self.is_known(s) || acc@.contains(s) implies combined.contains(s)
                        || in_some(pending_summaries(old_pending), s) || in_some(
                        old_self.certified(),
                        s,
                    ) by {
                        lemma_concat_contains(old_self.in_progress(), acc@, s);
                    }
                }
                if self.batch_in_progress.len() >= self.batch_cap {
                    let id = self.next_batch_id;
                    let mut summaries: Vec<TransactionSummary> = Vec::new();
                    std::mem::swap(&mut summaries, &mut self.batch_in_progress);
                    self.proof_in_progress.push(
                        PendingBatch { batch_id: id, logical_time, summaries },
                    );
                    self.next_batch_id = id + 1;
                    proof {
                        assert(self.pending() =~= old_pending.push(
                            PendingView { batch_id: id, logical_time, summaries: summaries@ },
                        ));
                        assert(pending_ids(self.pending()) =~= pending_ids(old_pending).push(id));
                        let ps = pending_summaries(self.pending());
                        assert(ps =~= pending_summaries(old_pending).push(combined));
                        assert forall|s: TransactionSummary|
                            combined.contains(s) || in_some(pending_summaries(old_pending), s)
                                implies in_some(ps, s) by {
                            if combined.contains(s) {
                                assert(ps[ps.len() - 1].contains(s));
                            } else {
                                let k = choose|k: int|
                                    0 <= k < pending_summaries(old_pending).len()
                                        && #[trigger] pending_summaries(old_pending)[k].contains(s);
                                assert(ps[k] == pending_summaries(old_pending)[k]);
                                assert(ps[k].contains(s));
                            }
                        }
                    }
                    Ok(QuorumStoreCommand::EndBatch(acc, logical_time, id))
                } else {
                    Ok(QuorumStoreCommand::AppendToBatch(acc))
                }
            },
        }
    }

    /// Handles the resolution of the certification request of batch `batch_id`.
    /// The batch leaves the pending set whatever the outcome. A proof joins the
    /// tail of the broadcast queue, and the batch's summaries stay known; a
    /// failure is returned, and the batch's summaries become eligible for pulls
    /// again. A request of no pending batch changes nothing.
    pub fn handle_proof_completed(
        &mut self,
        batch_id: u64,
        msg: Result<ProofOfStore, QuorumStoreError>,
    ) -> (r: Result<(), QuorumStoreError>)
        requires
            old(self).well_formed(),
        ensures
            final(self).well_formed(),
            final(self).pull_timeout_ms() == old(self).pull_timeout_ms(),
            final(self).max_pull_size() == old(self).max_pull_size(),
            final(self).batch_cap() == old(self).batch_cap(),
            final(self).in_progress() == old(self).in_progress(),
            final(self).next_batch_id() == old(self).next_batch_id(),
            !pending_ids(old(self).pending()).contains(batch_id) ==> r == Err::<(), QuorumStoreError>(
                QuorumStoreError::UnknownBatch,
            ) && *final(self) == *old(self),
            pending_ids(old(self).pending()).contains(batch_id) ==> exists|k: int|
                0 <= k < old(self).pending().len() && #[trigger] old(self).pending()[k].batch_id
                    == batch_id && final(self).pending() == old(self).pending().remove(k) && (match msg {
                    Ok(p) => {
                        &&& r == Ok::<(), QuorumStoreError>(())
                        &&& final(self).queue() == old(self).queue().push(p)
                        &&& final(self).certified() == old(self).certified().push(
                            old(self).pending()[k].summaries,
                        )
                    },
                    Err(e) => {
                        &&& r == Err::<(), QuorumStoreError>(e)
                        &&& final(self).queue() == old(self).queue()
                        &&& final(self).certified() == old(self).certified()
                    },
                }),
    {
        let mut i: usize = 0;
        while i < self.proof_in_progress.len()
            invariant
                0 <= i <= self.proof_in_progress.len(),
                forall|j: int| 0 <= j < i ==> self.proof_in_progress@[j].batch_id != batch_id,
            ensures
                0 <= i <= self.proof_in_progress.len(),
                forall|j: int| 0 <= j < i ==> self.proof_in_progress@[j].batch_id != batch_id,
                i < self.proof_in_progress.len() ==> self.proof_in_progress@[i as int].batch_id
                    == batch_id,
            decreases self.proof_in_progress.len() - i,
        {
            if self.proof_in_progress[i].batch_id == batch_id {
                break;
            }
            i = i + 1;
        }
        if i == self.proof_in_progress.len() {
            proof {
                if pending_ids(self.pending()).contains(batch_id) {
                    let k = choose|k: int|
                        0 <= k < pending_ids(self.pending()).len() && pending_ids(self.pending())[k]
                            == batch_id;
                    assert(self.proof_in_progress@[k].batch_id == batch_id);
                }
            }
            return Err(QuorumStoreError::UnknownBatch);
        }
        let ghost old_pending = self.pending();
        let ghost old_ids = pending_ids(old_pending);
        assert(old_ids[i as int] == batch_id);
        let batch = self.proof_in_progress.remove(i);
        proof {
            assert(self.pending() =~= old_pending.remove(i as int));
            assert(pending_ids(self.pending()) =~= old_ids.remove(i as int));
            assert forall|a: int, b: int|
                0 <= a < pending_ids(self.pending()).len() && 0 <= b < pending_ids(
                    self.pending(),
                ).len() && a != b implies pending_ids(self.pending())[a] != pending_ids(
                self.pending(),
            )[b] by {
                let a2 = if a < i {
                    a
                } else {
                    a + 1
                };
                let b2 = if b < i {
                    b
                } else {
                    b + 1
                };
                assert(old_ids[a2] != old_ids[b2]);
            }
            assert forall|j: int| 0 <= j < self.pending().len() implies #[trigger] self.pending()[j].batch_id
                < self.next_batch_id() by {
                let j2 = if j < i {
                    j
                } else {
                    j + 1
                };
                assert(old_pending[j2].batch_id < self.next_batch_id());
            }
        }
        match msg {
            Ok(proof) => {
                let ghost prev = self.certified();
                self.certified.push(batch.summaries);
                assert(self.certified() =~= prev.push(old_pending[i as int].summaries));
                self.broadcast_queue.push(proof);
                Ok(())
            },
            Err(e) => Err(e),
        }
    }

    /// Hands out up to `max_count` proofs from the front of the broadcast queue,
    /// removing them from it.
    pub fn pull_proofs(&mut self, max_count: usize) -> (r: Vec<ProofOfStore>)
        requires
            old(self).well_formed(),
        ensures
            final(self).well_formed(),
            final(self).pull_timeout_ms() == old(self).pull_timeout_ms(),
            final(self).max_pull_size() == old(self).max_pull_size(),
            final(self).batch_cap() == old(self).batch_cap(),
            final(self).in_progress() == old(self).in_progress(),
            final(self).pending() == old(self).pending(),
            final(self).certified() == old(self).certified(),
            final(self).next_batch_id() == old(self).next_batch_id(),
            ({
                let n = if max_count < old(self).queue().len() {
                    max_count as int
                } else {
                    old(self).queue().len() as int
                };
                &&& r@ == old(self).queue().subrange(0, n)
                &&& final(self).queue() == old(self).queue().subrange(n, old(self).queue().len() as int)
            }),
    {
        let n: usize = if max_count < self.broadcast_queue.len() {
            max_count
        } else {
            self.broadcast_queue.len()
        };
        let mut rest = self.broadcast_queue.split_off(n);
        std::mem::swap(&mut self.broadcast_queue, &mut rest);
        rest
    }

    /// How many proofs wait in the broadcast queue.
    pub fn ready_proofs(&self) -> (r: usize)
        ensures
            r == self.queue().len(),
    {
        self.broadcast_queue.len()
    }
}

/// A summary that is part of a known batch is never taken by a pull.
pub proof fn lemma_pull_exclusion(w: &QuorumStoreWrapper, pulled: Seq<TransactionSummary>, s: TransactionSummary)
    requires
        w.is_known(s),
    ensures
        !w.fresh_of(pulled).contains(s),
{
    w.lemma_fresh(pulled);
    if w.fresh_of(pulled).contains(s) {
        let i = choose|i: int| 0 <= i < w.fresh_of(pulled).len() && w.fresh_of(pulled)[i] == s;
        assert(!w.is_known(w.fresh_of(pulled)[i]));
    }
}

} // verus!
