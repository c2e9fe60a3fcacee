//! The conflict filter: a single-pass, stateful transform over one
//! epoch's ordered transaction stream that drops any transaction whose
//! inputs collide with an input already accepted in this epoch — reused
//! mint-note bundles, replayed peg-in proofs, or double-spent contract
//! accounts. First seen wins; a rejected transaction contributes
//! nothing.

use vstd::prelude::*;

use crate::bytes_eq;
use crate::contracts::ContractId;

verus! {

/// A transaction input, as far as the filter needs to see it: the
/// uniqueness key of each input kind.
#[derive(Debug)]
pub enum Input {
    /// A mint-note bundle: the ordered list of its coin commitments.
    Mint(Vec<Vec<u8>>),
    /// A peg-in proof in its canonical byte form.
    Wallet(Vec<u8>),
    /// A spend of a Lightning contract account.
    LN(ContractId),
}

/// A transaction, reduced to its inputs.
#[derive(Debug)]
pub struct Transaction {
    pub inputs: Vec<Input>,
}

/// Mathematical model of an input.
pub ghost enum InputV {
    Mint(Seq<Seq<u8>>),
    Wallet(Seq<u8>),
    LN(Seq<u8>),
}

/// Mathematical model of a transaction.
pub ghost struct TransactionV {
    pub inputs: Seq<InputV>,
}

impl View for Input {
    type V = InputV;

    open spec fn view(&self) -> InputV {
        match self {
            Input::Mint(coins) => InputV::Mint(coins.deep_view()),
            Input::Wallet(proof_bytes) => InputV::Wallet(proof_bytes@),
            Input::LN(id) => InputV::LN(id@),
        }
    }
}

impl View for Transaction {
    type V = TransactionV;

    open spec fn view(&self) -> TransactionV {
        TransactionV { inputs: self.inputs@.map_values(|i: Input| i@) }
    }
}

/// The per-kind sets of uniqueness keys accepted so far in this epoch.
#[verifier::ext_equal]
pub ghost struct FilterStateV {
    pub coins: Seq<Seq<Seq<u8>>>,
    pub pegs: Seq<Seq<u8>>,
    pub contracts: Seq<Seq<u8>>,
}

/// Threads one transaction's inputs through the filter state: `None`
/// when some input duplicates an already-seen key (or an earlier input
/// of the same transaction), otherwise the state extended by every
/// input's key.
pub open spec fn scan_inputs(st: FilterStateV, inputs: Seq<InputV>) -> Option<FilterStateV>
    decreases inputs.len(),
{
    if inputs.len() == 0 {
        Some(st)
    } else {
        match inputs[0] {
            InputV::Mint(coins) => {
                if st.coins.contains(coins) {
                    None
                } else {
                    scan_inputs(
                        FilterStateV {
                            coins: st.coins.push(coins),
                            pegs: st.pegs,
                            contracts: st.contracts,
                        },
                        inputs.drop_first(),
                    )
                }
            },
            InputV::Wallet(proof_bytes) => {
                if st.pegs.contains(proof_bytes) {
                    None
                } else {
                    scan_inputs(
                        FilterStateV {
                            coins: st.coins,
                            pegs: st.pegs.push(proof_bytes),
                            contracts: st.contracts,
                        },
                        inputs.drop_first(),
                    )
                }
            },
            InputV::LN(id) => {
                if st.contracts.contains(id) {
                    None
                } else {
                    scan_inputs(
                        FilterStateV {
                            coins: st.coins,
                            pegs: st.pegs,
                            contracts: st.contracts.push(id),
                        },
                        inputs.drop_first(),
                    )
                }
            },
        }
    }
}

/// The view of a list of transactions as a sequence of their models.
pub open spec fn txs_view(txs: Seq<Transaction>) -> Seq<TransactionV> {
    txs.map_values(|t: Transaction| t@)
}

/// The transactions kept out of an ordered stream, first seen winning,
/// together with the filter state the stream leaves behind.
pub open spec fn filter_spec(st: FilterStateV, txs: Seq<TransactionV>) -> (Seq<TransactionV>,
    FilterStateV)
    decreases txs.len(),
{
    if txs.len() == 0 {
        (Seq::empty(), st)
    } else {
        match scan_inputs(st, txs[0].inputs) {
            Some(st2) => {
                let rest = filter_spec(st2, txs.drop_first());
                (seq![txs[0]] + rest.0, rest.1)
            },
            None => filter_spec(st, txs.drop_first()),
        }
    }
}

/// The stateful filter over one epoch's transaction stream.
#[derive(Debug)]
pub struct ConflictFilter {
    pub coin_set: Vec<Vec<Vec<u8>>>,
    pub peg_in_set: Vec<Vec<u8>>,
    pub in_contract_set: Vec<ContractId>,
}

/// Copies a coin-commitment list.
fn copy_coins(v: &Vec<Vec<u8>>) -> (r: Vec<Vec<u8>>)
    ensures
        r.deep_view() == v.deep_view(),
{
    let mut out: Vec<Vec<u8>> = Vec::new();
    let mut i: usize = 0;
    while i < v.len()
        invariant
            i <= v@.len(),
            out@.len() == i,
            forall|j: int| 0 <= j < i ==> out.deep_view()[j] == v.deep_view()[j],
        decreases v@.len() - i,
    {
        out.push(crate::contracts::copy_bytes(&v[i]));
        proof {
            assert(out.deep_view()[i as int] =~= v.deep_view()[i as int]);
        }
        i = i + 1;
    }
    proof {
        assert(out.deep_view() =~= v.deep_view());
    }
    out
}

/// Equality of two coin-commitment lists.
fn coins_eq(a: &Vec<Vec<u8>>, b: &Vec<Vec<u8>>) -> (r: bool)
    ensures
        r == (a.deep_view() == b.deep_view()),
{
    if a.len() != b.len() {
        proof {
            assert(a.deep_view().len() == a@.len());
            assert(b.deep_view().len() == b@.len());
        }
        return false;
    }
    let mut i: usize = 0;
    while i < a.len()
        invariant
            i <= a@.len(),
            a@.len() == b@.len(),
            forall|j: int| 0 <= j < i ==> a.deep_view()[j] == b.deep_view()[j],
        decreases a@.len() - i,
    {
        if !bytes_eq(&a[i], &b[i]) {
            proof {
                assert(a.deep_view()[i as int] =~= a@[i as int]@);
                assert(b.deep_view()[i as int] =~= b@[i as int]@);
            }
            return false;
        }
        proof {
            assert(a.deep_view()[i as int] =~= a@[i as int]@);
            assert(b.deep_view()[i as int] =~= b@[i as int]@);
        }
        i = i + 1;
    }
    proof {
        assert(a.deep_view() =~= b.deep_view());
    }
    true
}

impl ConflictFilter {
    /// The seen-key state of the filter.
    pub open spec fn st(&self) -> FilterStateV {
        FilterStateV {
            coins: self.coin_set.deep_view(),
            pegs: self.peg_in_set@.map_values(|p: Vec<u8>| p@),
            contracts: self.in_contract_set@.map_values(|c: ContractId| c@),
        }
    }

    /// A filter that has seen nothing yet. Its state is discarded when
    /// the epoch's stream ends.
    pub fn new() -> (r: ConflictFilter)
        ensures
            r.st() =~~= (FilterStateV {
                coins: Seq::empty(),
                pegs: Seq::empty(),
                contracts: Seq::empty(),
            }),
    {
        ConflictFilter {
            coin_set: Vec::new(),
            peg_in_set: Vec::new(),
            in_contract_set: Vec::new(),
        }
    }

    /// Whether a coin-commitment bundle was already accepted.
    fn coins_seen(&self, coins: &Vec<Vec<u8>>) -> (r: bool)
        ensures
            r == self.st().coins.contains(coins.deep_view()),
    {
        let mut i: usize = 0;
        while i < self.coin_set.len()
            invariant
                i <= self.coin_set@.len(),
                forall|j: int| 0 <= j < i ==> self.st().coins[j] != coins.deep_view(),
            decreases self.coin_set@.len() - i,
        {
            if coins_eq(&self.coin_set[i], coins) {
                proof {
                    assert(self.st().coins[i as int] == coins.deep_view());
                }
                return true;
            }
            proof {
                assert(self.st().coins[i as int] == self.coin_set@[i as int].deep_view());
            }
            i = i + 1;
        }
        proof {
            if self.st().coins.contains(coins.deep_view()) {
                let j = choose|j: int|
                    0 <= j < self.st().coins.len() && self.st().coins[j] == coins.deep_view();
                assert(false);
            }
        }
        false
    }

    /// Whether a peg-in proof was already accepted.
    fn peg_in_seen(&self, proof_bytes: &Vec<u8>) -> (r: bool)
        ensures
            r == self.st().pegs.contains(proof_bytes@),
    {
        let mut i: usize = 0;
        while i < self.peg_in_set.len()
            invariant
                i <= self.peg_in_set@.len(),
                forall|j: int| 0 <= j < i ==> self.st().pegs[j] != proof_bytes@,
            decreases self.peg_in_set@.len() - i,
        {
            if bytes_eq(&self.peg_in_set[i], proof_bytes) {
                proof {
                    assert(self.st().pegs[i as int] == proof_bytes@);
                }
                return true;
            }
            i = i + 1;
        }
        proof {
            if self.st().pegs.contains(proof_bytes@) {
                let j = choose|j: int|
                    0 <= j < self.st().pegs.len() && self.st().pegs[j] == proof_bytes@;
                assert(false);
            }
        }
        false
    }

    /// Whether a contract account was already spent in this epoch.
    fn contract_seen(&self, id: &Vec<u8>) -> (r: bool)
        ensures
            r == self.st().contracts.contains(id@),
    {
        let mut i: usize = 0;
        while i < self.in_contract_set.len()
            invariant
                i <= self.in_contract_set@.len(),
                forall|j: int| 0 <= j < i ==> self.st().contracts[j] != id@,
            decreases self.in_contract_set@.len() - i,
        {
            if bytes_eq(&self.in_contract_set[i], id) {
                proof {
                    assert(self.st().contracts[i as int] == id@);
                }
                return true;
            }
            i = i + 1;
        }
        proof {
            if self.st().contracts.contains(id@) {
                let j = choose|j: int|
                    0 <= j < self.st().contracts.len() && self.st().contracts[j] == id@;
                assert(false);
            }
        }
        false
    }

    /// Hands the next transaction of the stream through the filter:
    /// `Some` and its keys recorded when none of its inputs duplicates
    /// an accepted one, `None` and no state change otherwise.
    pub fn next(&mut self, tx: Transaction) -> (r: Option<Transaction>)
        ensures
            match r {
                Some(out) => {
                    &&& out@ == tx@
                    &&& scan_inputs(old(self).st(), tx@.inputs) == Some(final(self).st())
                },
                None => {
                    &&& scan_inputs(old(self).st(), tx@.inputs) is None
                    &&& final(self).st() == old(self).st()
                },
            },
    {
        let coins0 = self.coin_set.len();
        let pegs0 = self.peg_in_set.len();
        let contracts0 = self.in_contract_set.len();
        proof {
            assert(tx@.inputs.skip(0) =~= tx@.inputs);
        }
        let mut i: usize = 0;
        let mut rejected = false;
        while i < tx.inputs.len() && !rejected
            invariant
                i <= tx.inputs@.len(),
                self.coin_set@.len() >= coins0,
                self.peg_in_set@.len() >= pegs0,
                self.in_contract_set@.len() >= contracts0,
                self.coin_set@.take(coins0 as int) == old(self).coin_set@,
                self.peg_in_set@.take(pegs0 as int) == old(self).peg_in_set@,
                self.in_contract_set@.take(contracts0 as int) == old(self).in_contract_set@,
                coins0 == old(self).coin_set@.len(),
                pegs0 == old(self).peg_in_set@.len(),
                contracts0 == old(self).in_contract_set@.len(),
                !rejected ==> scan_inputs(old(self).st(), tx@.inputs) == scan_inputs(
                    self.st(),
                    tx@.inputs.skip(i as int),
                ),
                rejected ==> scan_inputs(old(self).st(), tx@.inputs) is None,
            decreases tx.inputs@.len() - i,
        {
            let ghost st_pre = self.st();
            match &tx.inputs[i] {
                Input::Mint(coins) => {
                    if self.coins_seen(coins) {
                        rejected = true;
                    } else {
                        self.coin_set.push(copy_coins(coins));
                        proof {
                            assert(self.st().coins =~= st_pre.coins.push(
                                tx@.inputs[i as int]->Mint_0,
                            ));
                            assert(self.st().pegs =~= st_pre.pegs);
                            assert(self.st().contracts =~= st_pre.contracts);
                            assert(self.coin_set@.take(coins0 as int) =~= old(
                                self,
                            ).coin_set@);
                        }
                    }
                },
                Input::Wallet(proof_bytes) => {
                    if self.peg_in_seen(proof_bytes) {
                        rejected = true;
                    } else {
                        self.peg_in_set.push(crate::contracts::copy_bytes(proof_bytes));
                        proof {
                            assert(self.st().pegs =~= st_pre.pegs.push(
                                tx@.inputs[i as int]->Wallet_0,
                            ));
                            assert(self.st().coins =~= st_pre.coins);
                            assert(self.st().contracts =~= st_pre.contracts);
                            assert(self.peg_in_set@.take(pegs0 as int) =~= old(
                                self,
                            ).peg_in_set@);
                        }
                    }
                },
                Input::LN(id) => {
                    if self.contract_seen(id) {
                        rejected = true;
                    } else {
                        self.in_contract_set.push(crate::contracts::copy_bytes(id));
                        proof {
                            assert(self.st().contracts =~= st_pre.contracts.push(
                                tx@.inputs[i as int]->LN_0,
                            ));
                            assert(self.st().coins =~= st_pre.coins);
                            assert(self.st().pegs =~= st_pre.pegs);
                            assert(self.in_contract_set@.take(contracts0 as int) =~= old(
                                self,
                            ).in_contract_set@);
                        }
                    }
                },
            }
            proof {
                if !rejected {
                    assert(tx@.inputs.skip(i as int)[0] == tx@.inputs[i as int]);
                    assert(tx@.inputs.skip(i as int).drop_first() =~= tx@.inputs.skip(
                        i as int + 1,
                    ));
                } else {
                    assert(tx@.inputs.skip(i as int)[0] == tx@.inputs[i as int]);
                }
            }
            i = i + 1;
        }
        if rejected {
            self.coin_set.truncate(coins0);
            self.peg_in_set.truncate(pegs0);
            self.in_contract_set.truncate(contracts0);
            proof {
                assert(self.coin_set@ =~= old(self).coin_set@);
                assert(self.peg_in_set@ =~= old(self).peg_in_set@);
                assert(self.in_contract_set@ =~= old(self).in_contract_set@);
                assert(self.st() =~~= old(self).st());
            }
            None
        } else {
            proof {
                assert(tx@.inputs.skip(tx.inputs@.len() as int) =~= Seq::<InputV>::empty());
            }
            Some(tx)
        }
    }
}

/// A stream of transactions that the filter can deduplicate whole.
pub trait ConflictFilterable: Sized {
    /// The stream as a sequence of transaction models.
    spec fn stream_view(&self) -> Seq<TransactionV>;

    /// Drops every transaction that duplicates an input of one accepted
    /// earlier in the stream, keeping the first-seen transaction. The
    /// per-epoch dedup state starts empty and is discarded when the
    /// stream ends.
    fn filter_conflicts(self) -> (r: Vec<Transaction>)
        ensures
            txs_view(r@) == filter_spec(
                (FilterStateV {
                    coins: Seq::empty(),
                    pegs: Seq::empty(),
                    contracts: Seq::empty(),
                }),
                self.stream_view(),
            ).0,
    ;
}

impl ConflictFilterable for Vec<Transaction> {
    open spec fn stream_view(&self) -> Seq<TransactionV> {
        txs_view(self@)
    }

    fn filter_conflicts(self) -> (r: Vec<Transaction>) {
        filter_transactions(self)
    }
}

/// Filters an epoch's ordered transaction list, first seen winning.
pub fn filter_transactions(txs: Vec<Transaction>) -> (r: Vec<Transaction>)
    ensures
        txs_view(r@) == filter_spec(
            (FilterStateV { coins: Seq::empty(), pegs: Seq::empty(), contracts: Seq::empty() }),
            txs_view(txs@),
        ).0,
{
    let ghost st0 = FilterStateV {
        coins: Seq::empty(),
        pegs: Seq::empty(),
        contracts: Seq::empty(),
    };
    let ghost all = txs_view(txs@);
    let mut remaining = txs;
    let mut filter = ConflictFilter::new();
    let mut out: Vec<Transaction> = Vec::new();
    let ghost mut kept: Seq<TransactionV> = Seq::empty();
    let ghost mut i: int = 0;
    proof {
        assert(filter.st() =~~= st0);
        assert(all.skip(0) =~= all);
        assert(kept + filter_spec(filter.st(), all.skip(0)).0 =~= filter_spec(st0, all).0);
        assert forall|j: int| 0 <= j < remaining@.len() implies (#[trigger] remaining@[j])@
            == all[j] by {
            assert(all[j] == txs_view(txs@)[j]);
        }
    }
    while remaining.len() > 0
        invariant
            0 <= i <= all.len(),
            remaining@.len() == all.len() - i,
            forall|j: int| 0 <= j < remaining@.len() ==> (#[trigger] remaining@[j])@ == all[i + j],
            kept + filter_spec(filter.st(), all.skip(i)).0 == filter_spec(st0, all).0,
            out@.len() == kept.len(),
            forall|j: int| 0 <= j < out@.len() ==> (#[trigger] out@[j])@ == kept[j],
        decreases remaining@.len(),
    {
        let ghost rem_pre = remaining@;
        let input_tx = remaining.remove(0);
        proof {
            assert(input_tx@ == all[i]);
            assert forall|j: int| 0 <= j < remaining@.len() implies (#[trigger] remaining@[j])@
                == all[i + 1 + j] by {
                assert(remaining@[j] == rem_pre[j + 1]);
            }
            assert(all.skip(i)[0] == all[i]);
            assert(all.skip(i).drop_first() =~= all.skip(i + 1));
        }
        match filter.next(input_tx) {
            Some(tx) => {
                out.push(tx);
                proof {
                    kept = kept.push(all[i]);
                    assert(kept + filter_spec(filter.st(), all.skip(i + 1)).0 =~= filter_spec(
                        st0,
                        all,
                    ).0);
                }
            },
            None => {
                proof {
                    assert(kept + filter_spec(filter.st(), all.skip(i + 1)).0 =~= filter_spec(
                        st0,
                        all,
                    ).0);
                }
            },
        }
        proof {
            i = i + 1;
        }
    }
    proof {
        assert(all.skip(all.len() as int) =~= Seq::<TransactionV>::empty());
        assert(kept + Seq::<TransactionV>::empty() =~= kept);
        assert(txs_view(out@) =~= kept);
    }
    out
}

// ------------------------------------------------------------------
// Replay prevention.
// ------------------------------------------------------------------

/// Whether an input's uniqueness key is already recorded in the state.
pub open spec fn key_seen(st: FilterStateV, input: InputV) -> bool {
    match input {
        InputV::Mint(coins) => st.coins.contains(coins),
        InputV::Wallet(proof_bytes) => st.pegs.contains(proof_bytes),
        InputV::LN(id) => st.contracts.contains(id),
    }
}

/// Whether every key recorded in `a` is still recorded in `b`.
pub open spec fn st_extends(a: FilterStateV, b: FilterStateV) -> bool {
    &&& forall|x: Seq<Seq<u8>>| a.coins.contains(x) ==> b.coins.contains(x)
    &&& forall|x: Seq<u8>| a.pegs.contains(x) ==> b.pegs.contains(x)
    &&& forall|x: Seq<u8>| a.contracts.contains(x) ==> b.contracts.contains(x)
}

/// Accepting a transaction only ever adds keys, and records the key of
/// each of its inputs.
pub proof fn lemma_scan_extends(st: FilterStateV, inputs: Seq<InputV>)
    requires
        scan_inputs(st, inputs) is Some,
    ensures
        st_extends(st, scan_inputs(st, inputs)->0),
        inputs.len() > 0 ==> key_seen(scan_inputs(st, inputs)->0, inputs[0]),
    decreases inputs.len(),
{
    if inputs.len() == 0 {
    } else {
        let st1 = match inputs[0] {
            InputV::Mint(coins) => FilterStateV {
                coins: st.coins.push(coins),
                pegs: st.pegs,
                contracts: st.contracts,
            },
            InputV::Wallet(proof_bytes) => FilterStateV {
                coins: st.coins,
                pegs: st.pegs.push(proof_bytes),
                contracts: st.contracts,
            },
            InputV::LN(id) => FilterStateV {
                coins: st.coins,
                pegs: st.pegs,
                contracts: st.contracts.push(id),
            },
        };
        assert forall|x: Seq<Seq<u8>>| st.coins.contains(x) implies st1.coins.contains(x) by {
            let i = choose|i: int| 0 <= i < st.coins.len() && st.coins[i] == x;
            assert(st1.coins[i] == x);
        }
        assert forall|x: Seq<u8>| st.pegs.contains(x) implies st1.pegs.contains(x) by {
            let i = choose|i: int| 0 <= i < st.pegs.len() && st.pegs[i] == x;
            assert(st1.pegs[i] == x);
        }
        assert forall|x: Seq<u8>| st.contracts.contains(x) implies st1.contracts.contains(
            x,
        ) by {
            let i = choose|i: int| 0 <= i < st.contracts.len() && st.contracts[i] == x;
            assert(st1.contracts[i] == x);
        }
        assert(key_seen(st1, inputs[0])) by {
            match inputs[0] {
                InputV::Mint(coins) => {
                    assert(st1.coins[st.coins.len() as int] == coins);
                },
                InputV::Wallet(proof_bytes) => {
                    assert(st1.pegs[st.pegs.len() as int] == proof_bytes);
                },
                InputV::LN(id) => {
                    assert(st1.contracts[st.contracts.len() as int] == id);
                },
            }
        }
        lemma_scan_extends(st1, inputs.drop_first());
    }
}

/// A transaction whose first input's key is already recorded is
/// rejected.
pub proof fn lemma_seen_rejected(st: FilterStateV, inputs: Seq<InputV>)
    requires
        inputs.len() > 0,
        key_seen(st, inputs[0]),
    ensures
        scan_inputs(st, inputs) is None,
{
}

/// Once a transaction's keys are recorded, the filter never lets the
/// same transaction (with at least one input) through again.
proof fn lemma_seen_never_output(st: FilterStateV, txs: Seq<TransactionV>, tx: TransactionV)
    requires
        tx.inputs.len() > 0,
        key_seen(st, tx.inputs[0]),
    ensures
        forall|m: int|
            0 <= m < filter_spec(st, txs).0.len() ==> filter_spec(st, txs).0[m] != tx,
    decreases txs.len(),
{
    if txs.len() == 0 {
    } else {
        match scan_inputs(st, txs[0].inputs) {
            Some(st2) => {
                let rest = filter_spec(st2, txs.drop_first());
                assert(filter_spec(st, txs).0 == seq![txs[0]] + rest.0);
                lemma_scan_extends(st, txs[0].inputs);
                lemma_seen_never_output(st2, txs.drop_first(), tx);
                assert forall|m: int|
                    0 <= m < filter_spec(st, txs).0.len() implies filter_spec(st, txs).0[m]
                    != tx by {
                    if m == 0 {
                        if txs[0] == tx {
                            lemma_seen_rejected(st, tx.inputs);
                        }
                    } else {
                        assert((seq![txs[0]] + rest.0)[m] == rest.0[m - 1]);
                    }
                }
            },
            None => {
                lemma_seen_never_output(st, txs.drop_first(), tx);
                assert(filter_spec(st, txs).0 == filter_spec(st, txs.drop_first()).0);
            },
        }
    }
}

/// Replaying a transaction is prevented at the epoch boundary: the
/// filter's output never contains the same transaction, with at least
/// one input, at two positions of the stream.
pub proof fn lemma_replay_prevented(st: FilterStateV, txs: Seq<TransactionV>, m1: int, m2: int)
    requires
        0 <= m1 < m2 < filter_spec(st, txs).0.len(),
        filter_spec(st, txs).0[m1].inputs.len() > 0,
    ensures
        filter_spec(st, txs).0[m2] != filter_spec(st, txs).0[m1],
    decreases txs.len(),
{
    match scan_inputs(st, txs[0].inputs) {
        Some(st2) => {
            let rest = filter_spec(st2, txs.drop_first());
            assert(filter_spec(st, txs).0 == seq![txs[0]] + rest.0);
            if m1 == 0 {
                assert((seq![txs[0]] + rest.0)[m2] == rest.0[m2 - 1]);
                lemma_scan_extends(st, txs[0].inputs);
                lemma_seen_never_output(st2, txs.drop_first(), txs[0]);
            } else {
                assert((seq![txs[0]] + rest.0)[m1] == rest.0[m1 - 1]);
                assert((seq![txs[0]] + rest.0)[m2] == rest.0[m2 - 1]);
                lemma_replay_prevented(st2, txs.drop_first(), m1 - 1, m2 - 1);
            }
        },
        None => {
            assert(filter_spec(st, txs).0 == filter_spec(st, txs.drop_first()).0);
            lemma_replay_prevented(st, txs.drop_first(), m1, m2);
        },
    }
}

} // verus!
