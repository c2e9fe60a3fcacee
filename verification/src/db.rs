//! The module's slice of the replicated key/value store, modeled as
//! typed tables: contract accounts, output outcomes, offers, and the two
//! kinds of decryption-share records, plus the read-only round-consensus
//! record a sibling module maintains.
//!
//! Each table is an association list with unique keys; its mathematical
//! model is the first-match lookup `al_find`.

use vstd::prelude::*;

use crate::bytes_eq;
use crate::contracts::ContractId;
use crate::contracts::FundedContract;
use crate::contracts::FundedContractV;
use crate::contracts::ContractOutcome;
use crate::contracts::ContractOutcomeV;
use crate::contracts::IncomingContractOffer;
use crate::contracts::IncomingContractOfferV;
use crate::outpoint_eq;
use crate::Amount;
use crate::OutPoint;
use crate::OutPointV;

verus! {

/// Key prefix of the round-consensus record in the raw key/value store.
/// The record is written by the wallet module and read across modules,
/// so the byte is a shared protocol constant and must never change.
pub const DB_PREFIX_ROUND_CONSENSUS: u8 = 0x32;

// ------------------------------------------------------------------
// Association-list model.
// ------------------------------------------------------------------

/// First-match lookup in an association list.
pub open spec fn al_find<K, V>(s: Seq<(K, V)>, k: K) -> Option<V>
    decreases s.len(),
{
    if s.len() == 0 {
        None
    } else if s[0].0 == k {
        Some(s[0].1)
    } else {
        al_find(s.drop_first(), k)
    }
}

/// All keys of the association list are distinct.
pub open spec fn al_unique<K, V>(s: Seq<(K, V)>) -> bool {
    forall|i: int, j: int| 0 <= i < j < s.len() ==> s[i].0 != s[j].0
}

/// Lookup finds the entry at `i` when no earlier entry has the key.
pub proof fn lemma_al_find_at<K, V>(s: Seq<(K, V)>, k: K, i: int)
    requires
        0 <= i < s.len(),
        s[i].0 == k,
        forall|j: int| 0 <= j < i ==> s[j].0 != k,
    ensures
        al_find(s, k) == Some(s[i].1),
    decreases i,
{
    if i == 0 {
    } else {
        assert(forall|j: int| 0 <= j < i - 1 ==> s.drop_first()[j] == s[j + 1]);
        lemma_al_find_at(s.drop_first(), k, i - 1);
    }
}

/// Lookup misses exactly when no entry has the key.
pub proof fn lemma_al_none_iff<K, V>(s: Seq<(K, V)>, k: K)
    ensures
        al_find(s, k) is None <==> (forall|j: int| 0 <= j < s.len() ==> s[j].0 != k),
    decreases s.len(),
{
    if s.len() == 0 {
    } else {
        lemma_al_none_iff(s.drop_first(), k);
        assert(forall|j: int| 0 <= j < s.drop_first().len() ==> s.drop_first()[j] == s[j + 1]);
        if s[0].0 == k {
        } else {
            if al_find(s, k) is None {
                assert(forall|j: int| 0 <= j < s.len() ==> s[j].0 != k) by {
                    assert(forall|j: int| 1 <= j < s.len() ==> s[j] == s.drop_first()[j - 1]);
                }
            }
        }
    }
}

/// A successful lookup names the first entry carrying the key.
pub proof fn lemma_al_find_first<K, V>(s: Seq<(K, V)>, k: K) -> (i: int)
    requires
        al_find(s, k) is Some,
    ensures
        0 <= i < s.len(),
        s[i].0 == k,
        al_find(s, k) == Some(s[i].1),
        forall|j: int| 0 <= j < i ==> s[j].0 != k,
    decreases s.len(),
{
    if s[0].0 == k {
        0
    } else {
        let rest = lemma_al_find_first(s.drop_first(), k);
        assert forall|j: int| 0 <= j < rest + 1 implies s[j].0 != k by {
            if j > 0 {
                assert(s.drop_first()[j - 1] == s[j]);
            }
        }
        assert(s[rest + 1] == s.drop_first()[rest]);
        rest + 1
    }
}

/// Appending a fresh key binds it and leaves every other key unchanged.
pub proof fn lemma_al_push<K, V>(s: Seq<(K, V)>, k: K, v: V)
    requires
        al_find(s, k) is None,
        al_unique(s),
    ensures
        al_unique(s.push((k, v))),
        al_find(s.push((k, v)), k) == Some(v),
        forall|k2: K| k2 != k ==> al_find(s.push((k, v)), k2) == al_find(s, k2),
{
    let s2 = s.push((k, v));
    lemma_al_none_iff(s, k);
    lemma_al_find_at(s2, k, s.len() as int);
    assert forall|k2: K| k2 != k implies al_find(s2, k2) == al_find(s, k2) by {
        if al_find(s, k2) is Some {
            let i = lemma_al_find_first(s, k2);
            lemma_al_find_at(s2, k2, i);
        } else {
            lemma_al_none_iff(s, k2);
            lemma_al_none_iff(s2, k2);
        }
    }
}

/// Removing the entry that carries a key unbinds it and leaves every
/// other key unchanged.
pub proof fn lemma_al_remove<K, V>(s: Seq<(K, V)>, k: K, i: int)
    requires
        al_unique(s),
        0 <= i < s.len(),
        s[i].0 == k,
    ensures
        al_unique(s.remove(i)),
        al_find(s.remove(i), k) is None,
        forall|k2: K| k2 != k ==> al_find(s.remove(i), k2) == al_find(s, k2),
{
    let s2 = s.remove(i);
    assert(forall|j: int| 0 <= j < s2.len() ==> s2[j] == (if j < i {
        s[j]
    } else {
        s[j + 1]
    }));
    lemma_al_none_iff(s2, k);
    assert forall|k2: K| k2 != k implies al_find(s2, k2) == al_find(s, k2) by {
        if al_find(s, k2) is Some {
            let m = lemma_al_find_first(s, k2);
            if m < i {
                lemma_al_find_at(s2, k2, m);
            } else {
                lemma_al_find_at(s2, k2, m - 1);
            }
        } else {
            lemma_al_none_iff(s, k2);
            lemma_al_none_iff(s2, k2);
        }
    }
}

/// The sum of all contract-account balances in a table.
pub open spec fn contracts_total(s: Seq<(Seq<u8>, ContractAccountV)>) -> int
    decreases s.len(),
{
    if s.len() == 0 {
        0
    } else {
        contracts_total(s.drop_last()) + s.last().1.amount.msat
    }
}

/// Appending a row adds its balance to the total.
pub proof fn lemma_total_push(s: Seq<(Seq<u8>, ContractAccountV)>, x: (Seq<u8>, ContractAccountV))
    ensures
        contracts_total(s.push(x)) == contracts_total(s) + x.1.amount.msat,
{
    assert(s.push(x).drop_last() =~= s);
}

/// Removing a row subtracts its balance from the total.
pub proof fn lemma_total_remove(s: Seq<(Seq<u8>, ContractAccountV)>, i: int)
    requires
        0 <= i < s.len(),
    ensures
        contracts_total(s.remove(i)) == contracts_total(s) - s[i].1.amount.msat,
    decreases s.len(),
{
    if i == s.len() - 1 {
        assert(s.remove(i) =~= s.drop_last());
    } else {
        assert(s.remove(i).drop_last() =~= s.drop_last().remove(i));
        lemma_total_remove(s.drop_last(), i);
        assert(s.remove(i).last() == s.last());
        assert(s.drop_last()[i] == s[i]);
    }
}

// ------------------------------------------------------------------
// Stored values.
// ------------------------------------------------------------------

/// A contract account: the funds currently locked under a contract.
#[derive(Debug)]
pub struct ContractAccount {
    pub amount: Amount,
    pub contract: FundedContract,
}

/// Mathematical model of a contract account.
pub ghost struct ContractAccountV {
    pub amount: Amount,
    pub contract: FundedContractV,
}

impl View for ContractAccount {
    type V = ContractAccountV;

    open spec fn view(&self) -> ContractAccountV {
        ContractAccountV { amount: self.amount, contract: self.contract@ }
    }
}

/// Per-output record of what applying the output produced.
#[derive(Debug)]
pub enum OutputOutcome {
    Contract { id: ContractId, outcome: ContractOutcome },
    Offer { id: Vec<u8> },
}

/// Mathematical model of an output outcome.
pub ghost enum OutputOutcomeV {
    Contract { id: Seq<u8>, outcome: ContractOutcomeV },
    Offer { id: Seq<u8> },
}

impl View for OutputOutcome {
    type V = OutputOutcomeV;

    open spec fn view(&self) -> OutputOutcomeV {
        match self {
            OutputOutcome::Contract { id, outcome } => OutputOutcomeV::Contract {
                id: id@,
                outcome: outcome@,
            },
            OutputOutcome::Offer { id } => OutputOutcomeV::Offer { id: id@ },
        }
    }
}

impl OutputOutcome {
    /// Copies the outcome record.
    pub fn duplicate(&self) -> (r: OutputOutcome)
        ensures
            r@ == self@,
    {
        match self {
            OutputOutcome::Contract { id, outcome } => OutputOutcome::Contract {
                id: crate::contracts::copy_bytes(id),
                outcome: outcome.duplicate(),
            },
            OutputOutcome::Offer { id } => OutputOutcome::Offer {
                id: crate::contracts::copy_bytes(id),
            },
        }
    }
}

/// The record a sibling module maintains about the current on-chain
/// round: block height, fee rate and a randomness beacon. This module
/// only ever reads it.
#[derive(Debug)]
pub struct RoundConsensus {
    pub block_height: u32,
    pub fee_rate: u64,
    pub randomness_beacon: Vec<u8>,
}

/// Mathematical model of the round-consensus record.
pub ghost struct RoundConsensusV {
    pub block_height: u32,
    pub fee_rate: u64,
    pub randomness_beacon: Seq<u8>,
}

impl View for RoundConsensus {
    type V = RoundConsensusV;

    open spec fn view(&self) -> RoundConsensusV {
        RoundConsensusV {
            block_height: self.block_height,
            fee_rate: self.fee_rate,
            randomness_beacon: self.randomness_beacon@,
        }
    }
}

// ------------------------------------------------------------------
// The database.
// ------------------------------------------------------------------

/// The module's tables inside the replicated key/value store.
#[derive(Debug)]
pub struct Database {
    pub contracts: Vec<(ContractId, ContractAccount)>,
    pub contract_updates: Vec<(OutPoint, OutputOutcome)>,
    pub offers: Vec<(Vec<u8>, IncomingContractOffer)>,
    pub propose_shares: Vec<(ContractId, Vec<u8>)>,
    pub agreed_shares: Vec<((ContractId, u64), Vec<u8>)>,
    pub round_consensus: Option<RoundConsensus>,
}

impl Database {
    /// Contract-account table, keyed by contract id.
    pub open spec fn contracts_s(&self) -> Seq<(Seq<u8>, ContractAccountV)> {
        self.contracts@.map_values(|p: (ContractId, ContractAccount)| (p.0@, p.1@))
    }

    /// Output-outcome table, keyed by out-point.
    pub open spec fn updates_s(&self) -> Seq<(OutPointV, OutputOutcomeV)> {
        self.contract_updates@.map_values(|p: (OutPoint, OutputOutcome)| (p.0@, p.1@))
    }

    /// Offer table, keyed by payment hash.
    pub open spec fn offers_s(&self) -> Seq<(Seq<u8>, IncomingContractOfferV)> {
        self.offers@.map_values(|p: (Vec<u8>, IncomingContractOffer)| (p.0@, p.1@))
    }

    /// This peer's proposed decryption shares, keyed by contract id.
    pub open spec fn propose_s(&self) -> Seq<(Seq<u8>, Seq<u8>)> {
        self.propose_shares@.map_values(|p: (ContractId, Vec<u8>)| (p.0@, p.1@))
    }

    /// Agreed decryption shares, keyed by contract id and peer.
    pub open spec fn agreed_s(&self) -> Seq<((Seq<u8>, u64), Seq<u8>)> {
        self.agreed_shares@.map_values(|p: ((ContractId, u64), Vec<u8>)| ((p.0.0@, p.0.1), p.1@))
    }

    /// Every offer row is keyed by the hash of the offer it stores.
    pub open spec fn offers_keyed_by_hash(&self) -> bool {
        forall|j: int|
            0 <= j < self.offers_s().len() ==> (#[trigger] self.offers_s()[j]).0
                == self.offers_s()[j].1.hash
    }

    /// Every table's keys are distinct, and offers sit under their own
    /// hash.
    pub open spec fn inv(&self) -> bool {
        &&& al_unique(self.contracts_s())
        &&& al_unique(self.updates_s())
        &&& al_unique(self.offers_s())
        &&& al_unique(self.propose_s())
        &&& al_unique(self.agreed_s())
        &&& self.offers_keyed_by_hash()
    }

    /// An empty database.
    pub fn new() -> (r: Database)
        ensures
            r.inv(),
            r.contracts_s() =~= Seq::<(Seq<u8>, ContractAccountV)>::empty(),
            r.updates_s() =~= Seq::<(OutPointV, OutputOutcomeV)>::empty(),
            r.offers_s() =~= Seq::<(Seq<u8>, IncomingContractOfferV)>::empty(),
            r.propose_s() =~= Seq::<(Seq<u8>, Seq<u8>)>::empty(),
            r.agreed_s() =~= Seq::<((Seq<u8>, u64), Seq<u8>)>::empty(),
            r.round_consensus is None,
    {
        Database {
            contracts: Vec::new(),
            contract_updates: Vec::new(),
            offers: Vec::new(),
            propose_shares: Vec::new(),
            agreed_shares: Vec::new(),
            round_consensus: None,
        }
    }

    // --------------------------------------------------------------
    // Contract accounts.
    // --------------------------------------------------------------

    /// Looks up the contract account stored under `id`.
    pub fn get_contract<'a>(&'a self, id: &Vec<u8>) -> (r: Option<&'a ContractAccount>)
        ensures
            match r {
                Some(acc) => al_find(self.contracts_s(), id@) == Some(acc@),
                None => al_find(self.contracts_s(), id@) is None,
            },
    {
        let mut i: usize = 0;
        while i < self.contracts.len()
            invariant
                i <= self.contracts@.len(),
                forall|j: int| 0 <= j < i ==> self.contracts_s()[j].0 != id@,
            decreases self.contracts@.len() - i,
        {
            if bytes_eq(&self.contracts[i].0, id) {
                proof {
                    lemma_al_find_at(self.contracts_s(), id@, i as int);
                }
                return Some(&self.contracts[i].1);
            }
            i = i + 1;
        }
        proof {
            lemma_al_none_iff(self.contracts_s(), id@);
        }
        None
    }

    /// Removes and returns the contract-account row stored under `id`.
    pub fn take_contract(&mut self, id: &Vec<u8>) -> (r: Option<(ContractId, ContractAccount)>)
        requires
            old(self).inv(),
        ensures
            final(self).inv(),
            final(self).updates_s() == old(self).updates_s(),
            final(self).offers_s() == old(self).offers_s(),
            final(self).propose_s() == old(self).propose_s(),
            final(self).agreed_s() == old(self).agreed_s(),
            final(self).round_consensus == old(self).round_consensus,
            match r {
                Some(row) => {
                    &&& row.0@ == id@
                    &&& al_find(old(self).contracts_s(), id@) == Some(row.1@)
                    &&& al_find(final(self).contracts_s(), id@) is None
                    &&& forall|k: Seq<u8>| k != id@ ==> al_find(final(self).contracts_s(), k)
                        == al_find(old(self).contracts_s(), k)
                    &&& contracts_total(final(self).contracts_s()) == contracts_total(
                        old(self).contracts_s(),
                    ) - row.1@.amount.msat
                },
                None => {
                    &&& al_find(old(self).contracts_s(), id@) is None
                    &&& *final(self) == *old(self)
                },
            },
    {
        let mut i: usize = 0;
        while i < self.contracts.len()
            invariant
                *self == *old(self),
                old(self).inv(),
                i <= self.contracts@.len(),
                forall|j: int| 0 <= j < i ==> self.contracts_s()[j].0 != id@,
            decreases self.contracts@.len() - i,
        {
            if bytes_eq(&self.contracts[i].0, id) {
                let row = self.contracts.remove(i);
                proof {
                    lemma_al_find_at(old(self).contracts_s(), id@, i as int);
                    lemma_al_remove(old(self).contracts_s(), id@, i as int);
                    lemma_total_remove(old(self).contracts_s(), i as int);
                    assert(self.contracts_s() =~~= old(self).contracts_s().remove(i as int));
                }
                return Some(row);
            }
            i = i + 1;
        }
        proof {
            lemma_al_none_iff(self.contracts_s(), id@);
        }
        None
    }

    /// Stores a contract-account row under a key not yet present.
    pub fn put_contract(&mut self, id: ContractId, acc: ContractAccount)
        requires
            old(self).inv(),
            al_find(old(self).contracts_s(), id@) is None,
        ensures
            final(self).inv(),
            final(self).updates_s() == old(self).updates_s(),
            final(self).offers_s() == old(self).offers_s(),
            final(self).propose_s() == old(self).propose_s(),
            final(self).agreed_s() == old(self).agreed_s(),
            final(self).round_consensus == old(self).round_consensus,
            al_find(final(self).contracts_s(), id@) == Some(acc@),
            forall|k: Seq<u8>| k != id@ ==> al_find(final(self).contracts_s(), k) == al_find(
                old(self).contracts_s(),
                k,
            ),
            contracts_total(final(self).contracts_s()) == contracts_total(
                old(self).contracts_s(),
            ) + acc@.amount.msat,
    {
        let ghost gid = id@;
        let ghost gacc = acc@;
        proof {
            lemma_al_push(self.contracts_s(), gid, gacc);
        }
        self.contracts.push((id, acc));
        proof {
            lemma_total_push(old(self).contracts_s(), (gid, gacc));
            assert(self.contracts_s() =~~= old(self).contracts_s().push((gid, gacc)));
        }
    }

    // --------------------------------------------------------------
    // Output outcomes.
    // --------------------------------------------------------------

    /// Looks up the outcome recorded for `out_point`.
    pub fn get_update<'a>(&'a self, out_point: &OutPoint) -> (r: Option<&'a OutputOutcome>)
        ensures
            match r {
                Some(o) => al_find(self.updates_s(), out_point@) == Some(o@),
                None => al_find(self.updates_s(), out_point@) is None,
            },
    {
        let mut i: usize = 0;
        while i < self.contract_updates.len()
            invariant
                i <= self.contract_updates@.len(),
                forall|j: int| 0 <= j < i ==> self.updates_s()[j].0 != out_point@,
            decreases self.contract_updates@.len() - i,
        {
            if outpoint_eq(&self.contract_updates[i].0, out_point) {
                proof {
                    lemma_al_find_at(self.updates_s(), out_point@, i as int);
                }
                return Some(&self.contract_updates[i].1);
            }
            i = i + 1;
        }
        proof {
            lemma_al_none_iff(self.updates_s(), out_point@);
        }
        None
    }

    /// Removes and returns the outcome row recorded for `out_point`.
    pub fn take_update(&mut self, out_point: &OutPoint) -> (r: Option<(OutPoint, OutputOutcome)>)
        requires
            old(self).inv(),
        ensures
            final(self).inv(),
            final(self).contracts_s() == old(self).contracts_s(),
            final(self).offers_s() == old(self).offers_s(),
            final(self).propose_s() == old(self).propose_s(),
            final(self).agreed_s() == old(self).agreed_s(),
            final(self).round_consensus == old(self).round_consensus,
            match r {
                Some(row) => {
                    &&& row.0@ == out_point@
                    &&& al_find(old(self).updates_s(), out_point@) == Some(row.1@)
                    &&& al_find(final(self).updates_s(), out_point@) is None
                    &&& forall|k: OutPointV| k != out_point@ ==> al_find(
                        final(self).updates_s(),
                        k,
                    ) == al_find(old(self).updates_s(), k)
                },
                None => {
                    &&& al_find(old(self).updates_s(), out_point@) is None
                    &&& *final(self) == *old(self)
                },
            },
    {
        let mut i: usize = 0;
        while i < self.contract_updates.len()
            invariant
                *self == *old(self),
                old(self).inv(),
                i <= self.contract_updates@.len(),
                forall|j: int| 0 <= j < i ==> self.updates_s()[j].0 != out_point@,
            decreases self.contract_updates@.len() - i,
        {
            if outpoint_eq(&self.contract_updates[i].0, out_point) {
                let row = self.contract_updates.remove(i);
                proof {
                    lemma_al_find_at(old(self).updates_s(), out_point@, i as int);
                    lemma_al_remove(old(self).updates_s(), out_point@, i as int);
                    assert(self.updates_s() =~~= old(self).updates_s().remove(i as int));
                }
                return Some(row);
            }
            i = i + 1;
        }
        proof {
            lemma_al_none_iff(self.updates_s(), out_point@);
        }
        None
    }

    /// Records an outcome under an out-point not yet present.
    pub fn put_update(&mut self, out_point: OutPoint, outcome: OutputOutcome)
        requires
            old(self).inv(),
            al_find(old(self).updates_s(), out_point@) is None,
        ensures
            final(self).inv(),
            final(self).contracts_s() == old(self).contracts_s(),
            final(self).offers_s() == old(self).offers_s(),
            final(self).propose_s() == old(self).propose_s(),
            final(self).agreed_s() == old(self).agreed_s(),
            final(self).round_consensus == old(self).round_consensus,
            al_find(final(self).updates_s(), out_point@) == Some(outcome@),
            forall|k: OutPointV| k != out_point@ ==> al_find(final(self).updates_s(), k)
                == al_find(old(self).updates_s(), k),
    {
        let ghost gp = out_point@;
        let ghost go = outcome@;
        proof {
            lemma_al_push(self.updates_s(), gp, go);
        }
        self.contract_updates.push((out_point, outcome));
        proof {
            assert(self.updates_s() =~~= old(self).updates_s().push((gp, go)));
        }
    }

    // --------------------------------------------------------------
    // Offers.
    // --------------------------------------------------------------

    /// Looks up the offer registered under a payment hash.
    pub fn get_offer<'a>(&'a self, hash: &Vec<u8>) -> (r: Option<&'a IncomingContractOffer>)
        ensures
            match r {
                Some(o) => al_find(self.offers_s(), hash@) == Some(o@),
                None => al_find(self.offers_s(), hash@) is None,
            },
    {
        let mut i: usize = 0;
        while i < self.offers.len()
            invariant
                i <= self.offers@.len(),
                forall|j: int| 0 <= j < i ==> self.offers_s()[j].0 != hash@,
            decreases self.offers@.len() - i,
        {
            if bytes_eq(&self.offers[i].0, hash) {
                proof {
                    lemma_al_find_at(self.offers_s(), hash@, i as int);
                }
                return Some(&self.offers[i].1);
            }
            i = i + 1;
        }
        proof {
            lemma_al_none_iff(self.offers_s(), hash@);
        }
        None
    }

    /// Deletes the offer registered under a payment hash, if any.
    pub fn remove_offer(&mut self, hash: &Vec<u8>) -> (r: bool)
        requires
            old(self).inv(),
        ensures
            final(self).inv(),
            final(self).contracts_s() == old(self).contracts_s(),
            final(self).updates_s() == old(self).updates_s(),
            final(self).propose_s() == old(self).propose_s(),
            final(self).agreed_s() == old(self).agreed_s(),
            final(self).round_consensus == old(self).round_consensus,
            r == (al_find(old(self).offers_s(), hash@) is Some),
            al_find(final(self).offers_s(), hash@) is None,
            forall|k: Seq<u8>| k != hash@ ==> al_find(final(self).offers_s(), k) == al_find(
                old(self).offers_s(),
                k,
            ),
    {
        let mut i: usize = 0;
        while i < self.offers.len()
            invariant
                *self == *old(self),
                old(self).inv(),
                i <= self.offers@.len(),
                forall|j: int| 0 <= j < i ==> self.offers_s()[j].0 != hash@,
            decreases self.offers@.len() - i,
        {
            if bytes_eq(&self.offers[i].0, hash) {
                let _ = self.offers.remove(i);
                proof {
                    lemma_al_find_at(old(self).offers_s(), hash@, i as int);
                    lemma_al_remove(old(self).offers_s(), hash@, i as int);
                    assert(self.offers_s() =~~= old(self).offers_s().remove(i as int));
                }
                return true;
            }
            i = i + 1;
        }
        proof {
            lemma_al_none_iff(self.offers_s(), hash@);
        }
        false
    }

    /// Registers an offer under a hash not yet present. Insertion
    /// semantics: the caller decides first whether the key is taken.
    pub fn put_offer(&mut self, hash: Vec<u8>, offer: IncomingContractOffer)
        requires
            old(self).inv(),
            al_find(old(self).offers_s(), hash@) is None,
            hash@ == offer@.hash,
        ensures
            final(self).inv(),
            final(self).contracts_s() == old(self).contracts_s(),
            final(self).updates_s() == old(self).updates_s(),
            final(self).propose_s() == old(self).propose_s(),
            final(self).agreed_s() == old(self).agreed_s(),
            final(self).round_consensus == old(self).round_consensus,
            al_find(final(self).offers_s(), hash@) == Some(offer@),
            forall|k: Seq<u8>| k != hash@ ==> al_find(final(self).offers_s(), k) == al_find(
                old(self).offers_s(),
                k,
            ),
    {
        let ghost gh = hash@;
        let ghost go = offer@;
        proof {
            lemma_al_push(self.offers_s(), gh, go);
        }
        self.offers.push((hash, offer));
        proof {
            assert(self.offers_s() =~~= old(self).offers_s().push((gh, go)));
        }
    }

    // --------------------------------------------------------------
    // Proposed decryption shares.
    // --------------------------------------------------------------

    /// Removes this peer's proposed share for `id`, if any.
    pub fn remove_propose(&mut self, id: &Vec<u8>) -> (r: bool)
        requires
            old(self).inv(),
        ensures
            final(self).inv(),
            final(self).contracts_s() == old(self).contracts_s(),
            final(self).updates_s() == old(self).updates_s(),
            final(self).offers_s() == old(self).offers_s(),
            final(self).agreed_s() == old(self).agreed_s(),
            final(self).round_consensus == old(self).round_consensus,
            r == (al_find(old(self).propose_s(), id@) is Some),
            al_find(final(self).propose_s(), id@) is None,
            forall|k: Seq<u8>| k != id@ ==> al_find(final(self).propose_s(), k) == al_find(
                old(self).propose_s(),
                k,
            ),
    {
        let mut i: usize = 0;
        while i < self.propose_shares.len()
            invariant
                *self == *old(self),
                old(self).inv(),
                i <= self.propose_shares@.len(),
                forall|j: int| 0 <= j < i ==> self.propose_s()[j].0 != id@,
            decreases self.propose_shares@.len() - i,
        {
            if bytes_eq(&self.propose_shares[i].0, id) {
                let _ = self.propose_shares.remove(i);
                proof {
                    lemma_al_find_at(old(self).propose_s(), id@, i as int);
                    lemma_al_remove(old(self).propose_s(), id@, i as int);
                    assert(self.propose_s() =~~= old(self).propose_s().remove(i as int));
                }
                return true;
            }
            i = i + 1;
        }
        proof {
            lemma_al_none_iff(self.propose_s(), id@);
        }
        false
    }

    /// Records this peer's share for `id`, replacing an earlier one.
    pub fn upsert_propose(&mut self, id: ContractId, share: Vec<u8>)
        requires
            old(self).inv(),
        ensures
            final(self).inv(),
            final(self).contracts_s() == old(self).contracts_s(),
            final(self).updates_s() == old(self).updates_s(),
            final(self).offers_s() == old(self).offers_s(),
            final(self).agreed_s() == old(self).agreed_s(),
            final(self).round_consensus == old(self).round_consensus,
            al_find(final(self).propose_s(), id@) == Some(share@),
            forall|k: Seq<u8>| k != id@ ==> al_find(final(self).propose_s(), k) == al_find(
                old(self).propose_s(),
                k,
            ),
    {
        let ghost gid = id@;
        let ghost gshare = share@;
        let _ = self.remove_propose(&id);
        let ghost mid = self.propose_s();
        proof {
            lemma_al_push(mid, gid, gshare);
        }
        self.propose_shares.push((id, share));
        proof {
            assert(self.propose_s() =~~= mid.push((gid, gshare)));
        }
    }

    // --------------------------------------------------------------
    // Agreed decryption shares.
    // --------------------------------------------------------------

    /// Whether a share from `peer` for contract `id` is already part of
    /// the replicated state.
    pub fn agreed_contains(&self, id: &Vec<u8>, peer: u64) -> (r: bool)
        ensures
            r == (al_find(self.agreed_s(), (id@, peer)) is Some),
    {
        let mut i: usize = 0;
        while i < self.agreed_shares.len()
            invariant
                i <= self.agreed_shares@.len(),
                forall|j: int| 0 <= j < i ==> self.agreed_s()[j].0 != (id@, peer),
            decreases self.agreed_shares@.len() - i,
        {
            if bytes_eq(&self.agreed_shares[i].0.0, id) && self.agreed_shares[i].0.1 == peer {
                proof {
                    lemma_al_find_at(self.agreed_s(), (id@, peer), i as int);
                }
                return true;
            }
            i = i + 1;
        }
        proof {
            lemma_al_none_iff(self.agreed_s(), (id@, peer));
        }
        false
    }

    /// Whether a share from `peer` for contract `id` is among the first
    /// `n` rows of the agreed table.
    pub fn agreed_contains_in(&self, id: &Vec<u8>, peer: u64, n: usize) -> (r: bool)
        requires
            n <= self.agreed_shares@.len(),
        ensures
            r == (al_find(self.agreed_s().take(n as int), (id@, peer)) is Some),
    {
        let mut i: usize = 0;
        while i < n
            invariant
                n <= self.agreed_shares@.len(),
                i <= n,
                forall|j: int|
                    0 <= j < i ==> self.agreed_s().take(n as int)[j].0 != (id@, peer),
            decreases n - i,
        {
            if bytes_eq(&self.agreed_shares[i].0.0, id) && self.agreed_shares[i].0.1 == peer {
                proof {
                    assert(self.agreed_s().take(n as int)[i as int] == self.agreed_s()[i as int]);
                    lemma_al_find_at(self.agreed_s().take(n as int), (id@, peer), i as int);
                }
                return true;
            }
            proof {
                assert(self.agreed_s().take(n as int)[i as int] == self.agreed_s()[i as int]);
            }
            i = i + 1;
        }
        proof {
            lemma_al_none_iff(self.agreed_s().take(n as int), (id@, peer));
        }
        false
    }

    /// Discards every agreed row past the first `n`, restoring the table
    /// to an earlier point of the same epoch.
    pub fn truncate_agreed(&mut self, n: usize)
        requires
            old(self).inv(),
            n <= old(self).agreed_shares@.len(),
        ensures
            final(self).inv(),
            final(self).contracts_s() == old(self).contracts_s(),
            final(self).updates_s() == old(self).updates_s(),
            final(self).offers_s() == old(self).offers_s(),
            final(self).propose_s() == old(self).propose_s(),
            final(self).round_consensus == old(self).round_consensus,
            final(self).agreed_s() == old(self).agreed_s().take(n as int),
    {
        self.agreed_shares.truncate(n);
        proof {
            assert(self.agreed_s() =~= old(self).agreed_s().take(n as int));
            assert forall|i: int, j: int|
                0 <= i < j < self.agreed_s().len() implies self.agreed_s()[i].0
                != self.agreed_s()[j].0 by {
                assert(self.agreed_s()[i] == old(self).agreed_s()[i]);
                assert(self.agreed_s()[j] == old(self).agreed_s()[j]);
            }
        }
    }

    /// Accepts a share from `peer` for contract `id` into the replicated
    /// state. The key must not be taken yet.
    pub fn push_agreed(&mut self, id: ContractId, peer: u64, share: Vec<u8>)
        requires
            old(self).inv(),
            al_find(old(self).agreed_s(), (id@, peer)) is None,
        ensures
            final(self).inv(),
            final(self).contracts_s() == old(self).contracts_s(),
            final(self).updates_s() == old(self).updates_s(),
            final(self).offers_s() == old(self).offers_s(),
            final(self).propose_s() == old(self).propose_s(),
            final(self).round_consensus == old(self).round_consensus,
            final(self).agreed_s() == old(self).agreed_s().push(((id@, peer), share@)),
            al_find(final(self).agreed_s(), (id@, peer)) == Some(share@),
            forall|k: (Seq<u8>, u64)| k != (id@, peer) ==> al_find(final(self).agreed_s(), k)
                == al_find(old(self).agreed_s(), k),
    {
        let ghost gk = (id@, peer);
        let ghost gshare = share@;
        proof {
            lemma_al_push(self.agreed_s(), gk, gshare);
        }
        self.agreed_shares.push(((id, peer), share));
        proof {
            assert(self.agreed_s() =~~= old(self).agreed_s().push((gk, gshare)));
        }
    }
}

} // verus!
