//! The Lightning module itself: validation and application of contract
//! inputs and outputs, and the three consensus hooks of the threshold
//! decryption protocol.

use vstd::prelude::*;

use crate::bytes_eq;
use crate::contracts::contract_id_of;
use crate::contracts::copy_bytes;
use crate::contracts::to_funded_spec;
use crate::contracts::to_outcome_spec;
use crate::contracts::Contract;
use crate::contracts::ContractId;
use crate::contracts::ContractOutcomeV;
use crate::contracts::ContractV;
use crate::contracts::DecryptedPreimage;
use crate::contracts::FundedContract;
use crate::contracts::FundedIncomingContract;
use crate::contracts::IncomingContract;
use crate::contracts::IncomingContractV;
use crate::contracts::Preimage;
use crate::contracts::ContractOutcome;
use crate::contracts::DecryptedPreimageV;
use crate::contracts::FundedContractV;
use crate::contracts::FundedIncomingContractV;
use crate::contracts::IncomingContractOffer;
use crate::contracts::IncomingContractOfferV;
use crate::crypto::ciphertext_valid;
use crate::crypto::combine_of;
use crate::crypto::decryption_share_of;
use crate::crypto::schnorr_key_valid;
use crate::crypto::sha256;
use crate::crypto::sha256_of;
use crate::crypto::share_valid;
use crate::crypto::verify_ciphertext;
use crate::db::al_find;
use crate::db::lemma_al_find_at;
use crate::db::lemma_al_find_first;
use crate::db::ContractAccount;
use crate::db::ContractAccountV;
use crate::db::Database;
use crate::db::OutputOutcome;
use crate::db::OutputOutcomeV;
use crate::Amount;
use crate::OutPoint;
use crate::OutPointV;

verus! {

/// The per-peer configuration of the module: how many shares decryption
/// takes, the federation's threshold public-key set, and this peer's own
/// secret-key share, both in serialized form.
#[derive(Debug)]
pub struct LightningModuleConfig {
    pub threshold: usize,
    pub threshold_pub_keys: Vec<u8>,
    pub threshold_sec_key: Vec<u8>,
}

/// The Lightning module: its configuration and its slice of the
/// replicated state.
#[derive(Debug)]
pub struct LightningModule {
    pub cfg: LightningModuleConfig,
    pub db: Database,
}

/// A transaction input spending from a contract account.
#[derive(Debug)]
pub struct ContractInput {
    pub contract_id: ContractId,
    pub amount: Amount,
    /// Of the three contract kinds only an outgoing one needs witness
    /// data beyond the transaction-level signature: the payment preimage.
    pub witness: Option<Vec<u8>>,
}

/// Mathematical model of a contract input.
pub ghost struct ContractInputV {
    pub contract_id: Seq<u8>,
    pub amount: Amount,
    pub witness: Option<Seq<u8>>,
}

impl View for ContractInput {
    type V = ContractInputV;

    open spec fn view(&self) -> ContractInputV {
        ContractInputV {
            contract_id: self.contract_id@,
            amount: self.amount,
            witness: match self.witness {
                Some(ref w) => Some(w@),
                None => None,
            },
        }
    }
}

/// A transaction output: either funds locked into a contract, or the
/// registration of an offer. Offers are 0-amount outputs so that a user
/// without tokens can still advertise one.
#[derive(Debug)]
pub enum ContractOrOfferOutput {
    Contract(ContractOutput),
    Offer(IncomingContractOffer),
}

/// Funds locked into a contract by a transaction output.
#[derive(Debug)]
pub struct ContractOutput {
    pub amount: Amount,
    pub contract: Contract,
}

/// Mathematical model of a contract output.
pub ghost struct ContractOutputV {
    pub amount: Amount,
    pub contract: ContractV,
}

/// Mathematical model of a contract-or-offer output.
pub ghost enum ContractOrOfferOutputV {
    Contract(ContractOutputV),
    Offer(IncomingContractOfferV),
}

impl View for ContractOutput {
    type V = ContractOutputV;

    open spec fn view(&self) -> ContractOutputV {
        ContractOutputV { amount: self.amount, contract: self.contract@ }
    }
}

impl View for ContractOrOfferOutput {
    type V = ContractOrOfferOutputV;

    open spec fn view(&self) -> ContractOrOfferOutputV {
        match self {
            ContractOrOfferOutput::Contract(c) => ContractOrOfferOutputV::Contract(c@),
            ContractOrOfferOutput::Offer(o) => ContractOrOfferOutputV::Offer(o@),
        }
    }
}

/// A decryption share contributed to consensus for one contract.
#[derive(Debug, Clone)]
pub struct DecryptionShareCI {
    pub contract_id: ContractId,
    pub share: Vec<u8>,
}

/// Mathematical model of a consensus decryption share.
pub ghost struct DecryptionShareCIV {
    pub contract_id: Seq<u8>,
    pub share: Seq<u8>,
}

impl View for DecryptionShareCI {
    type V = DecryptionShareCIV;

    open spec fn view(&self) -> DecryptionShareCIV {
        DecryptionShareCIV { contract_id: self.contract_id@, share: self.share@ }
    }
}

/// Metadata handed back to the transaction engine for a validated input:
/// the spent amount and the keys whose signatures the transaction must
/// carry.
#[derive(Debug, PartialEq, Eq)]
pub struct InputMeta {
    pub amount: Amount,
    pub keys: Vec<Vec<u8>>,
}

/// Mathematical model of input metadata.
pub ghost struct InputMetaV {
    pub amount: Amount,
    pub keys: Seq<Seq<u8>>,
}

impl View for InputMeta {
    type V = InputMetaV;

    open spec fn view(&self) -> InputMetaV {
        InputMetaV { amount: self.amount, keys: self.keys.deep_view() }
    }
}

/// The failures validation surfaces to the transaction engine, plus the
/// two fatal faults the appliers propagate instead of masking: a
/// duplicate offer registration and a failed threshold combine.
#[derive(Debug, PartialEq, Eq)]
pub enum LightningModuleError {
    UnknownContract(ContractId),
    InsufficientFunds(Amount, Amount),
    MissingPreimage,
    InvalidPreimage,
    ContractNotReady,
    ZeroOutput,
    InvalidEncryptedPreimage,
    InsufficientIncomingFunding(Amount, Amount),
    NoOffer(Vec<u8>),
    DuplicateOffer(Vec<u8>),
    DuplicateDecryptionShare(ContractId, u64),
    DecryptionFailed(ContractId),
}

/// Mathematical model of the error enum.
pub ghost enum LightningModuleErrorV {
    UnknownContract(Seq<u8>),
    InsufficientFunds(Amount, Amount),
    MissingPreimage,
    InvalidPreimage,
    ContractNotReady,
    ZeroOutput,
    InvalidEncryptedPreimage,
    InsufficientIncomingFunding(Amount, Amount),
    NoOffer(Seq<u8>),
    DuplicateOffer(Seq<u8>),
    DuplicateDecryptionShare(Seq<u8>, u64),
    DecryptionFailed(Seq<u8>),
}

impl View for LightningModuleError {
    type V = LightningModuleErrorV;

    open spec fn view(&self) -> LightningModuleErrorV {
        match self {
            LightningModuleError::UnknownContract(id) => LightningModuleErrorV::UnknownContract(
                id@,
            ),
            LightningModuleError::InsufficientFunds(have, want) => {
                LightningModuleErrorV::InsufficientFunds(*have, *want)
            },
            LightningModuleError::MissingPreimage => LightningModuleErrorV::MissingPreimage,
            LightningModuleError::InvalidPreimage => LightningModuleErrorV::InvalidPreimage,
            LightningModuleError::ContractNotReady => LightningModuleErrorV::ContractNotReady,
            LightningModuleError::ZeroOutput => LightningModuleErrorV::ZeroOutput,
            LightningModuleError::InvalidEncryptedPreimage => {
                LightningModuleErrorV::InvalidEncryptedPreimage
            },
            LightningModuleError::InsufficientIncomingFunding(req, got) => {
                LightningModuleErrorV::InsufficientIncomingFunding(*req, *got)
            },
            LightningModuleError::NoOffer(h) => LightningModuleErrorV::NoOffer(h@),
            LightningModuleError::DuplicateOffer(h) => LightningModuleErrorV::DuplicateOffer(h@),
            LightningModuleError::DuplicateDecryptionShare(id, peer) => {
                LightningModuleErrorV::DuplicateDecryptionShare(id@, *peer)
            },
            LightningModuleError::DecryptionFailed(id) => LightningModuleErrorV::DecryptionFailed(
                id@,
            ),
        }
    }
}

/// The view of a result whose both sides have views.
pub open spec fn res_view<T: View, E: View>(r: Result<T, E>) -> Result<T::V, E::V> {
    match r {
        Ok(t) => Ok(t@),
        Err(e) => Err(e@),
    }
}

// ------------------------------------------------------------------
// Module invariant.
// ------------------------------------------------------------------

/// Whether the contract stored under `k` is an incoming contract.
pub open spec fn is_incoming_at(s: Seq<(Seq<u8>, ContractAccountV)>, k: Seq<u8>) -> bool {
    match al_find(s, k) {
        Some(acc) => acc.contract is Incoming,
        None => false,
    }
}

/// A lawful life cycle of one account between two states: the contract
/// itself never changes kind, and a decrypted preimage, once it has left
/// `Pending`, never changes again.
pub open spec fn preimage_transition_ok(a: ContractAccountV, b: ContractAccountV) -> bool {
    match (a.contract, b.contract) {
        (FundedContractV::Incoming(ia), FundedContractV::Incoming(ib)) => {
            ia.contract.decrypted_preimage is Pending || ib.contract.decrypted_preimage
                == ia.contract.decrypted_preimage
        },
        _ => true,
    }
}

/// Preimage states only ever move away from `Pending`, at every key.
pub open spec fn preimage_monotone(
    pre: Seq<(Seq<u8>, ContractAccountV)>,
    post: Seq<(Seq<u8>, ContractAccountV)>,
) -> bool {
    forall|k: Seq<u8>|
        (#[trigger] al_find(pre, k)) is Some && (#[trigger] al_find(post, k)) is Some
            ==> preimage_transition_ok(al_find(pre, k)->0, al_find(post, k)->0)
}

impl LightningModule {
    /// Every agreed decryption share belongs to an incoming contract
    /// that exists in the replicated state.
    pub open spec fn agreed_supported(&self) -> bool {
        forall|j: int|
            0 <= j < self.db.agreed_s().len() ==> is_incoming_at(
                self.db.contracts_s(),
                (#[trigger] self.db.agreed_s()[j]).0.0,
            )
    }

    /// The outcome row of every incoming contract mirrors the account's
    /// decrypted preimage, in lockstep.
    pub open spec fn outcomes_coherent(&self) -> bool {
        forall|k: Seq<u8>|
            (#[trigger] al_find(self.db.contracts_s(), k)) is Some ==> match al_find(
                self.db.contracts_s(),
                k,
            )->0.contract {
                FundedContractV::Incoming(f) => al_find(self.db.updates_s(), f.out_point)
                    == Some(
                    OutputOutcomeV::Contract {
                        id: k,
                        outcome: ContractOutcomeV::Incoming(f.contract.decrypted_preimage),
                    },
                ),
                _ => true,
            }
    }

    /// The module's internal invariant.
    pub open spec fn inv(&self) -> bool {
        &&& self.db.inv()
        &&& self.cfg.threshold >= 1
        &&& self.agreed_supported()
        &&& self.outcomes_coherent()
    }

    /// Creates the module over an empty slice of the replicated state.
    pub fn new(cfg: LightningModuleConfig) -> (r: LightningModule)
        requires
            cfg.threshold >= 1,
        ensures
            r.inv(),
            r.cfg == cfg,
            r.db.contracts_s() =~= Seq::<(Seq<u8>, ContractAccountV)>::empty(),
            r.db.updates_s() =~= Seq::<(OutPointV, OutputOutcomeV)>::empty(),
            r.db.offers_s() =~= Seq::<(Seq<u8>, IncomingContractOfferV)>::empty(),
            r.db.propose_s() =~= Seq::<(Seq<u8>, Seq<u8>)>::empty(),
            r.db.agreed_s() =~= Seq::<((Seq<u8>, u64), Seq<u8>)>::empty(),
    {
        let db = Database::new();
        LightningModule { cfg, db }
    }

    /// The block height consensus has reached, or 0 before the first
    /// round-consensus record exists.
    pub open spec fn block_height_s(&self) -> u32 {
        match self.db.round_consensus {
            Some(rc) => rc.block_height,
            None => 0,
        }
    }

    /// Reads the current block height from the round-consensus record.
    pub fn block_height(&self) -> (r: u32)
        ensures
            r == self.block_height_s(),
    {
        match &self.db.round_consensus {
            Some(rc) => rc.block_height,
            None => 0,
        }
    }

    /// The outcome recorded for an output, if any.
    pub fn output_status(&self, out_point: &OutPoint) -> (r: Option<OutputOutcome>)
        ensures
            match r {
                Some(o) => al_find(self.db.updates_s(), out_point@) == Some(o@),
                None => al_find(self.db.updates_s(), out_point@) is None,
            },
    {
        match self.db.get_update(out_point) {
            Some(o) => Some(o.duplicate()),
            None => None,
        }
    }

    /// All currently registered offers, in table order.
    pub fn get_offers(&self) -> (r: Vec<IncomingContractOffer>)
        ensures
            r@.len() == self.db.offers_s().len(),
            forall|j: int| 0 <= j < r@.len() ==> (#[trigger] r@[j])@ == self.db.offers_s()[j].1,
    {
        let mut out: Vec<IncomingContractOffer> = Vec::new();
        let mut i: usize = 0;
        while i < self.db.offers.len()
            invariant
                i <= self.db.offers@.len(),
                out@.len() == i,
                forall|j: int| 0 <= j < i ==> (#[trigger] out@[j])@ == self.db.offers_s()[j].1,
            decreases self.db.offers@.len() - i,
        {
            out.push(self.db.offers[i].1.duplicate());
            i = i + 1;
        }
        out
    }

    /// This peer's consensus proposal: every decryption share it intends
    /// to contribute, in table order.
    pub fn consensus_proposal(&self) -> (r: Vec<DecryptionShareCI>)
        ensures
            r@.len() == self.db.propose_s().len(),
            forall|j: int| 0 <= j < r@.len() ==> (#[trigger] r@[j])@ == (DecryptionShareCIV {
                contract_id: self.db.propose_s()[j].0,
                share: self.db.propose_s()[j].1,
            }),
    {
        let mut out: Vec<DecryptionShareCI> = Vec::new();
        let mut i: usize = 0;
        while i < self.db.propose_shares.len()
            invariant
                i <= self.db.propose_shares@.len(),
                out@.len() == i,
                forall|j: int| 0 <= j < i ==> (#[trigger] out@[j])@ == (DecryptionShareCIV {
                    contract_id: self.db.propose_s()[j].0,
                    share: self.db.propose_s()[j].1,
                }),
            decreases self.db.propose_shares@.len() - i,
        {
            let row = &self.db.propose_shares[i];
            out.push(
                DecryptionShareCI { contract_id: copy_bytes(&row.0), share: copy_bytes(&row.1) },
            );
            i = i + 1;
        }
        out
    }

    // --------------------------------------------------------------
    // Input validation and application.
    // --------------------------------------------------------------

    /// What validating an input returns, as a function of the state and
    /// the input alone.
    pub open spec fn validate_input_s(&self, input: ContractInputV) -> Result<
        InputMetaV,
        LightningModuleErrorV,
    > {
        match al_find(self.db.contracts_s(), input.contract_id) {
            None => Err(LightningModuleErrorV::UnknownContract(input.contract_id)),
            Some(acc) => {
                if acc.amount.msat < input.amount.msat {
                    Err(LightningModuleErrorV::InsufficientFunds(acc.amount, input.amount))
                } else {
                    match self.authorizing_key(acc.contract, input.witness) {
                        Ok(key) => Ok(InputMetaV { amount: input.amount, keys: seq![key] }),
                        Err(e) => Err(e),
                    }
                }
            },
        }
    }

    /// The key that authorizes spending the given contract, or the error
    /// explaining why it cannot be spent. An outgoing contract expires
    /// only strictly past its timelock: at `block_height == timelock`
    /// the gateway path, with its preimage check, still applies.
    pub open spec fn authorizing_key(
        &self,
        contract: FundedContractV,
        witness: Option<Seq<u8>>,
    ) -> Result<Seq<u8>, LightningModuleErrorV> {
        match contract {
            FundedContractV::Outgoing(o) => {
                if o.timelock >= self.block_height_s() {
                    match witness {
                        None => Err(LightningModuleErrorV::MissingPreimage),
                        Some(w) => {
                            if sha256_of(w) != o.hash {
                                Err(LightningModuleErrorV::InvalidPreimage)
                            } else {
                                Ok(o.gateway_key)
                            }
                        },
                    }
                } else {
                    Ok(o.user_key)
                }
            },
            FundedContractV::Account(a) => Ok(a.key),
            FundedContractV::Incoming(f) => {
                match f.contract.decrypted_preimage {
                    DecryptedPreimageV::Pending => Err(LightningModuleErrorV::ContractNotReady),
                    DecryptedPreimageV::Valid(p) => Ok(p),
                    DecryptedPreimageV::Invalid => Ok(f.contract.gateway_key),
                }
            },
        }
    }

    /// Validates a contract input: the account must exist, hold enough
    /// funds, and the spender must be authorized by the contract's rules
    /// at the current block height.
    pub fn validate_input(&self, input: &ContractInput) -> (r: Result<
        InputMeta,
        LightningModuleError,
    >)
        ensures
            res_view(r) == self.validate_input_s(input@),
    {
        let account = match self.db.get_contract(&input.contract_id) {
            Some(acc) => acc,
            None => {
                return Err(
                    LightningModuleError::UnknownContract(copy_bytes(&input.contract_id)),
                );
            },
        };
        if account.amount.msat < input.amount.msat {
            return Err(LightningModuleError::InsufficientFunds(account.amount, input.amount));
        }
        let key: Vec<u8> = match &account.contract {
            crate::contracts::FundedContract::Outgoing(o) => {
                if o.timelock >= self.block_height() {
                    match &input.witness {
                        None => {
                            return Err(LightningModuleError::MissingPreimage);
                        },
                        Some(w) => {
                            let preimage_hash = sha256(w);
                            if !bytes_eq(&preimage_hash, &o.hash) {
                                return Err(LightningModuleError::InvalidPreimage);
                            }
                            copy_bytes(&o.gateway_key)
                        },
                    }
                } else {
                    copy_bytes(&o.user_key)
                }
            },
            crate::contracts::FundedContract::Account(a) => copy_bytes(&a.key),
            crate::contracts::FundedContract::Incoming(f) => {
                match &f.contract.decrypted_preimage {
                    DecryptedPreimage::Pending => {
                        return Err(LightningModuleError::ContractNotReady);
                    },
                    DecryptedPreimage::Valid(p) => copy_bytes(&p.key),
                    DecryptedPreimage::Invalid => copy_bytes(&f.contract.gateway_key),
                }
            },
        };
        let ghost gkey = key@;
        let mut keys: Vec<Vec<u8>> = Vec::new();
        keys.push(key);
        let meta = InputMeta { amount: input.amount, keys };
        proof {
            assert(meta@.keys =~~= seq![gkey]);
        }
        Ok(meta)
    }
}

// ------------------------------------------------------------------
// Application of inputs and outputs.
// ------------------------------------------------------------------

/// Addition of two balances, saturating at the largest representable
/// amount.
pub open spec fn sat_add64(a: u64, b: u64) -> u64 {
    if a + b <= u64::MAX {
        (a + b) as u64
    } else {
        u64::MAX
    }
}

impl LightningModule {
    /// Applies a validated input, debiting the spent amount from the
    /// contract account. Validation is performed again here, so a caller
    /// that skipped it still cannot corrupt the state.
    pub fn apply_input(&mut self, input: &ContractInput) -> (r: Result<
        InputMeta,
        LightningModuleError,
    >)
        requires
            old(self).inv(),
        ensures
            final(self).inv(),
            res_view(r) == old(self).validate_input_s(input@),
            final(self).cfg == old(self).cfg,
            final(self).db.updates_s() == old(self).db.updates_s(),
            final(self).db.offers_s() == old(self).db.offers_s(),
            final(self).db.propose_s() == old(self).db.propose_s(),
            final(self).db.agreed_s() == old(self).db.agreed_s(),
            final(self).db.round_consensus == old(self).db.round_consensus,
            preimage_monotone(old(self).db.contracts_s(), final(self).db.contracts_s()),
            r is Err ==> *final(self) == *old(self),
            r is Ok ==> ({
                let acc = al_find(old(self).db.contracts_s(), input@.contract_id)->0;
                &&& al_find(final(self).db.contracts_s(), input@.contract_id) == Some(
                    ContractAccountV {
                        amount: Amount { msat: (acc.amount.msat - input@.amount.msat) as u64 },
                        contract: acc.contract,
                    },
                )
                &&& forall|k: Seq<u8>| k != input@.contract_id ==> al_find(
                    final(self).db.contracts_s(),
                    k,
                ) == al_find(old(self).db.contracts_s(), k)
                &&& crate::db::contracts_total(final(self).db.contracts_s())
                    == crate::db::contracts_total(old(self).db.contracts_s())
                    - input@.amount.msat
            }),
    {
        let meta = match self.validate_input(input) {
            Ok(meta) => meta,
            Err(e) => {
                return Err(e);
            },
        };
        let row = self.db.take_contract(&input.contract_id);
        let (key, mut acc) = match row {
            Some(pair) => pair,
            None => {
                proof {
                    assert(false);
                }
                return Err(LightningModuleError::ContractNotReady);
            },
        };
        acc.amount.msat = acc.amount.msat - input.amount.msat;
        self.db.put_contract(key, acc);
        proof {
            assert forall|k: Seq<u8>|
                (#[trigger] al_find(old(self).db.contracts_s(), k)) is Some && al_find(
                    self.db.contracts_s(),
                    k,
                ) is Some implies preimage_transition_ok(
                al_find(old(self).db.contracts_s(), k)->0,
                al_find(self.db.contracts_s(), k)->0,
            ) by {
                if k != input@.contract_id {
                    assert(al_find(self.db.contracts_s(), k) == al_find(
                        old(self).db.contracts_s(),
                        k,
                    ));
                }
            }
            assert forall|j: int| 0 <= j < self.db.agreed_s().len() implies is_incoming_at(
                self.db.contracts_s(),
                (#[trigger] self.db.agreed_s()[j]).0.0,
            ) by {
                let k = self.db.agreed_s()[j].0.0;
                assert(is_incoming_at(old(self).db.contracts_s(), k));
            }
            assert forall|k: Seq<u8>|
                (#[trigger] al_find(self.db.contracts_s(), k)) is Some implies match al_find(
                self.db.contracts_s(),
                k,
            )->0.contract {
                FundedContractV::Incoming(f) => al_find(self.db.updates_s(), f.out_point) == Some(
                    OutputOutcomeV::Contract {
                        id: k,
                        outcome: ContractOutcomeV::Incoming(f.contract.decrypted_preimage),
                    },
                ),
                _ => true,
            } by {
                assert(al_find(old(self).db.contracts_s(), k) is Some);
            }
        }
        Ok(meta)
    }

    /// Whether this output registers an offer under a hash that is
    /// already taken.
    pub open spec fn offer_duplicate(&self, output: ContractOrOfferOutputV) -> bool {
        match output {
            ContractOrOfferOutputV::Offer(o) => al_find(self.db.offers_s(), o.hash) is Some,
            ContractOrOfferOutputV::Contract(_) => false,
        }
    }

    /// What validating an output returns, as a function of the state and
    /// the output alone. An incoming contract must match a registered
    /// offer and fund it fully; contract outputs must carry a non-zero
    /// amount; an offer must carry a well-formed ciphertext and counts
    /// as a 0-amount output. A malformed ciphertext inside the incoming
    /// contract itself is not a validation concern: it surfaces when the
    /// applier cannot compute a decryption share from it.
    pub open spec fn validate_output_s(&self, output: ContractOrOfferOutputV) -> Result<
        Amount,
        LightningModuleErrorV,
    > {
        match output {
            ContractOrOfferOutputV::Contract(c) => {
                match c.contract {
                    ContractV::Incoming(i) => match al_find(self.db.offers_s(), i.hash) {
                        None => Err(LightningModuleErrorV::NoOffer(i.hash)),
                        Some(offer) => {
                            if c.amount.msat < offer.amount.msat {
                                Err(
                                    LightningModuleErrorV::InsufficientIncomingFunding(
                                        offer.amount,
                                        c.amount,
                                    ),
                                )
                            } else if c.amount.msat == 0 {
                                Err(LightningModuleErrorV::ZeroOutput)
                            } else {
                                Ok(c.amount)
                            }
                        },
                    },
                    _ => {
                        if c.amount.msat == 0 {
                            Err(LightningModuleErrorV::ZeroOutput)
                        } else {
                            Ok(c.amount)
                        }
                    },
                }
            },
            ContractOrOfferOutputV::Offer(o) => {
                if !ciphertext_valid(o.encrypted_preimage) {
                    Err(LightningModuleErrorV::InvalidEncryptedPreimage)
                } else {
                    Ok(Amount { msat: 0 })
                }
            },
        }
    }

    /// Validates an output against the current state.
    pub fn validate_output(&self, output: &ContractOrOfferOutput) -> (r: Result<
        Amount,
        LightningModuleError,
    >)
        ensures
            res_view(r) == self.validate_output_s(output@),
    {
        match output {
            ContractOrOfferOutput::Contract(c) => {
                if let Contract::Incoming(incoming) = &c.contract {
                    let offer = match self.db.get_offer(&incoming.hash) {
                        Some(offer) => offer,
                        None => {
                            return Err(LightningModuleError::NoOffer(copy_bytes(&incoming.hash)));
                        },
                    };
                    if c.amount.msat < offer.amount.msat {
                        return Err(
                            LightningModuleError::InsufficientIncomingFunding(
                                offer.amount,
                                c.amount,
                            ),
                        );
                    }
                }
                if c.amount.msat == 0 {
                    Err(LightningModuleError::ZeroOutput)
                } else {
                    Ok(c.amount)
                }
            },
            ContractOrOfferOutput::Offer(offer) => {
                if !verify_ciphertext(&offer.encrypted_preimage) {
                    Err(LightningModuleError::InvalidEncryptedPreimage)
                } else {
                    Ok(Amount { msat: 0 })
                }
            },
        }
    }
}


impl LightningModule {
    /// Applies a validated output. A contract output credits (or
    /// creates) the contract account, records the output's outcome, and
    /// for an incoming contract additionally proposes this peer's
    /// decryption share and consumes the matching offer. An offer output
    /// registers the offer. Two faults are surfaced rather than masked,
    /// with the state untouched: a second offer registration under the
    /// same hash, and a secret-key share that yields no decryption share
    /// for a ciphertext that passed validation.
    pub fn apply_output(&mut self, output: &ContractOrOfferOutput, out_point: &OutPoint) -> (r:
        Result<Amount, LightningModuleError>)
        requires
            old(self).inv(),
            al_find(old(self).db.updates_s(), out_point@) is None,
        ensures
            final(self).inv(),
            final(self).cfg == old(self).cfg,
            final(self).db.agreed_s() == old(self).db.agreed_s(),
            final(self).db.round_consensus == old(self).db.round_consensus,
            preimage_monotone(old(self).db.contracts_s(), final(self).db.contracts_s()),
            r is Err ==> *final(self) == *old(self),
            match r {
                Err(e) => {
                    if old(self).validate_output_s(output@) is Err {
                        old(self).validate_output_s(output@) == Err::<
                            Amount,
                            LightningModuleErrorV,
                        >(e@)
                    } else {
                        match output@ {
                            ContractOrOfferOutputV::Offer(o) => {
                                &&& al_find(old(self).db.offers_s(), o.hash) is Some
                                &&& e@ == LightningModuleErrorV::DuplicateOffer(o.hash)
                            },
                            ContractOrOfferOutputV::Contract(c) => match c.contract {
                                ContractV::Incoming(inc) => {
                                    &&& decryption_share_of(
                                        old(self).cfg.threshold_sec_key@,
                                        inc.encrypted_preimage,
                                    ) is None
                                    &&& e@ == LightningModuleErrorV::DecryptionFailed(
                                        contract_id_of(c.contract),
                                    )
                                },
                                _ => false,
                            },
                        }
                    }
                },
                Ok(amt) => {
                    &&& old(self).validate_output_s(output@) == Ok::<
                        Amount,
                        LightningModuleErrorV,
                    >(amt)
                    &&& !old(self).offer_duplicate(output@)
                    &&& match output@ {
                        ContractOrOfferOutputV::Contract(c) => {
                            let id = contract_id_of(c.contract);
                            &&& (match al_find(old(self).db.contracts_s(), id) {
                                Some(acc) => al_find(final(self).db.contracts_s(), id) == Some(
                                    ContractAccountV {
                                        amount: Amount {
                                            msat: sat_add64(acc.amount.msat, c.amount.msat),
                                        },
                                        contract: acc.contract,
                                    },
                                ),
                                None => al_find(final(self).db.contracts_s(), id) == Some(
                                    ContractAccountV {
                                        amount: c.amount,
                                        contract: to_funded_spec(c.contract, out_point@),
                                    },
                                ),
                            })
                            &&& forall|k: Seq<u8>| k != id ==> al_find(
                                final(self).db.contracts_s(),
                                k,
                            ) == al_find(old(self).db.contracts_s(), k)
                            &&& crate::db::contracts_total(final(self).db.contracts_s())
                                == crate::db::contracts_total(old(self).db.contracts_s()) + (
                            match al_find(old(self).db.contracts_s(), id) {
                                Some(acc) => sat_add64(acc.amount.msat, c.amount.msat)
                                    - acc.amount.msat,
                                None => c.amount.msat as int,
                            })
                            &&& al_find(final(self).db.updates_s(), out_point@) == Some(
                                OutputOutcomeV::Contract {
                                    id,
                                    outcome: to_outcome_spec(c.contract),
                                },
                            )
                            &&& forall|p: OutPointV| p != out_point@ ==> al_find(
                                final(self).db.updates_s(),
                                p,
                            ) == al_find(old(self).db.updates_s(), p)
                            &&& match c.contract {
                                ContractV::Incoming(inc) => {
                                    &&& al_find(final(self).db.offers_s(), inc.hash) is None
                                    &&& forall|h: Seq<u8>| h != inc.hash ==> al_find(
                                        final(self).db.offers_s(),
                                        h,
                                    ) == al_find(old(self).db.offers_s(), h)
                                    &&& decryption_share_of(
                                        old(self).cfg.threshold_sec_key@,
                                        inc.encrypted_preimage,
                                    ) is Some
                                    &&& al_find(final(self).db.propose_s(), id) == Some(
                                        decryption_share_of(
                                            old(self).cfg.threshold_sec_key@,
                                            inc.encrypted_preimage,
                                        )->0,
                                    )
                                    &&& forall|k: Seq<u8>| k != id ==> al_find(
                                        final(self).db.propose_s(),
                                        k,
                                    ) == al_find(old(self).db.propose_s(), k)
                                },
                                _ => {
                                    &&& final(self).db.offers_s() == old(self).db.offers_s()
                                    &&& final(self).db.propose_s() == old(self).db.propose_s()
                                },
                            }
                        },
                        ContractOrOfferOutputV::Offer(o) => {
                            &&& al_find(final(self).db.offers_s(), o.hash) == Some(o)
                            &&& forall|h: Seq<u8>| h != o.hash ==> al_find(
                                final(self).db.offers_s(),
                                h,
                            ) == al_find(old(self).db.offers_s(), h)
                            &&& final(self).db.contracts_s() == old(self).db.contracts_s()
                            &&& final(self).db.updates_s() == old(self).db.updates_s()
                            &&& final(self).db.propose_s() == old(self).db.propose_s()
                        },
                    }
                },
            },
            r is Ok && output@ is Offer ==> crate::db::contracts_total(
                final(self).db.contracts_s(),
            ) == crate::db::contracts_total(old(self).db.contracts_s()),
    {
        let amount = match self.validate_output(output) {
            Ok(amount) => amount,
            Err(e) => {
                return Err(e);
            },
        };
        match output {
            ContractOrOfferOutput::Contract(c) => {
                let id = c.contract.contract_id();
                // Compute this peer's decryption share before touching any
                // table, so that a failure leaves the state unchanged.
                let proposed_share: Option<Vec<u8>> = match &c.contract {
                    Contract::Incoming(inc) => {
                        match crate::crypto::decrypt_share(
                            &self.cfg.threshold_sec_key,
                            &inc.encrypted_preimage,
                        ) {
                            Some(share) => Some(share),
                            None => {
                                return Err(LightningModuleError::DecryptionFailed(id));
                            },
                        }
                    },
                    _ => None,
                };
                match self.db.take_contract(&id) {
                    Some((key, mut acc)) => {
                        acc.amount.msat = if acc.amount.msat <= u64::MAX - amount.msat {
                            acc.amount.msat + amount.msat
                        } else {
                            u64::MAX
                        };
                        self.db.put_contract(key, acc);
                    },
                    None => {
                        let funded = c.contract.duplicate().to_funded(out_point.duplicate());
                        self.db.put_contract(
                            copy_bytes(&id),
                            ContractAccount { amount, contract: funded },
                        );
                    },
                }
                self.db.put_update(
                    out_point.duplicate(),
                    OutputOutcome::Contract { id: copy_bytes(&id), outcome: c.contract.to_outcome() },
                );
                if let Contract::Incoming(inc) = &c.contract {
                    match proposed_share {
                        Some(share) => {
                            self.db.upsert_propose(copy_bytes(&id), share);
                        },
                        None => {},
                    }
                    let _ = self.db.remove_offer(&inc.hash);
                }
                proof {
                    self.lemma_apply_output_contract_inv(*old(self), c@, out_point@, id@);
                }
                Ok(amount)
            },
            ContractOrOfferOutput::Offer(offer) => {
                if self.db.get_offer(&offer.hash).is_some() {
                    return Err(LightningModuleError::DuplicateOffer(copy_bytes(&offer.hash)));
                }
                self.db.put_offer(copy_bytes(&offer.hash), offer.duplicate());
                proof {
                    assert forall|k: Seq<u8>|
                        (#[trigger] al_find(self.db.contracts_s(), k)) is Some implies match al_find(
                        self.db.contracts_s(),
                        k,
                    )->0.contract {
                        FundedContractV::Incoming(f) => al_find(self.db.updates_s(), f.out_point)
                            == Some(
                            OutputOutcomeV::Contract {
                                id: k,
                                outcome: ContractOutcomeV::Incoming(
                                    f.contract.decrypted_preimage,
                                ),
                            },
                        ),
                        _ => true,
                    } by {
                        assert(al_find(old(self).db.contracts_s(), k) is Some);
                    }
                }
                Ok(amount)
            },
        }
    }

    /// The invariant survives the application of a contract output.
    proof fn lemma_apply_output_contract_inv(
        &self,
        pre: LightningModule,
        c: ContractOutputV,
        out_point: OutPointV,
        id: Seq<u8>,
    )
        requires
            pre.inv(),
            self.db.inv(),
            self.cfg == pre.cfg,
            self.db.agreed_s() == pre.db.agreed_s(),
            al_find(pre.db.updates_s(), out_point) is None,
            id == contract_id_of(c.contract),
            match al_find(pre.db.contracts_s(), id) {
                Some(acc) => al_find(self.db.contracts_s(), id) == Some(
                    ContractAccountV {
                        amount: Amount { msat: sat_add64(acc.amount.msat, c.amount.msat) },
                        contract: acc.contract,
                    },
                ),
                None => al_find(self.db.contracts_s(), id) == Some(
                    ContractAccountV {
                        amount: c.amount,
                        contract: to_funded_spec(c.contract, out_point),
                    },
                ),
            },
            forall|k: Seq<u8>| k != id ==> al_find(self.db.contracts_s(), k) == al_find(
                pre.db.contracts_s(),
                k,
            ),
            al_find(self.db.updates_s(), out_point) == Some(
                OutputOutcomeV::Contract { id, outcome: to_outcome_spec(c.contract) },
            ),
            forall|p: OutPointV| p != out_point ==> al_find(self.db.updates_s(), p) == al_find(
                pre.db.updates_s(),
                p,
            ),
        ensures
            self.agreed_supported(),
            self.outcomes_coherent(),
            preimage_monotone(pre.db.contracts_s(), self.db.contracts_s()),
    {
        assert forall|j: int| 0 <= j < self.db.agreed_s().len() implies is_incoming_at(
            self.db.contracts_s(),
            (#[trigger] self.db.agreed_s()[j]).0.0,
        ) by {
            let k = self.db.agreed_s()[j].0.0;
            assert(is_incoming_at(pre.db.contracts_s(), k));
        }
        assert forall|k: Seq<u8>|
            (#[trigger] al_find(self.db.contracts_s(), k)) is Some implies match al_find(
            self.db.contracts_s(),
            k,
        )->0.contract {
            FundedContractV::Incoming(f) => al_find(self.db.updates_s(), f.out_point) == Some(
                OutputOutcomeV::Contract {
                    id: k,
                    outcome: ContractOutcomeV::Incoming(f.contract.decrypted_preimage),
                },
            ),
            _ => true,
        } by {
            let acc2 = al_find(self.db.contracts_s(), k)->0;
            if k == id {
                match al_find(pre.db.contracts_s(), id) {
                    Some(acc) => {
                        match acc.contract {
                            FundedContractV::Incoming(f) => {
                                assert(al_find(pre.db.updates_s(), f.out_point) == Some(
                                    OutputOutcomeV::Contract {
                                        id: k,
                                        outcome: ContractOutcomeV::Incoming(
                                            f.contract.decrypted_preimage,
                                        ),
                                    },
                                ));
                                assert(f.out_point != out_point);
                            },
                            _ => {},
                        }
                    },
                    None => {},
                }
            } else {
                assert(al_find(pre.db.contracts_s(), k) is Some);
                match acc2.contract {
                    FundedContractV::Incoming(f) => {
                        assert(al_find(pre.db.updates_s(), f.out_point) == Some(
                            OutputOutcomeV::Contract {
                                id: k,
                                outcome: ContractOutcomeV::Incoming(
                                    f.contract.decrypted_preimage,
                                ),
                            },
                        ));
                        assert(f.out_point != out_point);
                    },
                    _ => {},
                }
            }
        }
    }
}

// ------------------------------------------------------------------
// Begin-epoch: accepting decryption shares.
// ------------------------------------------------------------------

/// The view of a batch of consensus items.
pub open spec fn items_v(s: Seq<(u64, DecryptionShareCI)>) -> Seq<(u64, DecryptionShareCIV)> {
    s.map_values(|p: (u64, DecryptionShareCI)| (p.0, p.1@))
}

/// The effect of one `(peer, share)` consensus item on the agreed-share
/// table, given the table `agreed0` the epoch started with. The share is
/// accepted when its contract exists and is incoming, it verifies
/// against the peer's key share, and no share of this peer for this
/// contract is recorded yet. One that was recorded before this epoch (a
/// re-proposal) is skipped; one that was accepted earlier in this same
/// epoch is a protocol error, named by its contract-peer pair.
pub open spec fn accept_share(
    contracts: Seq<(Seq<u8>, ContractAccountV)>,
    pks: Seq<u8>,
    agreed0: Seq<((Seq<u8>, u64), Seq<u8>)>,
    agreed: Seq<((Seq<u8>, u64), Seq<u8>)>,
    peer: u64,
    ci: DecryptionShareCIV,
) -> Result<Seq<((Seq<u8>, u64), Seq<u8>)>, (Seq<u8>, u64)> {
    match al_find(contracts, ci.contract_id) {
        Some(acc) => match acc.contract {
            FundedContractV::Incoming(f) => {
                if share_valid(pks, peer, ci.share, f.contract.encrypted_preimage) {
                    if al_find(agreed, (ci.contract_id, peer)) is None {
                        Ok(agreed.push(((ci.contract_id, peer), ci.share)))
                    } else if al_find(agreed0, (ci.contract_id, peer)) is Some {
                        Ok(agreed)
                    } else {
                        Err((ci.contract_id, peer))
                    }
                } else {
                    Ok(agreed)
                }
            },
            _ => Ok(agreed),
        },
        None => Ok(agreed),
    }
}

/// The agreed-share table after an ordered batch of consensus items, or
/// the first contract-peer pair accepted twice within the batch.
pub open spec fn begin_epoch_s(
    contracts: Seq<(Seq<u8>, ContractAccountV)>,
    pks: Seq<u8>,
    agreed0: Seq<((Seq<u8>, u64), Seq<u8>)>,
    agreed: Seq<((Seq<u8>, u64), Seq<u8>)>,
    items: Seq<(u64, DecryptionShareCIV)>,
) -> Result<Seq<((Seq<u8>, u64), Seq<u8>)>, (Seq<u8>, u64)>
    decreases items.len(),
{
    if items.len() == 0 {
        Ok(agreed)
    } else {
        match accept_share(contracts, pks, agreed0, agreed, items[0].0, items[0].1) {
            Ok(agreed2) => begin_epoch_s(contracts, pks, agreed0, agreed2, items.drop_first()),
            Err(k) => Err(k),
        }
    }
}

impl LightningModule {
    /// Checks a peer's decryption share against the peer's public-key
    /// share and the contract's ciphertext.
    fn validate_decryption_share(&self, peer: u64, share: &Vec<u8>, ct: &Vec<u8>) -> (r: bool)
        ensures
            r == share_valid(self.cfg.threshold_pub_keys@, peer, share@, ct@),
    {
        crate::crypto::verify_decryption_share(&self.cfg.threshold_pub_keys, peer, share, ct)
    }

    /// Filters an ordered batch of `(peer, share)` items and records the
    /// accepted shares in the replicated state. An invalid share is
    /// dropped silently so that the epoch stays deterministic across
    /// peers, and a share already recorded before this epoch (a
    /// re-proposal) is skipped; but a share accepted twice within this
    /// epoch's batch is a protocol error, surfaced with the whole batch
    /// undone.
    pub fn begin_consensus_epoch(&mut self, consensus_items: &Vec<(u64, DecryptionShareCI)>) -> (r:
        Result<(), LightningModuleError>)
        requires
            old(self).inv(),
        ensures
            final(self).inv(),
            final(self).cfg == old(self).cfg,
            final(self).db.contracts_s() == old(self).db.contracts_s(),
            final(self).db.updates_s() == old(self).db.updates_s(),
            final(self).db.offers_s() == old(self).db.offers_s(),
            final(self).db.propose_s() == old(self).db.propose_s(),
            final(self).db.round_consensus == old(self).db.round_consensus,
            preimage_monotone(old(self).db.contracts_s(), final(self).db.contracts_s()),
            match r {
                Ok(_) => begin_epoch_s(
                    old(self).db.contracts_s(),
                    old(self).cfg.threshold_pub_keys@,
                    old(self).db.agreed_s(),
                    old(self).db.agreed_s(),
                    items_v(consensus_items@),
                ) == Ok::<_, (Seq<u8>, u64)>(final(self).db.agreed_s()),
                Err(e) => {
                    &&& final(self).db.agreed_s() == old(self).db.agreed_s()
                    &&& match e@ {
                        LightningModuleErrorV::DuplicateDecryptionShare(id, peer) => {
                            begin_epoch_s(
                                old(self).db.contracts_s(),
                                old(self).cfg.threshold_pub_keys@,
                                old(self).db.agreed_s(),
                                old(self).db.agreed_s(),
                                items_v(consensus_items@),
                            ) == Err::<Seq<((Seq<u8>, u64), Seq<u8>)>, _>((id, peer))
                        },
                        _ => false,
                    }
                },
            },
    {
        let ghost all_items = items_v(consensus_items@);
        let ghost agreed0 = old(self).db.agreed_s();
        let len0 = self.db.agreed_shares.len();
        proof {
            assert(all_items.skip(0) =~= all_items);
            assert(self.db.agreed_s().take(len0 as int) =~= agreed0);
        }
        let mut i: usize = 0;
        while i < consensus_items.len()
            invariant
                old(self).inv(),
                self.inv(),
                self.cfg == old(self).cfg,
                self.db.contracts_s() == old(self).db.contracts_s(),
                self.db.updates_s() == old(self).db.updates_s(),
                self.db.offers_s() == old(self).db.offers_s(),
                self.db.propose_s() == old(self).db.propose_s(),
                self.db.round_consensus == old(self).db.round_consensus,
                i <= consensus_items@.len(),
                all_items == items_v(consensus_items@),
                agreed0 == old(self).db.agreed_s(),
                len0 as int == agreed0.len(),
                len0 <= self.db.agreed_shares@.len(),
                self.db.agreed_s().take(len0 as int) == agreed0,
                begin_epoch_s(
                    old(self).db.contracts_s(),
                    old(self).cfg.threshold_pub_keys@,
                    agreed0,
                    self.db.agreed_s(),
                    all_items.skip(i as int),
                ) == begin_epoch_s(
                    old(self).db.contracts_s(),
                    old(self).cfg.threshold_pub_keys@,
                    agreed0,
                    agreed0,
                    all_items,
                ),
            decreases consensus_items@.len() - i,
        {
            let ghost agreed_pre = self.db.agreed_s();
            let peer: u64 = consensus_items[i].0;
            let ci = &consensus_items[i].1;
            let enc: Option<Vec<u8>> = match self.db.get_contract(&ci.contract_id) {
                Some(acc) => match &acc.contract {
                    crate::contracts::FundedContract::Incoming(f) => Some(
                        copy_bytes(&f.contract.encrypted_preimage),
                    ),
                    _ => None,
                },
                None => None,
            };
            match enc {
                Some(ct) => {
                    if self.validate_decryption_share(peer, &ci.share, &ct) {
                        if !self.db.agreed_contains(&ci.contract_id, peer) {
                            self.db.push_agreed(
                                copy_bytes(&ci.contract_id),
                                peer,
                                copy_bytes(&ci.share),
                            );
                            proof {
                                assert forall|j: int|
                                    0 <= j < self.db.agreed_s().len() implies is_incoming_at(
                                    self.db.contracts_s(),
                                    (#[trigger] self.db.agreed_s()[j]).0.0,
                                ) by {
                                    if j < agreed_pre.len() {
                                        assert(self.db.agreed_s()[j] == agreed_pre[j]);
                                    } else {
                                        assert(self.db.agreed_s()[j].0.0 == ci.contract_id@);
                                    }
                                }
                                assert(self.db.agreed_s().take(len0 as int) =~= agreed0);
                            }
                        } else if !self.db.agreed_contains_in(&ci.contract_id, peer, len0) {
                            // The pair was accepted earlier in this very
                            // batch: a protocol error. Undo the batch and
                            // surface it.
                            proof {
                                assert(accept_share(
                                    old(self).db.contracts_s(),
                                    old(self).cfg.threshold_pub_keys@,
                                    agreed0,
                                    agreed_pre,
                                    peer,
                                    all_items[i as int].1,
                                ) == Err::<Seq<((Seq<u8>, u64), Seq<u8>)>, _>((
                                    ci.contract_id@,
                                    peer,
                                )));
                                assert(all_items.skip(i as int)[0] == all_items[i as int]);
                            }
                            self.db.truncate_agreed(len0);
                            return Err(
                                LightningModuleError::DuplicateDecryptionShare(
                                    copy_bytes(&ci.contract_id),
                                    peer,
                                ),
                            );
                        }
                    }
                },
                None => {},
            }
            proof {
                assert(accept_share(
                    old(self).db.contracts_s(),
                    old(self).cfg.threshold_pub_keys@,
                    agreed0,
                    agreed_pre,
                    peer,
                    all_items[i as int].1,
                ) == Ok::<_, (Seq<u8>, u64)>(self.db.agreed_s()));
                assert(all_items.skip(i as int)[0] == all_items[i as int]);
                assert(all_items.skip(i as int).drop_first() =~= all_items.skip(i as int + 1));
            }
            i = i + 1;
        }
        proof {
            assert(all_items.skip(consensus_items@.len() as int) =~= Seq::<
                (u64, DecryptionShareCIV),
            >::empty());
        }
        Ok(())
    }
}

// ------------------------------------------------------------------
// End-epoch: combining shares and finalizing preimages.
// ------------------------------------------------------------------

/// The ordered `(peer, share)` pairs recorded for one contract.
pub open spec fn shares_for(agreed: Seq<((Seq<u8>, u64), Seq<u8>)>, cid: Seq<u8>) -> Seq<
    (u64, Seq<u8>),
>
    decreases agreed.len(),
{
    if agreed.len() == 0 {
        Seq::empty()
    } else {
        let rest = shares_for(agreed.drop_last(), cid);
        if agreed.last().0.0 == cid {
            rest.push((agreed.last().0.1, agreed.last().1))
        } else {
            rest
        }
    }
}

/// Appending one agreed row extends the shares of its contract and no
/// other's.
pub proof fn lemma_shares_for_push(
    agreed: Seq<((Seq<u8>, u64), Seq<u8>)>,
    x: ((Seq<u8>, u64), Seq<u8>),
    cid: Seq<u8>,
)
    ensures
        shares_for(agreed.push(x), cid) == if x.0.0 == cid {
            shares_for(agreed, cid).push((x.0.1, x.1))
        } else {
            shares_for(agreed, cid)
        },
{
    assert(agreed.push(x).drop_last() =~= agreed);
    assert(agreed.push(x).last() == x);
}

/// How a combined plaintext is classified: 32 bytes that hash to the
/// contract's payment hash and parse as a Schnorr public key reveal the
/// preimage; anything else marks the contract invalid.
pub open spec fn classify_preimage(pt: Seq<u8>, hash: Seq<u8>) -> DecryptedPreimageV {
    if pt.len() != 32 {
        DecryptedPreimageV::Invalid
    } else if sha256_of(pt) != hash {
        DecryptedPreimageV::Invalid
    } else if schnorr_key_valid(pt) {
        DecryptedPreimageV::Valid(pt)
    } else {
        DecryptedPreimageV::Invalid
    }
}

/// The account as it stands once its preimage state is replaced.
pub open spec fn with_preimage(acc: ContractAccountV, dp: DecryptedPreimageV) -> ContractAccountV {
    match acc.contract {
        FundedContractV::Incoming(f) => ContractAccountV {
            amount: acc.amount,
            contract: FundedContractV::Incoming(
                FundedIncomingContractV {
                    contract: IncomingContractV {
                        hash: f.contract.hash,
                        encrypted_preimage: f.contract.encrypted_preimage,
                        decrypted_preimage: dp,
                        gateway_key: f.contract.gateway_key,
                    },
                    out_point: f.out_point,
                },
            ),
        },
        _ => acc,
    }
}

/// One decision of the end-epoch pass: which contract to finalize, the
/// out-point whose outcome mirrors it, the new preimage state, and (for
/// the proof) the contract's row index.
type Decision = (ContractId, OutPoint, DecryptedPreimage, Ghost<int>);

/// What phase one of the end-epoch pass guarantees of a recorded
/// decision: it names a contract that is due for decryption, whose
/// combine succeeded, together with its out-point and the
/// classification of the combined plaintext.
pub open spec fn decision_ok(pre: LightningModule, d: Decision, bound: int) -> bool {
    let k = d.0@;
    let rj = d.3@;
    &&& 0 <= rj < bound
    &&& rj < pre.db.contracts_s().len()
    &&& pre.db.contracts_s()[rj].0 == k
    &&& pre.decryption_due(k)
    &&& pre.due_combine(k) is Some
    &&& {
        let f = (al_find(pre.db.contracts_s(), k)->0).contract->Incoming_0;
        &&& d.1@ == f.out_point
        &&& d.2@ == classify_preimage(pre.due_combine(k)->0, f.contract.hash)
    }
}

impl LightningModule {
    /// Whether the contract stored under `k` is an incoming contract
    /// with a pending preimage that has gathered a threshold of shares.
    pub open spec fn decryption_due(&self, k: Seq<u8>) -> bool {
        match al_find(self.db.contracts_s(), k) {
            Some(acc) => match acc.contract {
                FundedContractV::Incoming(f) => f.contract.decrypted_preimage is Pending
                    && shares_for(self.db.agreed_s(), k).len() >= self.cfg.threshold,
                _ => false,
            },
            None => false,
        }
    }

    /// The plaintext that combining the recorded shares of `k` yields.
    pub open spec fn due_combine(&self, k: Seq<u8>) -> Option<Seq<u8>> {
        combine_of(
            self.cfg.threshold_pub_keys@,
            shares_for(self.db.agreed_s(), k),
            (al_find(self.db.contracts_s(), k)->0).contract->Incoming_0.contract.encrypted_preimage,
        )
    }

    /// Whether `p` is the out-point of a contract due for decryption.
    pub open spec fn due_outpoint(&self, p: OutPointV) -> bool {
        exists|k: Seq<u8>|
            #[trigger] self.decryption_due(k) && (al_find(self.db.contracts_s(), k)->0)
                .contract->Incoming_0.out_point == p
    }

    /// Finalizes every incoming contract that has gathered a threshold
    /// of agreed decryption shares: combines the shares, classifies the
    /// plaintext, and updates the contract account, its outcome row and
    /// the proposed-share table atomically. A failed combine over shares
    /// that each verified is an invariant violation and is surfaced.
    pub fn end_consensus_epoch(&mut self) -> (r: Result<(), LightningModuleError>)
        requires
            old(self).inv(),
        ensures
            final(self).inv(),
            final(self).cfg == old(self).cfg,
            final(self).db.agreed_s() == old(self).db.agreed_s(),
            final(self).db.offers_s() == old(self).db.offers_s(),
            final(self).db.round_consensus == old(self).db.round_consensus,
            preimage_monotone(old(self).db.contracts_s(), final(self).db.contracts_s()),
            crate::db::contracts_total(final(self).db.contracts_s()) == crate::db::contracts_total(
                old(self).db.contracts_s(),
            ),
            match r {
                Err(e) => {
                    &&& *final(self) == *old(self)
                    &&& match e@ {
                        LightningModuleErrorV::DecryptionFailed(k) => {
                            &&& old(self).decryption_due(k)
                            &&& old(self).due_combine(k) is None
                        },
                        _ => false,
                    }
                },
                Ok(_) => {
                    &&& forall|k: Seq<u8>|
                        (#[trigger] al_find(old(self).db.contracts_s(), k)) is Some ==> {
                            if old(self).decryption_due(k) {
                                let acc = al_find(old(self).db.contracts_s(), k)->0;
                                let f = acc.contract->Incoming_0;
                                let dp = classify_preimage(
                                    old(self).due_combine(k)->0,
                                    f.contract.hash,
                                );
                                &&& old(self).due_combine(k) is Some
                                &&& al_find(final(self).db.contracts_s(), k) == Some(
                                    with_preimage(acc, dp),
                                )
                                &&& al_find(final(self).db.updates_s(), f.out_point) == Some(
                                    OutputOutcomeV::Contract {
                                        id: k,
                                        outcome: ContractOutcomeV::Incoming(dp),
                                    },
                                )
                                &&& al_find(final(self).db.propose_s(), k) is None
                            } else {
                                al_find(final(self).db.contracts_s(), k) == al_find(
                                    old(self).db.contracts_s(),
                                    k,
                                )
                            }
                        }
                    &&& forall|k: Seq<u8>|
                        al_find(old(self).db.contracts_s(), k) is None ==> (#[trigger] al_find(
                            final(self).db.contracts_s(),
                            k,
                        )) is None
                    &&& forall|p: OutPointV|
                        !old(self).due_outpoint(p) ==> al_find(final(self).db.updates_s(), p)
                            == al_find(old(self).db.updates_s(), p)
                    &&& forall|k: Seq<u8>|
                        !old(self).decryption_due(k) ==> al_find(final(self).db.propose_s(), k)
                            == al_find(old(self).db.propose_s(), k)
                },
            },
    {
        // Phase one: decide, reading only.
        let mut decisions: Vec<Decision> = Vec::new();
        let mut j: usize = 0;
        while j < self.db.contracts.len()
            invariant
                *self == *old(self),
                old(self).inv(),
                j <= self.db.contracts@.len(),
                forall|m: int|
                    0 <= m < decisions@.len() ==> decision_ok(
                        *old(self),
                        #[trigger] decisions@[m],
                        j as int,
                    ),
                forall|m1: int, m2: int|
                    0 <= m1 < m2 < decisions@.len() ==> (#[trigger] decisions@[m1]).3@ < (
                    #[trigger] decisions@[m2]).3@,
                forall|jj: int|
                    0 <= jj < j && old(self).decryption_due(
                        (#[trigger] old(self).db.contracts_s()[jj]).0,
                    ) ==> exists|m: int|
                        0 <= m < decisions@.len() && (#[trigger] decisions@[m]).3@ == jj,
            decreases self.db.contracts@.len() - j,
        {
            let ghost key_j = self.db.contracts_s()[j as int].0;
            let ghost pre_decisions = decisions@;
            proof {
                lemma_al_find_at(self.db.contracts_s(), key_j, j as int);
            }
            let info: Option<(Vec<u8>, Vec<u8>, Vec<u8>, OutPoint)> = match &self.db.contracts[j]
                .1
                .contract {
                FundedContract::Incoming(f) => match &f.contract.decrypted_preimage {
                    DecryptedPreimage::Pending => Some(
                        (
                            copy_bytes(&self.db.contracts[j].0),
                            copy_bytes(&f.contract.hash),
                            copy_bytes(&f.contract.encrypted_preimage),
                            f.out_point.duplicate(),
                        ),
                    ),
                    _ => None,
                },
                _ => None,
            };
            match info {
                None => {
                    proof {
                        assert(!old(self).decryption_due(key_j));
                    }
                },
                Some((id, hash, enc, op)) => {
                    let mut shares: Vec<(u64, Vec<u8>)> = Vec::new();
                    proof {
                        assert(crate::crypto::shares_view(shares@) =~= shares_for(
                            self.db.agreed_s().take(0),
                            id@,
                        ));
                    }
                    let mut a: usize = 0;
                    while a < self.db.agreed_shares.len()
                        invariant
                            *self == *old(self),
                            old(self).inv(),
                            a <= self.db.agreed_shares@.len(),
                            id@ == key_j,
                            key_j == self.db.contracts_s()[j as int].0,
                            0 <= j < self.db.contracts@.len(),
                            crate::crypto::shares_view(shares@) == shares_for(
                                self.db.agreed_s().take(a as int),
                                id@,
                            ),
                        decreases self.db.agreed_shares@.len() - a,
                    {
                        let ghost pre_shares = crate::crypto::shares_view(shares@);
                        if bytes_eq(&self.db.agreed_shares[a].0.0, &id) {
                            let peer: u64 = self.db.agreed_shares[a].0.1;
                            shares.push((peer, copy_bytes(&self.db.agreed_shares[a].1)));
                            proof {
                                assert(crate::crypto::shares_view(shares@) =~= pre_shares.push(
                                    (peer, self.db.agreed_s()[a as int].1),
                                ));
                            }
                        }
                        proof {
                            assert(self.db.agreed_s().take(a as int + 1) =~= self.db.agreed_s()
                                .take(a as int).push(self.db.agreed_s()[a as int]));
                            lemma_shares_for_push(
                                self.db.agreed_s().take(a as int),
                                self.db.agreed_s()[a as int],
                                id@,
                            );
                        }
                        a = a + 1;
                    }
                    proof {
                        assert(self.db.agreed_s().take(self.db.agreed_shares@.len() as int)
                            =~= self.db.agreed_s());
                    }
                    if shares.len() >= self.cfg.threshold {
                        proof {
                            assert(old(self).decryption_due(id@));
                        }
                        match crate::crypto::combine_shares(
                            &self.cfg.threshold_pub_keys,
                            &shares,
                            &enc,
                        ) {
                            None => {
                                proof {
                                    assert(old(self).due_combine(id@) is None);
                                }
                                return Err(LightningModuleError::DecryptionFailed(id));
                            },
                            Some(pt) => {
                                proof {
                                    assert(pt.deep_view() =~= pt@);
                                    assert(old(self).due_combine(id@) == Some(pt@));
                                }
                                let dp: DecryptedPreimage = if pt.len() != 32 {
                                    DecryptedPreimage::Invalid
                                } else {
                                    let h = sha256(&pt);
                                    if !bytes_eq(&h, &hash) {
                                        DecryptedPreimage::Invalid
                                    } else if crate::crypto::parse_schnorr_key(&pt) {
                                        DecryptedPreimage::Valid(Preimage { key: pt })
                                    } else {
                                        DecryptedPreimage::Invalid
                                    }
                                };
                                let ghost gdp = dp@;
                                decisions.push((id, op, dp, Ghost(j as int)));
                                proof {
                                    let n = decisions@.len();
                                    assert(decisions@[n - 1].3@ == j as int);
                                    assert(gdp == classify_preimage(
                                        old(self).due_combine(key_j)->0,
                                        (al_find(old(self).db.contracts_s(), key_j)->0)
                                            .contract->Incoming_0.contract.hash,
                                    ));
                                    assert(decision_ok(
                                        *old(self),
                                        decisions@[n - 1],
                                        j as int + 1,
                                    ));
                                }
                            },
                        }
                    } else {
                        proof {
                            assert(!old(self).decryption_due(id@));
                        }
                    }
                },
            }
            proof {
                assert forall|jj: int|
                    0 <= jj < j + 1 && old(self).decryption_due(
                        (#[trigger] old(self).db.contracts_s()[jj]).0,
                    ) implies exists|m: int|
                    0 <= m < decisions@.len() && (#[trigger] decisions@[m]).3@ == jj by {
                    if jj < j {
                        let m0 = choose|m: int|
                            0 <= m < pre_decisions.len() && (#[trigger] pre_decisions[m]).3@
                                == jj;
                        assert(decisions@[m0].3@ == jj);
                    } else {
                        assert(decisions@[decisions@.len() - 1].3@ == jj);
                    }
                }
            }
            j = j + 1;
        }
        proof {
            assert forall|m1: int, m2: int|
                0 <= m1 < m2 < decisions@.len() implies (#[trigger] decisions@[m1]).0@ != (
            #[trigger] decisions@[m2]).0@ by {
                assert(decision_ok(*old(self), decisions@[m1], j as int));
                assert(decision_ok(*old(self), decisions@[m2], j as int));
            }
            assert forall|m1: int, m2: int|
                0 <= m1 < m2 < decisions@.len() implies (#[trigger] decisions@[m1]).1@ != (
            #[trigger] decisions@[m2]).1@ by {
                let k1 = decisions@[m1].0@;
                let k2 = decisions@[m2].0@;
                assert(decision_ok(*old(self), decisions@[m1], j as int));
                assert(decision_ok(*old(self), decisions@[m2], j as int));
                assert(al_find(old(self).db.contracts_s(), k1) is Some);
                assert(al_find(old(self).db.contracts_s(), k2) is Some);
            }
        }
        // Phase two: apply every decision.
        let ghost n_decisions = decisions@.len();
        let mut m: usize = 0;
        while m < decisions.len()
            invariant
                old(self).inv(),
                self.db.inv(),
                self.cfg == old(self).cfg,
                m <= decisions@.len(),
                decisions@.len() == n_decisions,
                self.db.agreed_s() == old(self).db.agreed_s(),
                self.db.offers_s() == old(self).db.offers_s(),
                self.db.round_consensus == old(self).db.round_consensus,
                crate::db::contracts_total(self.db.contracts_s()) == crate::db::contracts_total(
                    old(self).db.contracts_s(),
                ),
                forall|mm: int|
                    0 <= mm < decisions@.len() ==> decision_ok(
                        *old(self),
                        #[trigger] decisions@[mm],
                        old(self).db.contracts_s().len() as int,
                    ),
                forall|m1: int, m2: int|
                    0 <= m1 < m2 < decisions@.len() ==> (#[trigger] decisions@[m1]).0@ != (
                    #[trigger] decisions@[m2]).0@,
                forall|m1: int, m2: int|
                    0 <= m1 < m2 < decisions@.len() ==> (#[trigger] decisions@[m1]).1@ != (
                    #[trigger] decisions@[m2]).1@,
                forall|jj: int|
                    0 <= jj < old(self).db.contracts_s().len() && old(self).decryption_due(
                        (#[trigger] old(self).db.contracts_s()[jj]).0,
                    ) ==> exists|mm: int|
                        0 <= mm < decisions@.len() && (#[trigger] decisions@[mm]).3@ == jj,
                forall|mm: int|
                    0 <= mm < m ==> {
                        let d = #[trigger] decisions@[mm];
                        &&& al_find(self.db.contracts_s(), d.0@) == Some(
                            with_preimage(al_find(old(self).db.contracts_s(), d.0@)->0, d.2@),
                        )
                        &&& al_find(self.db.updates_s(), d.1@) == Some(
                            OutputOutcomeV::Contract {
                                id: d.0@,
                                outcome: ContractOutcomeV::Incoming(d.2@),
                            },
                        )
                        &&& al_find(self.db.propose_s(), d.0@) is None
                    },
                forall|k: Seq<u8>|
                    #![trigger al_find(self.db.contracts_s(), k)]
                    (forall|mm: int| 0 <= mm < m ==> (#[trigger] decisions@[mm]).0@ != k)
                        ==> al_find(self.db.contracts_s(), k) == al_find(
                        old(self).db.contracts_s(),
                        k,
                    ),
                forall|p: OutPointV|
                    #![trigger al_find(self.db.updates_s(), p)]
                    (forall|mm: int| 0 <= mm < m ==> (#[trigger] decisions@[mm]).1@ != p)
                        ==> al_find(self.db.updates_s(), p) == al_find(
                        old(self).db.updates_s(),
                        p,
                    ),
                forall|k: Seq<u8>|
                    #![trigger al_find(self.db.propose_s(), k)]
                    (forall|mm: int| 0 <= mm < m ==> (#[trigger] decisions@[mm]).0@ != k)
                        ==> al_find(self.db.propose_s(), k) == al_find(
                        old(self).db.propose_s(),
                        k,
                    ),
            decreases decisions@.len() - m,
        {
            let id = copy_bytes(&decisions[m].0);
            let op = decisions[m].1.duplicate();
            let dp = decisions[m].2.duplicate();
            let ghost d = decisions@[m as int];
            proof {
                assert(decision_ok(*old(self), d, old(self).db.contracts_s().len() as int));
                assert(al_find(self.db.contracts_s(), id@) == al_find(
                    old(self).db.contracts_s(),
                    id@,
                ));
                assert(al_find(self.db.updates_s(), op@) == al_find(
                    old(self).db.updates_s(),
                    op@,
                ));
            }
            let rowc = self.db.take_contract(&id);
            let (ckey, acc_taken) = match rowc {
                Some(pair) => pair,
                None => {
                    proof {
                        assert(false);
                    }
                    return Err(LightningModuleError::DecryptionFailed(id));
                },
            };
            let ContractAccount { amount: acc_amount, contract: acc_contract } = acc_taken;
            let new_contract: FundedContract = match acc_contract {
                FundedContract::Incoming(fic) => {
                    let FundedIncomingContract { contract: ic, out_point: fop } = fic;
                    FundedContract::Incoming(
                        FundedIncomingContract {
                            contract: IncomingContract {
                                hash: ic.hash,
                                encrypted_preimage: ic.encrypted_preimage,
                                decrypted_preimage: dp,
                                gateway_key: ic.gateway_key,
                            },
                            out_point: fop,
                        },
                    )
                },
                other => {
                    proof {
                        assert(false);
                    }
                    other
                },
            };
            self.db.put_contract(ckey, ContractAccount { amount: acc_amount, contract: new_contract });
            let rowu = self.db.take_update(&op);
            match rowu {
                Some(_) => {},
                None => {
                    proof {
                        assert(false);
                    }
                    return Err(LightningModuleError::DecryptionFailed(id));
                },
            };
            let dp2 = decisions[m].2.duplicate();
            self.db.put_update(
                op,
                OutputOutcome::Contract {
                    id: copy_bytes(&id),
                    outcome: ContractOutcome::Incoming(dp2),
                },
            );
            let _ = self.db.remove_propose(&id);
            proof {
                assert forall|mm: int| 0 <= mm < m + 1 implies {
                    let dd = #[trigger] decisions@[mm];
                    &&& al_find(self.db.contracts_s(), dd.0@) == Some(
                        with_preimage(al_find(old(self).db.contracts_s(), dd.0@)->0, dd.2@),
                    )
                    &&& al_find(self.db.updates_s(), dd.1@) == Some(
                        OutputOutcomeV::Contract {
                            id: dd.0@,
                            outcome: ContractOutcomeV::Incoming(dd.2@),
                        },
                    )
                    &&& al_find(self.db.propose_s(), dd.0@) is None
                } by {
                    let dd = decisions@[mm];
                    if mm < m {
                        assert(dd.0@ != d.0@);
                        assert(dd.1@ != d.1@);
                    }
                }
            }
            m = m + 1;
        }
        // Restate the per-decision facts per contract id.
        proof {
            assert forall|k: Seq<u8>|
                (#[trigger] al_find(old(self).db.contracts_s(), k)) is Some implies {
                if old(self).decryption_due(k) {
                    let acc = al_find(old(self).db.contracts_s(), k)->0;
                    let f = acc.contract->Incoming_0;
                    let dp = classify_preimage(old(self).due_combine(k)->0, f.contract.hash);
                    &&& old(self).due_combine(k) is Some
                    &&& al_find(self.db.contracts_s(), k) == Some(with_preimage(acc, dp))
                    &&& al_find(self.db.updates_s(), f.out_point) == Some(
                        OutputOutcomeV::Contract {
                            id: k,
                            outcome: ContractOutcomeV::Incoming(dp),
                        },
                    )
                    &&& al_find(self.db.propose_s(), k) is None
                } else {
                    al_find(self.db.contracts_s(), k) == al_find(old(self).db.contracts_s(), k)
                }
            } by {
                if old(self).decryption_due(k) {
                    let jj = lemma_al_find_first(old(self).db.contracts_s(), k);
                    let mm = choose|mm: int|
                        0 <= mm < decisions@.len() && (#[trigger] decisions@[mm]).3@ == jj;
                    assert(decision_ok(
                        *old(self),
                        decisions@[mm],
                        old(self).db.contracts_s().len() as int,
                    ));
                    assert(decisions@[mm].0@ == k);
                } else {
                    assert forall|mm: int| 0 <= mm < decisions@.len() implies (
                    #[trigger] decisions@[mm]).0@ != k by {
                        assert(decision_ok(
                            *old(self),
                            decisions@[mm],
                            old(self).db.contracts_s().len() as int,
                        ));
                    }
                }
            }
            assert forall|k: Seq<u8>|
                al_find(old(self).db.contracts_s(), k) is None implies (#[trigger] al_find(
                self.db.contracts_s(),
                k,
            )) is None by {
                assert forall|mm: int| 0 <= mm < decisions@.len() implies (
                #[trigger] decisions@[mm]).0@ != k by {
                    assert(decision_ok(
                        *old(self),
                        decisions@[mm],
                        old(self).db.contracts_s().len() as int,
                    ));
                }
            }
            assert forall|p: OutPointV|
                !old(self).due_outpoint(p) implies al_find(self.db.updates_s(), p) == al_find(
                old(self).db.updates_s(),
                p,
            ) by {
                assert forall|mm: int| 0 <= mm < decisions@.len() implies (
                #[trigger] decisions@[mm]).1@ != p by {
                    let dd = decisions@[mm];
                    assert(decision_ok(
                        *old(self),
                        dd,
                        old(self).db.contracts_s().len() as int,
                    ));
                    assert(old(self).decryption_due(dd.0@) && (al_find(
                        old(self).db.contracts_s(),
                        dd.0@,
                    )->0).contract->Incoming_0.out_point == dd.1@);
                    assert(old(self).due_outpoint(dd.1@));
                }
            }
            assert forall|k: Seq<u8>|
                !old(self).decryption_due(k) implies al_find(self.db.propose_s(), k) == al_find(
                old(self).db.propose_s(),
                k,
            ) by {
                assert forall|mm: int| 0 <= mm < decisions@.len() implies (
                #[trigger] decisions@[mm]).0@ != k by {
                    assert(decision_ok(
                        *old(self),
                        decisions@[mm],
                        old(self).db.contracts_s().len() as int,
                    ));
                }
            }
            // The invariant survives.
            assert forall|jx: int|
                0 <= jx < self.db.agreed_s().len() implies is_incoming_at(
                self.db.contracts_s(),
                (#[trigger] self.db.agreed_s()[jx]).0.0,
            ) by {
                let k = self.db.agreed_s()[jx].0.0;
                assert(is_incoming_at(old(self).db.contracts_s(), k));
            }
            assert forall|k: Seq<u8>|
                (#[trigger] al_find(self.db.contracts_s(), k)) is Some implies match al_find(
                self.db.contracts_s(),
                k,
            )->0.contract {
                FundedContractV::Incoming(f) => al_find(self.db.updates_s(), f.out_point) == Some(
                    OutputOutcomeV::Contract {
                        id: k,
                        outcome: ContractOutcomeV::Incoming(f.contract.decrypted_preimage),
                    },
                ),
                _ => true,
            } by {
                assert(al_find(old(self).db.contracts_s(), k) is Some);
                let acc_old = al_find(old(self).db.contracts_s(), k)->0;
                if !old(self).decryption_due(k) {
                    match acc_old.contract {
                        FundedContractV::Incoming(f) => {
                            assert(!old(self).due_outpoint(f.out_point)) by {
                                if old(self).due_outpoint(f.out_point) {
                                    let k2 = choose|k2: Seq<u8>|
                                        #[trigger] old(self).decryption_due(k2) && (al_find(
                                            old(self).db.contracts_s(),
                                            k2,
                                        )->0).contract->Incoming_0.out_point == f.out_point;
                                    assert(al_find(old(self).db.updates_s(), f.out_point)
                                        == Some(
                                        OutputOutcomeV::Contract {
                                            id: k,
                                            outcome: ContractOutcomeV::Incoming(
                                                f.contract.decrypted_preimage,
                                            ),
                                        },
                                    ));
                                    let acc2 = al_find(old(self).db.contracts_s(), k2)->0;
                                    let f2 = acc2.contract->Incoming_0;
                                    assert(al_find(old(self).db.updates_s(), f2.out_point)
                                        == Some(
                                        OutputOutcomeV::Contract {
                                            id: k2,
                                            outcome: ContractOutcomeV::Incoming(
                                                f2.contract.decrypted_preimage,
                                            ),
                                        },
                                    ));
                                    assert(k2 == k);
                                }
                            }
                        },
                        _ => {},
                    }
                }
            }
        }
        Ok(())
    }
}

/// Shares accumulate across epochs: a pending incoming contract that is
/// one share short of the threshold becomes due for decryption the
/// moment one more peer's share for it is accepted, with everything else
/// about the state unchanged. Together with the begin- and end-epoch
/// contracts this is the two-epoch completion: shares left in place by
/// one epoch count fully in the next.
pub proof fn lemma_next_share_makes_due(
    pre: LightningModule,
    post: LightningModule,
    k: Seq<u8>,
    peer: u64,
    share: Seq<u8>,
)
    requires
        match al_find(pre.db.contracts_s(), k) {
            Some(acc) => match acc.contract {
                FundedContractV::Incoming(f) => f.contract.decrypted_preimage is Pending,
                _ => false,
            },
            None => false,
        },
        shares_for(pre.db.agreed_s(), k).len() + 1 >= pre.cfg.threshold,
        post.cfg == pre.cfg,
        post.db.contracts_s() == pre.db.contracts_s(),
        post.db.agreed_s() == pre.db.agreed_s().push(((k, peer), share)),
    ensures
        post.decryption_due(k),
{
    lemma_shares_for_push(pre.db.agreed_s(), ((k, peer), share), k);
}

/// A revealed preimage is never arbitrary: whenever classification
/// yields a decrypted preimage, it is exactly 32 bytes, hashes to the
/// contract's payment hash, and parses as a Schnorr public key — on any
/// other plaintext the contract is uniformly marked invalid, never left
/// pending.
pub proof fn lemma_revealed_preimage_matches_hash(pt: Seq<u8>, hash: Seq<u8>)
    ensures
        match classify_preimage(pt, hash) {
            DecryptedPreimageV::Valid(k) => k == pt && k.len() == 32 && sha256_of(k) == hash
                && schnorr_key_valid(k),
            DecryptedPreimageV::Invalid => pt.len() != 32 || sha256_of(pt) != hash
                || !schnorr_key_valid(pt),
            DecryptedPreimageV::Pending => false,
        },
{
}

} // verus!
