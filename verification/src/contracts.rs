//! The three flavors of contract account custodied by the module, the
//! offers that incoming contracts are funded against, and the canonical
//! binary encoding from which every contract's stable identifier is
//! derived.

use vstd::prelude::*;

use crate::crypto::sha256;
use crate::crypto::sha256_of;
use crate::Amount;
use crate::OutPoint;
use crate::OutPointV;

verus! {

/// The stable identifier of a contract: the SHA-256 digest of the
/// canonical encoding of its immutable fields.
pub type ContractId = Vec<u8>;

/// Tag byte of an outgoing contract in the canonical encoding.
pub const TAG_OUTGOING: u8 = 0;

/// Tag byte of an account contract in the canonical encoding.
pub const TAG_ACCOUNT: u8 = 1;

/// Tag byte of an incoming contract in the canonical encoding.
pub const TAG_INCOMING: u8 = 2;

/// An HTLC-style escrow for paying out over Lightning: spendable by the
/// gateway with the payment preimage before the timelock expires, and by
/// the user afterwards.
#[derive(Debug)]
pub struct OutgoingContract {
    /// SHA-256 payment hash the preimage must match.
    pub hash: Vec<u8>,
    /// Block height from which the user may reclaim the funds.
    pub timelock: u32,
    pub gateway_key: Vec<u8>,
    pub user_key: Vec<u8>,
}

/// A simple account spendable by its key.
#[derive(Debug)]
pub struct AccountContract {
    pub key: Vec<u8>,
}

/// The state of an incoming contract's threshold-decrypted preimage.
#[derive(Debug)]
pub enum DecryptedPreimage {
    Pending,
    Valid(Preimage),
    Invalid,
}

/// A decrypted preimage: the 32 bytes of a valid Schnorr public key.
#[derive(Debug)]
pub struct Preimage {
    pub key: Vec<u8>,
}

/// The reverse direction: funds that are released to whoever sold a
/// valid preimage once the federation has decrypted it.
#[derive(Debug)]
pub struct IncomingContract {
    /// Hash the decrypted preimage is expected to match.
    pub hash: Vec<u8>,
    /// Threshold-encrypted preimage, in serialized form.
    pub encrypted_preimage: Vec<u8>,
    /// Outcome of the threshold decryption. In the replicated state it
    /// starts out `Pending` and is set by the module alone: whatever a
    /// funder submits in this field is discarded when the contract is
    /// funded.
    pub decrypted_preimage: DecryptedPreimage,
    /// Key the gateway may claim the funds back with if the preimage
    /// turns out invalid.
    pub gateway_key: Vec<u8>,
}

/// A pre-registered advertisement that any party may fund by creating a
/// matching incoming contract.
#[derive(Debug)]
pub struct IncomingContractOffer {
    pub amount: Amount,
    pub hash: Vec<u8>,
    pub encrypted_preimage: Vec<u8>,
}

/// A contract as it appears in a transaction output.
#[derive(Debug)]
pub enum Contract {
    Outgoing(OutgoingContract),
    Account(AccountContract),
    Incoming(IncomingContract),
}

/// An incoming contract as stored in the replicated state, together with
/// the transaction output that created it.
#[derive(Debug)]
pub struct FundedIncomingContract {
    pub contract: IncomingContract,
    pub out_point: OutPoint,
}

/// A contract as stored in the replicated state.
#[derive(Debug)]
pub enum FundedContract {
    Outgoing(OutgoingContract),
    Account(AccountContract),
    Incoming(FundedIncomingContract),
}

/// Per-output summary of what funding a contract produced.
#[derive(Debug)]
pub enum ContractOutcome {
    Outgoing,
    Account,
    Incoming(DecryptedPreimage),
}

// ------------------------------------------------------------------
// Mathematical models.
// ------------------------------------------------------------------

pub ghost struct OutgoingContractV {
    pub hash: Seq<u8>,
    pub timelock: u32,
    pub gateway_key: Seq<u8>,
    pub user_key: Seq<u8>,
}

pub ghost struct AccountContractV {
    pub key: Seq<u8>,
}

pub ghost enum DecryptedPreimageV {
    Pending,
    Valid(Seq<u8>),
    Invalid,
}

pub ghost struct IncomingContractV {
    pub hash: Seq<u8>,
    pub encrypted_preimage: Seq<u8>,
    pub decrypted_preimage: DecryptedPreimageV,
    pub gateway_key: Seq<u8>,
}

pub ghost struct IncomingContractOfferV {
    pub amount: Amount,
    pub hash: Seq<u8>,
    pub encrypted_preimage: Seq<u8>,
}

pub ghost enum ContractV {
    Outgoing(OutgoingContractV),
    Account(AccountContractV),
    Incoming(IncomingContractV),
}

pub ghost struct FundedIncomingContractV {
    pub contract: IncomingContractV,
    pub out_point: OutPointV,
}

pub ghost enum FundedContractV {
    Outgoing(OutgoingContractV),
    Account(AccountContractV),
    Incoming(FundedIncomingContractV),
}

pub ghost enum ContractOutcomeV {
    Outgoing,
    Account,
    Incoming(DecryptedPreimageV),
}

impl View for OutgoingContract {
    type V = OutgoingContractV;

    open spec fn view(&self) -> OutgoingContractV {
        OutgoingContractV {
            hash: self.hash@,
            timelock: self.timelock,
            gateway_key: self.gateway_key@,
            user_key: self.user_key@,
        }
    }
}

impl View for AccountContract {
    type V = AccountContractV;

    open spec fn view(&self) -> AccountContractV {
        AccountContractV { key: self.key@ }
    }
}

impl View for DecryptedPreimage {
    type V = DecryptedPreimageV;

    open spec fn view(&self) -> DecryptedPreimageV {
        match self {
            DecryptedPreimage::Pending => DecryptedPreimageV::Pending,
            DecryptedPreimage::Valid(p) => DecryptedPreimageV::Valid(p.key@),
            DecryptedPreimage::Invalid => DecryptedPreimageV::Invalid,
        }
    }
}

impl View for IncomingContract {
    type V = IncomingContractV;

    open spec fn view(&self) -> IncomingContractV {
        IncomingContractV {
            hash: self.hash@,
            encrypted_preimage: self.encrypted_preimage@,
            decrypted_preimage: self.decrypted_preimage@,
            gateway_key: self.gateway_key@,
        }
    }
}

impl View for IncomingContractOffer {
    type V = IncomingContractOfferV;

    open spec fn view(&self) -> IncomingContractOfferV {
        IncomingContractOfferV {
            amount: self.amount,
            hash: self.hash@,
            encrypted_preimage: self.encrypted_preimage@,
        }
    }
}

impl View for Contract {
    type V = ContractV;

    open spec fn view(&self) -> ContractV {
        match self {
            Contract::Outgoing(c) => ContractV::Outgoing(c@),
            Contract::Account(c) => ContractV::Account(c@),
            Contract::Incoming(c) => ContractV::Incoming(c@),
        }
    }
}

impl View for FundedIncomingContract {
    type V = FundedIncomingContractV;

    open spec fn view(&self) -> FundedIncomingContractV {
        FundedIncomingContractV { contract: self.contract@, out_point: self.out_point@ }
    }
}

impl View for FundedContract {
    type V = FundedContractV;

    open spec fn view(&self) -> FundedContractV {
        match self {
            FundedContract::Outgoing(c) => FundedContractV::Outgoing(c@),
            FundedContract::Account(c) => FundedContractV::Account(c@),
            FundedContract::Incoming(c) => FundedContractV::Incoming(c@),
        }
    }
}

impl View for ContractOutcome {
    type V = ContractOutcomeV;

    open spec fn view(&self) -> ContractOutcomeV {
        match self {
            ContractOutcome::Outgoing => ContractOutcomeV::Outgoing,
            ContractOutcome::Account => ContractOutcomeV::Account,
            ContractOutcome::Incoming(p) => ContractOutcomeV::Incoming(p@),
        }
    }
}

// ------------------------------------------------------------------
// Canonical encoding and contract identifiers.
// ------------------------------------------------------------------

/// Big-endian encoding of a 32-bit integer.
pub open spec fn be4(x: u32) -> Seq<u8> {
    seq![(x >> 24) as u8, (x >> 16) as u8, (x >> 8) as u8, x as u8]
}

/// Big-endian encoding of a 64-bit integer.
pub open spec fn be8(x: u64) -> Seq<u8> {
    seq![
        (x >> 56) as u8,
        (x >> 48) as u8,
        (x >> 40) as u8,
        (x >> 32) as u8,
        (x >> 24) as u8,
        (x >> 16) as u8,
        (x >> 8) as u8,
        x as u8,
    ]
}

/// Canonical encoding of a contract's immutable fields. The decrypted
/// preimage of an incoming contract is mutable state and deliberately not
/// part of it.
pub open spec fn encode_contract(c: ContractV) -> Seq<u8> {
    match c {
        ContractV::Outgoing(o) => seq![TAG_OUTGOING] + o.hash + be4(o.timelock) + o.gateway_key
            + o.user_key,
        ContractV::Account(a) => seq![TAG_ACCOUNT] + a.key,
        ContractV::Incoming(i) => seq![TAG_INCOMING] + i.hash + be8(
            i.encrypted_preimage.len() as u64,
        ) + i.encrypted_preimage + i.gateway_key,
    }
}

/// The stable identifier of a contract.
pub open spec fn contract_id_of(c: ContractV) -> Seq<u8> {
    sha256_of(encode_contract(c))
}

/// Appends the bytes of `data` to `out`.
pub fn push_bytes(out: &mut Vec<u8>, data: &Vec<u8>)
    ensures
        final(out)@ == old(out)@ + data@,
{
    let mut i: usize = 0;
    while i < data.len()
        invariant
            i <= data@.len(),
            out@ == old(out)@ + data@.subrange(0, i as int),
        decreases data@.len() - i,
    {
        out.push(data[i]);
        proof {
            assert(old(out)@ + data@.subrange(0, i as int) + seq![data@[i as int]] =~= old(out)@
                + data@.subrange(0, i + 1 as int));
        }
        i = i + 1;
    }
    proof {
        assert(data@.subrange(0, data@.len() as int) =~= data@);
    }
}

/// Appends the big-endian encoding of a 32-bit integer to `out`.
pub fn push_be4(out: &mut Vec<u8>, x: u32)
    ensures
        final(out)@ == old(out)@ + be4(x),
{
    out.push((x >> 24) as u8);
    out.push((x >> 16) as u8);
    out.push((x >> 8) as u8);
    out.push(x as u8);
    proof {
        assert(out@ =~= old(out)@ + be4(x));
    }
}

/// Appends the big-endian encoding of a 64-bit integer to `out`.
pub fn push_be8(out: &mut Vec<u8>, x: u64)
    ensures
        final(out)@ == old(out)@ + be8(x),
{
    out.push((x >> 56) as u8);
    out.push((x >> 48) as u8);
    out.push((x >> 40) as u8);
    out.push((x >> 32) as u8);
    out.push((x >> 24) as u8);
    out.push((x >> 16) as u8);
    out.push((x >> 8) as u8);
    out.push(x as u8);
    proof {
        assert(out@ =~= old(out)@ + be8(x));
    }
}

/// Copies a byte string.
pub fn copy_bytes(data: &Vec<u8>) -> (r: Vec<u8>)
    ensures
        r@ == data@,
{
    let mut out: Vec<u8> = Vec::new();
    push_bytes(&mut out, data);
    proof {
        assert(Seq::<u8>::empty() + data@ =~= data@);
    }
    out
}

impl Contract {
    /// The canonical encoding of the contract's immutable fields.
    pub fn encode_canonical(&self) -> (r: Vec<u8>)
        ensures
            r@ == encode_contract(self@),
    {
        let mut out: Vec<u8> = Vec::new();
        match self {
            Contract::Outgoing(o) => {
                out.push(TAG_OUTGOING);
                push_bytes(&mut out, &o.hash);
                push_be4(&mut out, o.timelock);
                push_bytes(&mut out, &o.gateway_key);
                push_bytes(&mut out, &o.user_key);
            },
            Contract::Account(a) => {
                out.push(TAG_ACCOUNT);
                push_bytes(&mut out, &a.key);
            },
            Contract::Incoming(i) => {
                out.push(TAG_INCOMING);
                push_bytes(&mut out, &i.hash);
                push_be8(&mut out, i.encrypted_preimage.len() as u64);
                push_bytes(&mut out, &i.encrypted_preimage);
                push_bytes(&mut out, &i.gateway_key);
            },
        }
        proof {
            assert(out@ =~= encode_contract(self@));
        }
        out
    }

    /// The stable identifier of the contract: the SHA-256 digest of its
    /// canonical encoding.
    pub fn contract_id(&self) -> (r: ContractId)
        ensures
            r@ == contract_id_of(self@),
            r@.len() == 32,
    {
        let encoded = self.encode_canonical();
        sha256(&encoded)
    }

    /// Attaches the creating out-point, turning the contract into the
    /// form stored in the replicated state. An incoming contract always
    /// enters the state with a `Pending` preimage, whatever its funder
    /// submitted.
    pub fn to_funded(self, out_point: OutPoint) -> (r: FundedContract)
        ensures
            r@ == to_funded_spec(self@, out_point@),
    {
        match self {
            Contract::Outgoing(o) => FundedContract::Outgoing(o),
            Contract::Account(a) => FundedContract::Account(a),
            Contract::Incoming(i) => FundedContract::Incoming(
                FundedIncomingContract {
                    contract: IncomingContract {
                        hash: i.hash,
                        encrypted_preimage: i.encrypted_preimage,
                        decrypted_preimage: DecryptedPreimage::Pending,
                        gateway_key: i.gateway_key,
                    },
                    out_point,
                },
            ),
        }
    }

    /// The outcome recorded for the output that funds this contract; an
    /// incoming contract's outcome starts as `Pending`.
    pub fn to_outcome(&self) -> (r: ContractOutcome)
        ensures
            r@ == to_outcome_spec(self@),
    {
        match self {
            Contract::Outgoing(_) => ContractOutcome::Outgoing,
            Contract::Account(_) => ContractOutcome::Account,
            Contract::Incoming(_) => ContractOutcome::Incoming(DecryptedPreimage::Pending),
        }
    }
}

/// The funded form of a freshly created contract. An incoming contract
/// remembers the out-point that funded it and starts with a `Pending`
/// preimage, whatever state its funder submitted.
pub open spec fn to_funded_spec(c: ContractV, out_point: OutPointV) -> FundedContractV {
    match c {
        ContractV::Outgoing(o) => FundedContractV::Outgoing(o),
        ContractV::Account(a) => FundedContractV::Account(a),
        ContractV::Incoming(i) => FundedContractV::Incoming(
            FundedIncomingContractV {
                contract: IncomingContractV {
                    hash: i.hash,
                    encrypted_preimage: i.encrypted_preimage,
                    decrypted_preimage: DecryptedPreimageV::Pending,
                    gateway_key: i.gateway_key,
                },
                out_point,
            },
        ),
    }
}

/// The outcome recorded when a contract of the given kind is funded; an
/// incoming contract's outcome starts as `Pending`.
pub open spec fn to_outcome_spec(c: ContractV) -> ContractOutcomeV {
    match c {
        ContractV::Outgoing(_) => ContractOutcomeV::Outgoing,
        ContractV::Account(_) => ContractOutcomeV::Account,
        ContractV::Incoming(_) => ContractOutcomeV::Incoming(DecryptedPreimageV::Pending),
    }
}

impl DecryptedPreimage {
    /// Copies the value.
    pub fn duplicate(&self) -> (r: DecryptedPreimage)
        ensures
            r@ == self@,
    {
        match self {
            DecryptedPreimage::Pending => DecryptedPreimage::Pending,
            DecryptedPreimage::Valid(p) => DecryptedPreimage::Valid(
                Preimage { key: copy_bytes(&p.key) },
            ),
            DecryptedPreimage::Invalid => DecryptedPreimage::Invalid,
        }
    }
}

impl IncomingContractOffer {
    /// Copies the offer.
    pub fn duplicate(&self) -> (r: IncomingContractOffer)
        ensures
            r@ == self@,
    {
        IncomingContractOffer {
            amount: self.amount,
            hash: copy_bytes(&self.hash),
            encrypted_preimage: copy_bytes(&self.encrypted_preimage),
        }
    }
}

impl Contract {
    /// Copies the contract.
    pub fn duplicate(&self) -> (r: Contract)
        ensures
            r@ == self@,
    {
        match self {
            Contract::Outgoing(o) => Contract::Outgoing(
                OutgoingContract {
                    hash: copy_bytes(&o.hash),
                    timelock: o.timelock,
                    gateway_key: copy_bytes(&o.gateway_key),
                    user_key: copy_bytes(&o.user_key),
                },
            ),
            Contract::Account(a) => Contract::Account(AccountContract { key: copy_bytes(&a.key) }),
            Contract::Incoming(i) => Contract::Incoming(
                IncomingContract {
                    hash: copy_bytes(&i.hash),
                    encrypted_preimage: copy_bytes(&i.encrypted_preimage),
                    decrypted_preimage: i.decrypted_preimage.duplicate(),
                    gateway_key: copy_bytes(&i.gateway_key),
                },
            ),
        }
    }
}

impl ContractOutcome {
    /// Copies the outcome.
    pub fn duplicate(&self) -> (r: ContractOutcome)
        ensures
            r@ == self@,
    {
        match self {
            ContractOutcome::Outgoing => ContractOutcome::Outgoing,
            ContractOutcome::Account => ContractOutcome::Account,
            ContractOutcome::Incoming(p) => ContractOutcome::Incoming(p.duplicate()),
        }
    }
}

impl OutPoint {
    /// Copies the out-point.
    pub fn duplicate(&self) -> (r: OutPoint)
        ensures
            r@ == self@,
    {
        OutPoint { txid: copy_bytes(&self.txid), out_idx: self.out_idx }
    }
}

} // verus!
