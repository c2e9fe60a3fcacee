//! Core consensus logic of a federated Lightning-bridge module.
//!
//! The library models the module's replicated state (contract accounts,
//! offers, decryption shares and output outcomes) as typed tables, and
//! verifies the validation and application rules for transaction inputs
//! and outputs, the per-epoch threshold-decryption protocol, and the
//! conflict filter that deduplicates transaction inputs within an epoch.

use vstd::prelude::*;

pub mod conflictfilter;
pub mod contracts;
pub mod crypto;
pub mod module;
pub mod db;

verus! {

/// An amount of millisatoshis, the unit every contract account is
/// denominated in.
#[derive(Clone, Copy, Debug, PartialEq, Eq, Structural)]
pub struct Amount {
    pub msat: u64,
}

impl View for Amount {
    type V = Amount;

    open spec fn view(&self) -> Amount {
        *self
    }
}

/// Stable identifier of one output of one transaction: the transaction's
/// 32-byte id together with the output index inside it.
#[derive(Clone, Debug)]
pub struct OutPoint {
    pub txid: Vec<u8>,
    pub out_idx: u64,
}

/// Mathematical model of an `OutPoint`.
pub ghost struct OutPointV {
    pub txid: Seq<u8>,
    pub out_idx: u64,
}

impl View for OutPoint {
    type V = OutPointV;

    open spec fn view(&self) -> OutPointV {
        OutPointV { txid: self.txid@, out_idx: self.out_idx }
    }
}

/// Byte-wise equality of two byte strings, decided executably and
/// reflected as equality of their mathematical views.
pub fn bytes_eq(a: &Vec<u8>, b: &Vec<u8>) -> (r: bool)
    ensures
        r == (a@ == b@),
{
    if a.len() != b.len() {
        return false;
    }
    let mut i: usize = 0;
    while i < a.len()
        invariant
            i <= a@.len(),
            a@.len() == b@.len(),
            forall|j: int| 0 <= j < i ==> a@[j] == b@[j],
        decreases a@.len() - i,
    {
        if a[i] != b[i] {
            return false;
        }
        i = i + 1;
    }
    proof {
        assert(a@ =~= b@);
    }
    true
}

/// Equality of out-points, decided executably.
pub fn outpoint_eq(a: &OutPoint, b: &OutPoint) -> (r: bool)
    ensures
        r == (a@ == b@),
{
    bytes_eq(&a.txid, &b.txid) && a.out_idx == b.out_idx
}

} // verus!
