//! The transfer-and-confirm protocol: a transfer is asked of the asset contract, the engine
//! waits for the acknowledgement, and only then commits what has left custody or rolls back.

use vstd::prelude::*;

use crate::pool::PayoutView;
use crate::token::{AccountId, StakeId, StakeIdView, TransferCall, TransferCallView};

verus! {

/// What is remembered of a transfer while the asset contract works on it. It travels with the
/// call and comes back with the acknowledgement; the engine keeps no table of transfers.
#[derive(Debug, PartialEq, Eq)]
pub struct PendingTransfer {
    /// The handle of the ledger entry that holds the asset.
    pub stake_id: StakeId,
    /// The account whose ledger holds the entry.
    pub staker_id: AccountId,
    /// Who is to receive the asset.
    pub receiver_id: AccountId,
    /// The amount asked for; `None` asks for the whole handle.
    pub amount: Option<u128>,
}

/// Mathematical value of a [`PendingTransfer`].
pub struct PendingTransferView {
    pub stake_id: StakeIdView,
    pub staker_id: Seq<char>,
    pub receiver_id: Seq<char>,
    pub amount: Option<u128>,
}

impl PendingTransferView {
    /// The amount that the asset contract was asked to move.
    pub open spec fn requested(self) -> u128 {
        self.stake_id.transfer_amount(self.amount)
    }

    /// Whether the transfer asks for more than the handle holds.
    pub open spec fn overdrawn(self) -> bool {
        self.stake_id.amount() is Some && self.requested() > self.stake_id.balance()
    }
}

impl View for PendingTransfer {
    type V = PendingTransferView;

    open spec fn view(&self) -> PendingTransferView {
        PendingTransferView {
            stake_id: self.stake_id@,
            staker_id: self.staker_id@,
            receiver_id: self.receiver_id@,
            amount: self.amount,
        }
    }
}

impl DeepView for PendingTransfer {
    type V = PendingTransferView;

    open spec fn deep_view(&self) -> PendingTransferView {
        self@
    }
}

impl Clone for PendingTransfer {
    fn clone(&self) -> (copy: Self)
        ensures
            copy == *self,
    {
        PendingTransfer {
            stake_id: self.stake_id.clone(),
            staker_id: self.staker_id.clone(),
            receiver_id: self.receiver_id.clone(),
            amount: self.amount,
        }
    }
}

/// A transfer to perform: the call to make, and what to hand back with its acknowledgement.
#[derive(Debug, PartialEq, Eq)]
pub struct TransferRequest {
    pub pending: PendingTransfer,
    pub call: TransferCall,
}

/// Mathematical value of a [`TransferRequest`].
pub struct TransferRequestView {
    pub pending: PendingTransferView,
    pub call: TransferCallView,
}

impl TransferRequestView {
    /// The edge of the payout graph that the request serves.
    pub open spec fn payout(self) -> PayoutView {
        PayoutView {
            receiver: self.pending.receiver_id,
            stake: self.pending.stake_id,
            staker: self.pending.staker_id,
        }
    }
}

impl View for TransferRequest {
    type V = TransferRequestView;

    open spec fn view(&self) -> TransferRequestView {
        TransferRequestView { pending: self.pending@, call: self.call@ }
    }
}

impl DeepView for TransferRequest {
    type V = TransferRequestView;

    open spec fn deep_view(&self) -> TransferRequestView {
        self@
    }
}

/// The request that moves `amount` of the stake `stake_id` of `staker_id` to `receiver_id`,
/// with `msg` handed through to the receiver.
pub open spec fn transfer_request(
    stake_id: StakeIdView,
    staker_id: Seq<char>,
    receiver_id: Seq<char>,
    msg: Seq<char>,
    amount: Option<u128>,
) -> Option<TransferRequestView> {
    match stake_id.transfer_call(receiver_id, msg, amount) {
        Ok(call) => Some(
            TransferRequestView {
                pending: PendingTransferView { stake_id, staker_id, receiver_id, amount },
                call,
            },
        ),
        Err(_) => None,
    }
}

/// What the asset contract reported of a transfer.
#[derive(Debug, PartialEq, Eq)]
pub enum TransferOutcome {
    /// The call failed. A failed call has moved nothing.
    Failed,
    /// The call succeeded and returned these bytes.
    Successful(Vec<u8>),
}

/// How a transfer ended. Before the asset contract is called the transfer is idle; while the
/// contract works on it the engine awaits the acknowledgement; and with the acknowledgement
/// the transfer ends in one of these two ways.
#[derive(Debug, PartialEq, Eq)]
pub enum Resolution {
    /// Nothing has moved, and the ledger is as it was.
    RolledBack,
    /// This much of the handle has left custody, and the ledger shows it.
    Committed { moved: StakeId },
}

/// The amounts that `payload` lists, as `serde_json` reads a JSON array of
/// `near_sdk::json_types::U128` from it: `None` where it reads no such array.
pub uninterp spec fn json_amounts(payload: Seq<u8>) -> Option<Seq<u128>>;

/// Reads `payload` as a JSON array of amounts, by `serde_json::from_slice` into a list of
/// `near_sdk::json_types::U128`. The contract names the result and claims nothing more of it:
/// it depends on `payload` alone.
#[verifier::external_body]
pub(crate) fn parse_amounts(payload: &Vec<u8>) -> (amounts: Option<Vec<u128>>)
    ensures
        amounts.deep_view() == json_amounts(payload@),
{
    match near_sdk::serde_json::from_slice::<Vec<near_sdk::json_types::U128>>(payload) {
        Ok(amounts) => Some(amounts.into_iter().map(|amount| amount.0).collect()),
        Err(_) => None,
    }
}

/// The unused amount that an acknowledgement reports: the first amount it lists, and none
/// where it lists nothing.
pub open spec fn reported_unused(amounts: Option<Seq<u128>>) -> Option<u128> {
    match amounts {
        Some(amounts) if amounts.len() > 0 => Some(amounts[0]),
        _ => None,
    }
}

/// What has left custody when `requested` was asked for and `unused` came back. An unused
/// amount above what was asked for is disregarded.
pub open spec fn moved_amount(requested: u128, unused: Option<u128>) -> u128 {
    match unused {
        Some(unused) if unused <= requested => (requested - unused) as u128,
        _ => requested,
    }
}

/// The unused amount that an acknowledgement reports.
pub fn unused_amount(amounts: &Option<Vec<u128>>) -> (unused: Option<u128>)
    ensures
        unused == reported_unused(amounts.deep_view()),
{
    match amounts {
        Some(amounts) => {
            if amounts.len() > 0 {
                Some(amounts[0])
            } else {
                None
            }
        },
        None => None,
    }
}

/// What has left custody when `requested` was asked for and `unused` came back.
pub fn moved(requested: u128, unused: Option<u128>) -> (moved: u128)
    ensures
        moved == moved_amount(requested, unused),
{
    match unused {
        Some(unused) => {
            if unused <= requested {
                requested - unused
            } else {
                requested
            }
        },
        None => requested,
    }
}

} // verus!
