//! What holds of the contract whatever is asked of it: custody is conserved, nobody is paid
//! their own stake, an active pool takes no stakes, a resolution touches one outcome only, a
//! pool in use stays, and a failed transfer changes nothing.

use vstd::prelude::*;

use crate::contract::{batch_stakes, ContractView};
use crate::error::StakeErrorView;
use crate::ledger::{
    bind_entry, holds, holds_unbound, lemma_bind_keeps, lemma_register_adds,
    lemma_settle_removes, lemma_unregister_removes, left_behind, register_entries,
    register_entry, settle_entry, slot_share, slot_total, take_entry, unbound, unbound_covering,
    unbound_in_slot, unregister_entry, LedgerView, StakeEntryView,
};
use crate::search::{first_index, lemma_first_index_spec};
use crate::pool::{
    add_stake_spec, drained, fresh_stakes, owed_under, receiver_for, rewards_of, self_receiving,
    with_stake, PoolView, RewardView, StakesView,
};
use crate::resolution::{
    json_amounts, moved_amount, reported_unused, PendingTransferView, TransferOutcome,
};
use crate::staking::StakeManagementView;
use crate::token::{StakeIdView, TokenTypeView};

verus! {

/// What the ledger of `account` holds in the slot of `slot`: nothing where it has no ledger.
pub open spec fn custody(
    staking: StakeManagementView,
    account: Seq<char>,
    slot: StakeIdView,
) -> int {
    if staking.stakes.dom().contains(account) {
        slot_total(staking.stakes[account], slot)
    } else {
        0
    }
}

/// What a deposit or withdrawal of `stake` is worth in the slot of `slot`.
pub open spec fn worth(stake: StakeIdView, slot: StakeIdView) -> int {
    slot_share(unbound(stake), slot)
}

/// Merging adds balances, and splitting takes from them: neither makes nor loses value.
pub proof fn lemma_merge_split_conserve(a: StakeIdView, b: StakeIdView, amount: u128)
    ensures
        a.merged(b) matches Some(merged) ==> merged.balance() == a.balance() + b.balance()
            && merged.same_slot(a),
        a.rest(amount) matches Some(rest) ==> rest.balance() + amount == a.balance()
            && rest.same_slot(a),
        a.amount() is None ==> a.merged(b) is None && a.rest(amount) is None,
{
}

/// A registration adds the balance of the stake to the slot of the stake in the ledger of the
/// staker, and changes nothing else that any ledger holds.
pub proof fn lemma_register_stake_deposits(
    staking: StakeManagementView,
    stake_id: StakeIdView,
    staker_id: Seq<char>,
    account: Seq<char>,
    slot: StakeIdView,
)
    ensures
        staking.register_stake(stake_id, staker_id) matches Ok(after) ==> custody(
            after,
            account,
            slot,
        ) == custody(staking, account, slot) + if account == staker_id {
            worth(stake_id, slot)
        } else {
            0
        },
{
    if staking.stakes.dom().contains(staker_id) {
        lemma_register_adds(staking.stakes[staker_id], stake_id, slot);
    }
}

/// A batch of registrations adds up like its parts.
pub proof fn lemma_register_entries_add(
    ledger: LedgerView,
    stakes: Seq<StakeIdView>,
    slot: StakeIdView,
)
    ensures
        register_entries(ledger, stakes) matches Ok(after) ==> slot_total(after, slot)
            == slot_total(ledger, slot) + batch_worth(stakes, slot),
    decreases stakes.len(),
{
    if stakes.len() > 0 {
        lemma_register_entries_add(ledger, stakes.drop_last(), slot);
        if let Ok(registered) = register_entries(ledger, stakes.drop_last()) {
            lemma_register_adds(registered, stakes.last(), slot);
        }
    }
}

/// What a batch of deposits is worth in the slot of `slot`.
pub open spec fn batch_worth(stakes: Seq<StakeIdView>, slot: StakeIdView) -> int
    decreases stakes.len(),
{
    if stakes.len() == 0 {
        0
    } else {
        batch_worth(stakes.drop_last(), slot) + worth(stakes.last(), slot)
    }
}

/// Unregistering takes the balance of the stake from the slot of the stake in the ledger of
/// the staker. Where the stake is handed to another account, that account gains what the
/// staker loses; the ledgers of all others hold what they held.
pub proof fn lemma_unregister_stake_moves(
    staking: StakeManagementView,
    stake_id: StakeIdView,
    staker_id: Seq<char>,
    reregister: Option<Seq<char>>,
    account: Seq<char>,
    slot: StakeIdView,
)
    ensures
        staking.unregister_stake(stake_id, staker_id, reregister) matches Ok(after) ==> custody(
            after,
            account,
            slot,
        ) == custody(staking, account, slot) - (if account == staker_id {
            worth(stake_id, slot)
        } else {
            0
        }) + (if reregister == Some(account) {
            worth(stake_id, slot)
        } else {
            0
        }),
{
    if staking.stakes.dom().contains(staker_id) {
        lemma_unregister_removes(staking.stakes[staker_id], stake_id, slot);
        if let Some(receiver_id) = reregister {
            if staking.stakes.dom().contains(receiver_id) {
                lemma_register_adds(staking.stakes[receiver_id], stake_id, slot);
            }
        }
    }
}

/// Staking binds a ledger entry and moves nothing: every ledger holds what it held.
pub proof fn lemma_stake_keeps_custody(
    staking: StakeManagementView,
    stake_id: StakeIdView,
    staker_id: Seq<char>,
    pool_result: Seq<char>,
    pool_id: Seq<char>,
    receivers: Seq<(Seq<char>, Seq<char>)>,
    default_receiver: Seq<char>,
    account: Seq<char>,
    slot: StakeIdView,
)
    ensures
        staking.stake(
            stake_id,
            staker_id,
            pool_result,
            pool_id,
            receivers,
            default_receiver,
        ) matches Ok(after) ==> custody(after, account, slot) == custody(staking, account, slot),
{
    if staking.stakes.dom().contains(staker_id) {
        lemma_bind_keeps(staking.stakes[staker_id], stake_id, pool_id, slot);
    }
}

/// A committed transfer takes what has left custody from the slot of the stake in the ledger
/// of the staker, and nothing else from any ledger: no ledger gains by it.
pub proof fn lemma_commit_transfer_withdraws(
    staking: StakeManagementView,
    pending: PendingTransferView,
    unused: Option<u128>,
    account: Seq<char>,
    slot: StakeIdView,
)
    ensures
        staking.commit_transfer(pending, unused) matches Ok(after) ==> custody(after, account, slot)
            == custody(staking, account, slot) - if account == pending.staker_id {
            worth(pending.stake_id.with_balance(moved_amount(pending.requested(), unused)), slot)
        } else {
            0
        },
{
    if !pending.overdrawn() && staking.stakes.dom().contains(pending.staker_id) {
        lemma_settle_removes(
            staking.stakes[pending.staker_id],
            pending.stake_id,
            moved_amount(pending.requested(), unused),
            slot,
        );
    }
}

/// What happens to pools moves nothing: creating, opening, closing, settling the result of,
/// resolving and removing a pool leave every ledger as it is.
pub proof fn lemma_pools_keep_ledgers(
    staking: StakeManagementView,
    pool_id: Seq<char>,
    owner: Seq<char>,
    pool_results: Seq<Seq<char>>,
    required_xp: u128,
    toggle: bool,
    pool_result: Option<Seq<char>>,
)
    ensures
        staking.create_pool(pool_id, owner, pool_results, required_xp) matches Ok(after)
            ==> after.stakes == staking.stakes,
        staking.toggle_pool_active(pool_id, toggle) matches Ok(after) ==> after.stakes
            == staking.stakes,
        staking.assert_pool_result(pool_id, pool_result) matches Ok(after) ==> after.stakes
            == staking.stakes,
        staking.distribute_stakes(pool_id) matches Ok(after) ==> after.stakes == staking.stakes,
        staking.remove_pool(pool_id) matches Ok(after) ==> after.stakes == staking.stakes,
{
}

/// One thing that is asked of the contract and may change it.
#[allow(inconsistent_fields)]
pub enum Step {
    Register { caller: Seq<char>, account_id: Option<Seq<char>> },
    CreatePool {
        caller: Seq<char>,
        pool_id: Seq<char>,
        pool_results: Seq<Seq<char>>,
        required_xp: u128,
    },
    Stake {
        caller: Seq<char>,
        stake_id: StakeIdView,
        staker_id: Seq<char>,
        pool_result: Seq<char>,
        pool_id: Seq<char>,
        receivers: Seq<(Seq<char>, Seq<char>)>,
    },
    RegisterStake { caller: Seq<char>, stake_id: StakeIdView, staker_id: Seq<char> },
    UnregisterStake {
        caller: Seq<char>,
        stake_id: StakeIdView,
        staker_id: Seq<char>,
        reregister: Option<Seq<char>>,
    },
    TogglePoolActive { caller: Seq<char>, pool_id: Seq<char>, toggle: bool },
    AssertPoolResult { caller: Seq<char>, pool_id: Seq<char>, pool_result: Option<Seq<char>> },
    DistributeStakes { caller: Seq<char>, pool_id: Seq<char> },
    RemovePool { caller: Seq<char>, pool_id: Seq<char> },
    Deposit { caller: Seq<char>, sender_id: Seq<char>, token: TokenTypeView },
    DepositBatch {
        caller: Seq<char>,
        sender_id: Seq<char>,
        token_ids: Seq<Seq<char>>,
        amounts: Seq<u128>,
    },
    ResolveTransfer { caller: Seq<char>, pending: PendingTransferView, outcome: TransferOutcome },
}

/// The contract after the step, or why the step is refused.
pub open spec fn attempt(
    contract: ContractView,
    step: Step,
) -> Result<ContractView, StakeErrorView> {
    match step {
        Step::Register { caller, account_id } => contract.register(caller, account_id),
        Step::CreatePool { caller, pool_id, pool_results, required_xp } => contract.create_pool(
            caller,
            pool_id,
            pool_results,
            required_xp,
        ),
        Step::Stake {
            caller,
            stake_id,
            staker_id,
            pool_result,
            pool_id,
            receivers,
        } => contract.stake(caller, stake_id, staker_id, pool_result, pool_id, receivers),
        Step::RegisterStake { caller, stake_id, staker_id } => contract.register_stake(
            caller,
            stake_id,
            staker_id,
        ),
        Step::UnregisterStake {
            caller,
            stake_id,
            staker_id,
            reregister,
        } => contract.unregister_stake(caller, stake_id, staker_id, reregister),
        Step::TogglePoolActive { caller, pool_id, toggle } => contract.toggle_pool_active(
            caller,
            pool_id,
            toggle,
        ),
        Step::AssertPoolResult { caller, pool_id, pool_result } => contract.assert_pool_result(
            caller,
            pool_id,
            pool_result,
        ),
        Step::DistributeStakes { caller, pool_id } => contract.distribute_stakes(caller, pool_id),
        Step::RemovePool { caller, pool_id } => contract.remove_pool(caller, pool_id),
        Step::Deposit { caller, sender_id, token } => contract.deposit(caller, sender_id, token),
        Step::DepositBatch { caller, sender_id, token_ids, amounts } => contract.deposit_batch(
            caller,
            sender_id,
            token_ids,
            amounts,
        ),
        Step::ResolveTransfer { caller, pending, outcome } => contract.resolve_transfer(
            caller,
            pending,
            outcome,
        ),
    }
}

/// The contract after the step: a refused step leaves it as it is.
pub open spec fn after(contract: ContractView, step: Step) -> ContractView {
    match attempt(contract, step) {
        Ok(changed) => changed,
        Err(_) => contract,
    }
}

/// The contract after the steps, one after the other.
pub open spec fn run(contract: ContractView, steps: Seq<Step>) -> ContractView
    decreases steps.len(),
{
    if steps.len() == 0 {
        contract
    } else {
        after(run(contract, steps.drop_last()), steps.last())
    }
}

/// What the step brings into the slot of `slot` in the ledger of `account`, or takes out of it
/// where it is negative. Deposits bring in; a stake that is unregistered goes out, and comes
/// in where it is handed on; a confirmed transfer goes out. Nothing else moves anything, and
/// neither does a step that is refused.
pub open spec fn flow(
    contract: ContractView,
    step: Step,
    account: Seq<char>,
    slot: StakeIdView,
) -> int {
    if attempt(contract, step) is Err {
        0
    } else {
        match step {
            Step::RegisterStake { stake_id, staker_id, .. } => if account == staker_id {
                worth(stake_id, slot)
            } else {
                0
            },
            Step::Deposit { caller, sender_id, token } => if account == sender_id {
                worth(StakeIdView { contract_id: caller, token }, slot)
            } else {
                0
            },
            Step::DepositBatch { caller, sender_id, token_ids, amounts } => if account
                == sender_id {
                batch_worth(batch_stakes(caller, token_ids, amounts), slot)
            } else {
                0
            },
            Step::UnregisterStake { stake_id, staker_id, reregister, .. } => (if reregister
                == Some(account) {
                worth(stake_id, slot)
            } else {
                0
            }) - (if account == staker_id {
                worth(stake_id, slot)
            } else {
                0
            }),
            Step::ResolveTransfer {
                pending,
                outcome: TransferOutcome::Successful(payload),
                ..
            } => if account == pending.staker_id {
                -worth(
                    pending.stake_id.with_balance(
                        moved_amount(pending.requested(), reported_unused(json_amounts(payload@))),
                    ),
                    slot,
                )
            } else {
                0
            },
            _ => 0,
        }
    }
}

/// What the steps together bring into the slot of `slot` in the ledger of `account`.
pub open spec fn total_flow(
    contract: ContractView,
    steps: Seq<Step>,
    account: Seq<char>,
    slot: StakeIdView,
) -> int
    decreases steps.len(),
{
    if steps.len() == 0 {
        0
    } else {
        total_flow(contract, steps.drop_last(), account, slot) + flow(
            run(contract, steps.drop_last()),
            steps.last(),
            account,
            slot,
        )
    }
}

/// Whatever is asked of the contract, a ledger holds in a slot what it held before and what
/// the step has brought.
pub proof fn lemma_step_conserves(
    contract: ContractView,
    step: Step,
    account: Seq<char>,
    slot: StakeIdView,
)
    ensures
        custody(after(contract, step).staking, account, slot) == custody(
            contract.staking,
            account,
            slot,
        ) + flow(contract, step, account, slot),
{
    let staking = contract.staking;
    match step {
        Step::Register { caller, account_id } => {},
        Step::CreatePool { caller, pool_id, pool_results, required_xp } => {},
        Step::Stake { caller, stake_id, staker_id, pool_result, pool_id, receivers } => {
            lemma_stake_keeps_custody(
                staking,
                stake_id,
                staker_id,
                pool_result,
                pool_id,
                receivers,
                contract.owner,
                account,
                slot,
            );
        },
        Step::RegisterStake { caller, stake_id, staker_id } => {
            lemma_register_stake_deposits(staking, stake_id, staker_id, account, slot);
        },
        Step::UnregisterStake { caller, stake_id, staker_id, reregister } => {
            lemma_unregister_stake_moves(staking, stake_id, staker_id, reregister, account, slot);
        },
        Step::TogglePoolActive { caller, pool_id, toggle } => {},
        Step::AssertPoolResult { caller, pool_id, pool_result } => {},
        Step::DistributeStakes { caller, pool_id } => {},
        Step::RemovePool { caller, pool_id } => {},
        Step::Deposit { caller, sender_id, token } => {
            lemma_register_stake_deposits(
                staking,
                StakeIdView { contract_id: caller, token },
                sender_id,
                account,
                slot,
            );
        },
        Step::DepositBatch { caller, sender_id, token_ids, amounts } => {
            if staking.stakes.dom().contains(sender_id) {
                lemma_register_entries_add(
                    staking.stakes[sender_id],
                    batch_stakes(caller, token_ids, amounts),
                    slot,
                );
            }
        },
        Step::ResolveTransfer { caller, pending, outcome } => {
            if let TransferOutcome::Successful(payload) = outcome {
                lemma_commit_transfer_withdraws(
                    staking,
                    pending,
                    reported_unused(json_amounts(payload@)),
                    account,
                    slot,
                );
            }
        },
    }
}

/// Balance conservation. Whatever is asked of the contract, and in whatever order, a ledger
/// holds in a slot what it held at first and what the steps have brought: the sum of its
/// balances in the slot changes by deposits, by stakes that are unregistered or handed on, and
/// by confirmed transfers, and by nothing else.
pub proof fn lemma_balance_conservation(
    contract: ContractView,
    steps: Seq<Step>,
    account: Seq<char>,
    slot: StakeIdView,
)
    ensures
        custody(run(contract, steps).staking, account, slot) == custody(
            contract.staking,
            account,
            slot,
        ) + total_flow(contract, steps, account, slot),
    decreases steps.len(),
{
    if steps.len() > 0 {
        lemma_balance_conservation(contract, steps.drop_last(), account, slot);
        lemma_step_conserves(run(contract, steps.drop_last()), steps.last(), account, slot);
    }
}

/// No self-payout. Where the receiver for an outcome of the pool other than the chosen one is
/// the staker, the stake is refused with `SelfReceiverDisallowed`, whatever else is asked.
pub proof fn lemma_no_self_payout(
    stakes: StakesView,
    chosen: Seq<char>,
    staker: Seq<char>,
    stake: StakeIdView,
    receivers: Seq<(Seq<char>, Seq<char>)>,
    default_receiver: Seq<char>,
    outcome: Seq<char>,
)
    requires
        stakes.dom().contains(outcome),
        outcome != chosen,
        receiver_for(receivers, default_receiver, outcome) == staker,
    ensures
        add_stake_spec(stakes, chosen, staker, stake, receivers, default_receiver) == Err::<
            StakesView,
            StakeErrorView,
        >(StakeErrorView::SelfReceiverDisallowed),
{
    assert(self_receiving(stakes, chosen, staker, receivers, default_receiver));
}

/// No self-payout, of the contract. Whoever asks, where the pool is open for stakes and the
/// receiver for one of its other outcomes is the staker, the stake is refused: with
/// `SelfReceiverDisallowed` where the caller may stake at all.
pub proof fn lemma_contract_no_self_payout(
    contract: ContractView,
    caller: Seq<char>,
    stake_id: StakeIdView,
    staker_id: Seq<char>,
    pool_result: Seq<char>,
    pool_id: Seq<char>,
    receivers: Seq<(Seq<char>, Seq<char>)>,
    outcome: Seq<char>,
)
    requires
        contract.staking.stake_pools.dom().contains(pool_id),
        !contract.staking.stake_pools[pool_id].active,
        !contract.staking.stake_pools[pool_id].resolved,
        contract.staking.stake_pools[pool_id].outcomes().contains(outcome),
        outcome != pool_result,
        receiver_for(receivers, contract.owner, outcome) == staker_id,
    ensures
        contract.stake(caller, stake_id, staker_id, pool_result, pool_id, receivers) == Err::<
            ContractView,
            StakeErrorView,
        >(
            if contract.is_admin(caller) || caller == staker_id {
                StakeErrorView::SelfReceiverDisallowed
            } else {
                StakeErrorView::Restricted
            },
        ),
{
    lemma_no_self_payout(
        contract.staking.stake_pools[pool_id].required_stakes,
        pool_result,
        staker_id,
        stake_id,
        receivers,
        contract.owner,
        outcome,
    );
}

/// Whether no account is owed a stake of its own.
pub open spec fn pays_others(stakes: StakesView) -> bool {
    forall|outcome: Seq<char>, account: Seq<char>, i: int|
        stakes.dom().contains(outcome) && stakes[outcome].dom().contains(account) && 0 <= i
            < stakes[outcome][account].len() ==> (#[trigger] stakes[outcome][account][i]).staker
            != account
}

/// A payout graph in which nobody is owed their own stake stays so when a stake is taken up,
/// and when what is owed under an outcome is handed out; and a new pool owes nothing.
pub proof fn lemma_pays_others_kept(
    stakes: StakesView,
    chosen: Seq<char>,
    staker: Seq<char>,
    stake: StakeIdView,
    receivers: Seq<(Seq<char>, Seq<char>)>,
    default_receiver: Seq<char>,
    pool_results: Seq<Seq<char>>,
)
    ensures
        pays_others(fresh_stakes(pool_results)),
        pays_others(stakes) ==> pays_others(drained(stakes, chosen)),
        pays_others(stakes) ==> (add_stake_spec(
            stakes,
            chosen,
            staker,
            stake,
            receivers,
            default_receiver,
        ) matches Ok(staked) ==> pays_others(staked)),
{
    if pays_others(stakes) {
        if let Ok(staked) = add_stake_spec(
            stakes,
            chosen,
            staker,
            stake,
            receivers,
            default_receiver,
        ) {
            assert forall|outcome: Seq<char>, account: Seq<char>, i: int|
                staked.dom().contains(outcome) && staked[outcome].dom().contains(account) && 0
                    <= i < staked[outcome][account].len() implies (
            #[trigger] staked[outcome][account][i]).staker != account by {
                let receiver = receiver_for(receivers, default_receiver, outcome);
                if outcome != chosen && account == receiver {
                    assert(receiver != staker);
                    if i < rewards_of(stakes[outcome], receiver).len() {
                        assert(stakes[outcome][account][i].staker != account);
                    }
                } else {
                    if stakes[outcome].dom().contains(account) {
                        assert(stakes[outcome][account][i].staker != account);
                    }
                }
            }
        }
        assert forall|outcome: Seq<char>, account: Seq<char>, i: int|
            drained(stakes, chosen).dom().contains(outcome) && drained(
                stakes,
                chosen,
            )[outcome].dom().contains(account) && 0 <= i < drained(
                stakes,
                chosen,
            )[outcome][account].len() implies (#[trigger] drained(
            stakes,
            chosen,
        )[outcome][account][i]).staker != account by {
            assert(stakes[outcome][account][i].staker != account);
        }
    }
}

/// Activation freeze. Once the staking window of a pool has been closed, no stake is taken in
/// that pool, whoever stakes what on whichever outcome: the stake is refused with `PoolActive`
/// where the caller may stake at all, and the contract stays as it is.
pub proof fn lemma_activation_freeze(
    contract: ContractView,
    admin: Seq<char>,
    pool_id: Seq<char>,
    caller: Seq<char>,
    stake_id: StakeIdView,
    staker_id: Seq<char>,
    pool_result: Seq<char>,
    receivers: Seq<(Seq<char>, Seq<char>)>,
)
    ensures
        contract.toggle_pool_active(admin, pool_id, true) matches Ok(active) ==> {
            &&& active.stake(caller, stake_id, staker_id, pool_result, pool_id, receivers) == Err::<
                ContractView,
                StakeErrorView,
            >(
                if active.is_admin(caller) || caller == staker_id {
                    StakeErrorView::PoolActive
                } else {
                    StakeErrorView::Restricted
                },
            )
            &&& after(
                active,
                Step::Stake { caller, stake_id, staker_id, pool_result, pool_id, receivers },
            ) == active
        },
{
}

/// An active pool takes no stakes, however it became active.
pub proof fn lemma_active_pool_is_frozen(
    staking: StakeManagementView,
    stake_id: StakeIdView,
    staker_id: Seq<char>,
    pool_result: Seq<char>,
    pool_id: Seq<char>,
    receivers: Seq<(Seq<char>, Seq<char>)>,
    default_receiver: Seq<char>,
)
    requires
        staking.stake_pools.dom().contains(pool_id),
        staking.stake_pools[pool_id].active,
    ensures
        staking.stake(stake_id, staker_id, pool_result, pool_id, receivers, default_receiver)
            == Err::<StakeManagementView, StakeErrorView>(StakeErrorView::PoolActive),
{
}

/// Resolution is outcome-exclusive. Resolving a pool hands out what is owed under its result
/// and under no other outcome: what the pool owes under every other outcome is what it owed,
/// the pool has the outcomes it had, and no other pool and no ledger is touched.
pub proof fn lemma_resolution_is_outcome_exclusive(
    staking: StakeManagementView,
    pool_id: Seq<char>,
    outcome: Seq<char>,
    other_pool: Seq<char>,
)
    ensures
        staking.distribute_stakes(pool_id) matches Ok(resolved) ==> {
            let before = staking.stake_pools[pool_id];
            let pool = resolved.stake_pools[pool_id];
            &&& before.result is Some
            &&& pool.outcomes() == before.outcomes()
            &&& pool.required_stakes == drained(before.required_stakes, before.result->0)
            &&& outcome != before.result->0 && before.outcomes().contains(outcome)
                ==> pool.required_stakes[outcome] == before.required_stakes[outcome]
            &&& before.outcomes().contains(before.result->0) ==> owed_under(
                pool.required_stakes,
                before.result->0,
            ) == Map::<Seq<char>, Seq<RewardView>>::empty()
            &&& pool.resolved && pool.active && pool.result == before.result
            &&& resolved.stake_pools.dom() == staking.stake_pools.dom()
            &&& other_pool != pool_id ==> resolved.stake_pools[other_pool]
                == staking.stake_pools[other_pool]
            &&& resolved.stakes == staking.stakes
        },
{
    if let Ok(resolved) = staking.distribute_stakes(pool_id) {
        let before = staking.stake_pools[pool_id];
        assert(drained(before.required_stakes, before.result->0).dom() =~= before.outcomes());
        assert(resolved.stake_pools.dom() =~= staking.stake_pools.dom());
    }
}

/// Pool removal gating. A pool that is not resolved is not removed, and neither is one that
/// some ledger entry is still bound to, whatever has happened to it before; any other pool
/// that there is can be removed by the administrator.
pub proof fn lemma_pool_removal_is_gated(
    contract: ContractView,
    caller: Seq<char>,
    pool_id: Seq<char>,
)
    requires
        contract.is_admin(caller),
        contract.staking.stake_pools.dom().contains(pool_id),
    ensures
        !contract.staking.stake_pools[pool_id].resolved ==> contract.remove_pool(caller, pool_id)
            == Err::<ContractView, StakeErrorView>(StakeErrorView::PoolUnresolved),
        contract.staking.stake_pools[pool_id].resolved && contract.staking.pool_in_use(pool_id)
            ==> contract.remove_pool(caller, pool_id) == Err::<ContractView, StakeErrorView>(
            StakeErrorView::StakesStillBound,
        ),
        contract.staking.stake_pools[pool_id].resolved && !contract.staking.pool_in_use(pool_id)
            ==> contract.remove_pool(caller, pool_id) is Ok,
{
}

/// A failed transfer changes nothing: whatever transfer it was, the contract is after the
/// acknowledgement what it was before.
pub proof fn lemma_failed_transfer_changes_nothing(
    contract: ContractView,
    caller: Seq<char>,
    pending: PendingTransferView,
)
    ensures
        after(
            contract,
            Step::ResolveTransfer { caller, pending, outcome: TransferOutcome::Failed },
        ) == contract,
        caller == contract.account_id ==> contract.resolve_transfer(
            caller,
            pending,
            TransferOutcome::Failed,
        ) == Ok::<ContractView, StakeErrorView>(contract),
{
}

/// Whether the step closes or opens the staking window of the pool `pool_id`.
pub open spec fn toggles(step: Step, pool_id: Seq<char>) -> bool {
    step matches Step::TogglePoolActive { pool_id: toggled, .. } && toggled == pool_id
}

/// Whether the step resolves the pool `pool_id`.
pub open spec fn resolves(step: Step, pool_id: Seq<char>) -> bool {
    step matches Step::DistributeStakes { pool_id: resolved, .. } && resolved == pool_id
}

/// Whatever is asked of the contract, a pool that is there before and after has the owner and
/// the outcomes it had. A pool stays active until its window is opened again, and while it is
/// active its payout graph is frozen: only its resolution changes it. Once resolved, the pool
/// stays exactly as it is until it is removed.
pub proof fn lemma_pool_history(contract: ContractView, step: Step, pool_id: Seq<char>)
    requires
        contract.staking.stake_pools.dom().contains(pool_id),
        after(contract, step).staking.stake_pools.dom().contains(pool_id),
    ensures
        ({
            let before = contract.staking.stake_pools[pool_id];
            let pool = after(contract, step).staking.stake_pools[pool_id];
            &&& pool.owner == before.owner
            &&& pool.required_xp == before.required_xp
            &&& pool.outcomes() == before.outcomes()
            &&& before.active && !toggles(step, pool_id) ==> pool.active
            &&& before.active && !resolves(step, pool_id) ==> pool.required_stakes
                == before.required_stakes
            &&& before.resolved ==> pool == before
        }),
{
    let before = contract.staking.stake_pools[pool_id];
    let pool = after(contract, step).staking.stake_pools[pool_id];
    match step {
        Step::Stake { stake_id, staker_id, pool_result, pool_id: staked_pool, receivers, .. } => {
            if attempt(contract, step) is Ok && staked_pool == pool_id {
                let staked = with_stake(
                    before.required_stakes,
                    pool_result,
                    staker_id,
                    stake_id,
                    receivers,
                    contract.owner,
                );
                assert(staked.dom() =~= before.required_stakes.dom());
            }
        },
        Step::DistributeStakes { caller, pool_id: resolved_pool } => {
            if attempt(contract, step) is Ok && resolved_pool == pool_id {
                assert(drained(before.required_stakes, before.result->0).dom()
                    =~= before.required_stakes.dom());
            }
        },
        _ => {},
    }
}

/// Whether the step removes the pool `pool_id`.
pub open spec fn removes(step: Step, pool_id: Seq<char>) -> bool {
    step matches Step::RemovePool { pool_id: removed, .. } && removed == pool_id
}

/// Activation freeze, for good. Whatever is asked of the contract after the staking window of
/// a pool has been closed, and in whatever order, as long as nobody opens the window again or
/// removes the pool, the pool is still there and active, and no stake is taken in it.
pub proof fn lemma_frozen_while_active(
    contract: ContractView,
    steps: Seq<Step>,
    pool_id: Seq<char>,
    caller: Seq<char>,
    stake_id: StakeIdView,
    staker_id: Seq<char>,
    pool_result: Seq<char>,
    receivers: Seq<(Seq<char>, Seq<char>)>,
)
    requires
        contract.staking.stake_pools.dom().contains(pool_id),
        contract.staking.stake_pools[pool_id].active,
        forall|i: int|
            0 <= i < steps.len() ==> !toggles(#[trigger] steps[i], pool_id) && !removes(
                steps[i],
                pool_id,
            ),
    ensures
        run(contract, steps).staking.stake_pools.dom().contains(pool_id),
        run(contract, steps).staking.stake_pools[pool_id].active,
        run(contract, steps).stake(caller, stake_id, staker_id, pool_result, pool_id, receivers)
            is Err,
    decreases steps.len(),
{
    if steps.len() > 0 {
        let earlier = steps.drop_last();
        assert forall|i: int| 0 <= i < earlier.len() implies !toggles(
            #[trigger] earlier[i],
            pool_id,
        ) && !removes(earlier[i], pool_id) by {
            assert(earlier[i] == steps[i]);
        }
        lemma_frozen_while_active(
            contract,
            earlier,
            pool_id,
            caller,
            stake_id,
            staker_id,
            pool_result,
            receivers,
        );
        let last = steps.last();
        assert(!toggles(last, pool_id) && !removes(last, pool_id));
        assert(after(run(contract, earlier), last).staking.stake_pools.dom().contains(pool_id));
        lemma_pool_history(run(contract, earlier), last, pool_id);
    }
}

/// Whatever is asked of the contract, it has the administrator, the account and the trusted
/// asset contracts it had, and whatever has a ledger or a character keeps it.
pub proof fn lemma_step_keeps_identity(contract: ContractView, step: Step, account: Seq<char>)
    ensures
        after(contract, step).owner == contract.owner,
        after(contract, step).account_id == contract.account_id,
        after(contract, step).asset_contracts == contract.asset_contracts,
        contract.accounts.contains(account) ==> after(contract, step).accounts.contains(account),
        contract.staking.stakes.dom().contains(account) ==> after(
            contract,
            step,
        ).staking.stakes.dom().contains(account),
{
}

/// Whether every binding of the ledger names one of `pools`.
pub open spec fn bound_within(ledger: LedgerView, pools: Set<Seq<char>>) -> bool {
    forall|i: int|
        0 <= i < ledger.len() && (#[trigger] ledger[i]).pool is Some ==> pools.contains(
            ledger[i].pool->0,
        )
}

/// An entry that leaves a ledger leaves the bindings of the others as they are.
proof fn lemma_bound_within_remove(ledger: LedgerView, i: int, pools: Set<Seq<char>>)
    requires
        bound_within(ledger, pools),
        0 <= i < ledger.len(),
    ensures
        bound_within(ledger.remove(i), pools),
{
    let rest = ledger.remove(i);
    assert forall|j: int| 0 <= j < rest.len() && (#[trigger] rest[j]).pool is Some implies {
        pools.contains(rest[j].pool->0)
    } by {
        if j < i {
            assert(rest[j] == ledger[j]);
        } else {
            assert(rest[j] == ledger[j + 1]);
        }
    }
}

/// Registering, taking, unregistering and settling bind nothing: they leave the bindings of a
/// ledger among the pools they were among. Binding adds the pool that is bound to.
pub proof fn lemma_bindings_kept(
    ledger: LedgerView,
    stake: StakeIdView,
    moved: u128,
    pool_id: Seq<char>,
    pools: Set<Seq<char>>,
)
    requires
        bound_within(ledger, pools),
    ensures
        register_entry(ledger, stake) matches Ok(after) ==> bound_within(after, pools),
        take_entry(ledger, stake) matches Ok(after) ==> bound_within(after, pools),
        unregister_entry(ledger, stake) matches Ok(after) ==> bound_within(after, pools),
        settle_entry(ledger, stake, moved) matches Ok(after) ==> bound_within(after, pools),
        pools.contains(pool_id) ==> (bind_entry(ledger, stake, pool_id) matches Ok(after)
            ==> bound_within(after, pools)),
{
    lemma_first_index_spec(ledger, unbound_in_slot(stake));
    lemma_first_index_spec(ledger, unbound_covering(stake));
    lemma_first_index_spec(ledger, holds_unbound(stake));
    lemma_first_index_spec(ledger, holds(stake));
    if let Some(i) = first_index(ledger, holds(stake)) {
        lemma_bound_within_remove(ledger, i, pools);
        if left_behind(stake, moved) > 0 {
            let back = stake.with_balance(left_behind(stake, moved) as u128);
            lemma_first_index_spec(ledger.remove(i), unbound_in_slot(back));
        }
    } else {
        let taken = stake.with_balance(moved);
        lemma_first_index_spec(ledger, unbound_covering(taken));
        if let Some(i) = first_index(ledger, unbound_covering(taken)) {
            lemma_bound_within_remove(ledger, i, pools);
        }
    }
    if let Some(i) = first_index(ledger, holds_unbound(stake)) {
        lemma_bound_within_remove(ledger, i, pools);
    }
    if let Some(i) = first_index(ledger, unbound_covering(stake)) {
        lemma_bound_within_remove(ledger, i, pools);
    }
}

/// A batch of registrations binds nothing.
pub proof fn lemma_batch_bindings_kept(
    ledger: LedgerView,
    stakes: Seq<StakeIdView>,
    pools: Set<Seq<char>>,
)
    requires
        bound_within(ledger, pools),
    ensures
        register_entries(ledger, stakes) matches Ok(after) ==> bound_within(after, pools),
    decreases stakes.len(),
{
    if stakes.len() > 0 {
        lemma_batch_bindings_kept(ledger, stakes.drop_last(), pools);
        if let Ok(registered) = register_entries(ledger, stakes.drop_last()) {
            lemma_bindings_kept(registered, stakes.last(), 0, Seq::empty(), pools);
        }
    }
}

/// Whether the ledger keeps the free balance of every slot in one entry: no two unbound
/// entries hold balances of one slot.
pub open spec fn merged(ledger: LedgerView) -> bool {
    forall|i: int, j: int|
        0 <= i < j < ledger.len() ==> !mergeable(#[trigger] ledger[i], #[trigger] ledger[j])
}

/// Whether both entries are unbound balances of one slot.
pub open spec fn mergeable(a: StakeEntryView, b: StakeEntryView) -> bool {
    a.pool is None && b.pool is None && a.stake.amount() is Some && a.stake.same_slot(b.stake)
}

/// An entry that leaves a ledger leaves the others as they are.
proof fn lemma_merged_remove(ledger: LedgerView, i: int)
    requires
        merged(ledger),
        0 <= i < ledger.len(),
    ensures
        merged(ledger.remove(i)),
{
    let rest = ledger.remove(i);
    assert forall|a: int, b: int| 0 <= a < b < rest.len() implies !mergeable(
        #[trigger] rest[a],
        #[trigger] rest[b],
    ) by {
        let a1 = if a < i { a } else { a + 1 };
        let b1 = if b < i { b } else { b + 1 };
        assert(rest[a] == ledger[a1]);
        assert(rest[b] == ledger[b1]);
    }
}

/// An entry that is bound, or whose balance changes, leaves the free balances apart.
proof fn lemma_merged_update(ledger: LedgerView, i: int, entry: StakeEntryView)
    requires
        merged(ledger),
        0 <= i < ledger.len(),
        ledger[i].pool is None,
        ledger[i].stake.amount() is Some,
        entry.pool is Some || entry.stake.same_slot(ledger[i].stake),
    ensures
        merged(ledger.update(i, entry)),
{
    let next = ledger.update(i, entry);
    assert forall|a: int, b: int| 0 <= a < b < next.len() implies !mergeable(
        #[trigger] next[a],
        #[trigger] next[b],
    ) by {
        if a == i {
            assert(ledger[b] == next[b]);
            assert(!mergeable(ledger[i], ledger[b]));
        } else if b == i {
            assert(ledger[a] == next[a]);
            assert(!mergeable(ledger[a], ledger[i]));
        } else {
            assert(ledger[a] == next[a]);
            assert(ledger[b] == next[b]);
        }
    }
}

/// Registering, taking, unregistering, binding and settling keep the free balance of every
/// slot in one entry.
pub proof fn lemma_merged_kept(
    ledger: LedgerView,
    stake: StakeIdView,
    moved: u128,
    pool_id: Seq<char>,
)
    requires
        merged(ledger),
    ensures
        register_entry(ledger, stake) matches Ok(after) ==> merged(after),
        take_entry(ledger, stake) matches Ok(after) ==> merged(after),
        unregister_entry(ledger, stake) matches Ok(after) ==> merged(after),
        bind_entry(ledger, stake, pool_id) matches Ok(after) ==> merged(after),
        settle_entry(ledger, stake, moved) matches Ok(after) ==> merged(after),
{
    lemma_merged_registered(ledger, stake);
    lemma_merged_taken(ledger, stake);
    lemma_first_index_spec(ledger, holds_unbound(stake));
    lemma_first_index_spec(ledger, holds(stake));
    if let Some(i) = first_index(ledger, holds_unbound(stake)) {
        lemma_merged_remove(ledger, i);
        if stake.amount() is Some {
            lemma_merged_update(
                ledger,
                i,
                StakeEntryView { stake, pool: Some(pool_id) },
            );
        } else {
            let next = ledger.update(i, StakeEntryView { stake, pool: Some(pool_id) });
            assert forall|a: int, b: int| 0 <= a < b < next.len() implies !mergeable(
                #[trigger] next[a],
                #[trigger] next[b],
            ) by {
                if a != i && b != i {
                    assert(!mergeable(ledger[a], ledger[b]));
                }
            }
        }
    }
    if let Some(i) = first_index(ledger, holds(stake)) {
        lemma_merged_remove(ledger, i);
        if left_behind(stake, moved) > 0 {
            lemma_merged_registered(
                ledger.remove(i),
                stake.with_balance(left_behind(stake, moved) as u128),
            );
        }
    } else {
        lemma_merged_taken(ledger, stake.with_balance(moved));
    }
}

/// Registering keeps the free balance of every slot in one entry.
proof fn lemma_merged_registered(ledger: LedgerView, stake: StakeIdView)
    requires
        merged(ledger),
    ensures
        register_entry(ledger, stake) matches Ok(after) ==> merged(after),
{
    lemma_first_index_spec(ledger, unbound_in_slot(stake));
    match first_index(ledger, unbound_in_slot(stake)) {
        Some(i) => {
            if let Some(sum) = ledger[i].stake.merged(stake) {
                lemma_merged_update(ledger, i, unbound(sum));
            }
        },
        None => {
            let next = ledger.push(unbound(stake));
            assert forall|a: int, b: int| 0 <= a < b < next.len() implies !mergeable(
                #[trigger] next[a],
                #[trigger] next[b],
            ) by {
                assert(next[a] == ledger[a]);
                if b == ledger.len() {
                    assert(!unbound_in_slot(stake)(ledger[a]));
                } else {
                    assert(!mergeable(ledger[a], ledger[b]));
                }
            }
        },
    }
}

/// Taking keeps the free balance of every slot in one entry.
proof fn lemma_merged_taken(ledger: LedgerView, stake: StakeIdView)
    requires
        merged(ledger),
    ensures
        take_entry(ledger, stake) matches Ok(after) ==> merged(after),
{
    lemma_first_index_spec(ledger, unbound_covering(stake));
    if let Some(i) = first_index(ledger, unbound_covering(stake)) {
        lemma_merged_remove(ledger, i);
        let rest = ledger[i].stake.with_balance(
            (ledger[i].stake.balance() - stake.balance()) as u128,
        );
        lemma_merged_update(ledger, i, unbound(rest));
    }
}

/// A batch of registrations keeps the free balance of every slot in one entry.
pub proof fn lemma_batch_merged_kept(ledger: LedgerView, stakes: Seq<StakeIdView>)
    requires
        merged(ledger),
    ensures
        register_entries(ledger, stakes) matches Ok(after) ==> merged(after),
    decreases stakes.len(),
{
    if stakes.len() > 0 {
        lemma_batch_merged_kept(ledger, stakes.drop_last());
        if let Ok(registered) = register_entries(ledger, stakes.drop_last()) {
            lemma_merged_registered(registered, stakes.last());
        }
    }
}

/// Whether a pool is sound: its result is one of its outcomes, nobody is owed their own
/// stake, and once it is resolved it is active, has a result and owes nothing under it.
pub open spec fn pool_sound(pool: PoolView) -> bool {
    &&& pool.result matches Some(outcome) ==> pool.outcomes().contains(outcome)
    &&& pays_others(pool.required_stakes)
    &&& pool.resolved ==> pool.active && pool.result is Some && pool.required_stakes[pool.result->0]
        == Map::<Seq<char>, Seq<RewardView>>::empty()
}

/// Whether the contract is sound: every pool is, every bound ledger entry is bound to a pool
/// that there is, and every ledger keeps the free balance of a slot in one entry.
pub open spec fn sound(contract: ContractView) -> bool {
    &&& forall|pool_id: Seq<char>| #[trigger]
        contract.staking.stake_pools.dom().contains(pool_id) ==> pool_sound(
            contract.staking.stake_pools[pool_id],
        )
    &&& forall|account: Seq<char>| #[trigger]
        contract.staking.stakes.dom().contains(account) ==> bound_within(
            contract.staking.stakes[account],
            contract.staking.stake_pools.dom(),
        ) && merged(contract.staking.stakes[account])
}

/// A new contract is sound.
pub proof fn lemma_fresh_is_sound(
    owner: Seq<char>,
    account_id: Seq<char>,
    asset_contracts: Set<Seq<char>>,
)
    ensures
        sound(ContractView::fresh(owner, account_id, asset_contracts)),
{
}

/// Whatever is asked of a sound contract, it stays sound.
pub proof fn lemma_step_keeps_sound(contract: ContractView, step: Step)
    requires
        sound(contract),
    ensures
        sound(after(contract, step)),
{
    let staking = contract.staking;
    let pools = staking.stake_pools.dom();
    let next = after(contract, step);
    if attempt(contract, step) is Ok {
        match step {
            Step::Register { caller, account_id } => {
                assert(sound(next));
            },
            Step::CreatePool { caller, pool_id, pool_results, required_xp } => {
                lemma_pays_others_kept(
                    Map::empty(),
                    Seq::empty(),
                    Seq::empty(),
                    arbitrary(),
                    Seq::empty(),
                    Seq::empty(),
                    pool_results,
                );
                assert(sound(next));
            },
            Step::Stake { caller, stake_id, staker_id, pool_result, pool_id, receivers } => {
                let pool = staking.stake_pools[pool_id];
                lemma_pays_others_kept(
                    pool.required_stakes,
                    pool_result,
                    staker_id,
                    stake_id,
                    receivers,
                    contract.owner,
                    Seq::empty(),
                );
                lemma_bindings_kept(staking.stakes[staker_id], stake_id, 0, pool_id, pools);
                lemma_merged_kept(staking.stakes[staker_id], stake_id, 0, pool_id);
                let staked = with_stake(
                    pool.required_stakes,
                    pool_result,
                    staker_id,
                    stake_id,
                    receivers,
                    contract.owner,
                );
                assert(staked.dom() =~= pool.required_stakes.dom());
                assert(next.staking.stake_pools.dom() =~= pools);
                assert(sound(next));
            },
            Step::RegisterStake { caller, stake_id, staker_id } => {
                lemma_bindings_kept(staking.stakes[staker_id], stake_id, 0, Seq::empty(), pools);
                lemma_merged_kept(staking.stakes[staker_id], stake_id, 0, Seq::empty());
                assert(sound(next));
            },
            Step::UnregisterStake { caller, stake_id, staker_id, reregister } => {
                lemma_bindings_kept(staking.stakes[staker_id], stake_id, 0, Seq::empty(), pools);
                lemma_merged_kept(staking.stakes[staker_id], stake_id, 0, Seq::empty());
                if let Some(receiver_id) = reregister {
                    lemma_bindings_kept(
                        staking.stakes[receiver_id],
                        stake_id,
                        0,
                        Seq::empty(),
                        pools,
                    );
                    lemma_merged_kept(staking.stakes[receiver_id], stake_id, 0, Seq::empty());
                }
                assert(sound(next));
            },
            Step::TogglePoolActive { caller, pool_id, toggle } => {
                assert(next.staking.stake_pools.dom() =~= pools);
                assert(sound(next));
            },
            Step::AssertPoolResult { caller, pool_id, pool_result } => {
                assert(next.staking.stake_pools.dom() =~= pools);
                assert(sound(next));
            },
            Step::DistributeStakes { caller, pool_id } => {
                let pool = staking.stake_pools[pool_id];
                lemma_pays_others_kept(
                    pool.required_stakes,
                    pool.result->0,
                    Seq::empty(),
                    arbitrary(),
                    Seq::empty(),
                    Seq::empty(),
                    Seq::empty(),
                );
                assert(drained(pool.required_stakes, pool.result->0).dom()
                    =~= pool.required_stakes.dom());
                assert(next.staking.stake_pools.dom() =~= pools);
                assert(sound(next));
            },
            Step::RemovePool { caller, pool_id } => {
                assert forall|account: Seq<char>| #[trigger]
                    next.staking.stakes.dom().contains(account) implies bound_within(
                    next.staking.stakes[account],
                    next.staking.stake_pools.dom(),
                ) by {
                    let ledger = staking.stakes[account];
                    assert(bound_within(ledger, pools));
                    let left = next.staking.stake_pools.dom();
                    assert forall|i: int|
                        0 <= i < ledger.len() && (#[trigger] ledger[i]).pool is Some implies {
                        left.contains(ledger[i].pool->0)
                    } by {
                        if ledger[i].pool->0 == pool_id {
                            assert(crate::ledger::bound_to(ledger, pool_id));
                            assert(staking.pool_in_use(pool_id));
                        }
                    }
                }
                assert(sound(next));
            },
            Step::Deposit { caller, sender_id, token } => {
                lemma_bindings_kept(
                    staking.stakes[sender_id],
                    StakeIdView { contract_id: caller, token },
                    0,
                    Seq::empty(),
                    pools,
                );
                lemma_merged_kept(
                    staking.stakes[sender_id],
                    StakeIdView { contract_id: caller, token },
                    0,
                    Seq::empty(),
                );
                assert(sound(next));
            },
            Step::DepositBatch { caller, sender_id, token_ids, amounts } => {
                lemma_batch_bindings_kept(
                    staking.stakes[sender_id],
                    batch_stakes(caller, token_ids, amounts),
                    pools,
                );
                lemma_batch_merged_kept(
                    staking.stakes[sender_id],
                    batch_stakes(caller, token_ids, amounts),
                );
                assert(sound(next));
            },
            Step::ResolveTransfer { caller, pending, outcome } => {
                if let TransferOutcome::Successful(payload) = outcome {
                    lemma_bindings_kept(
                        staking.stakes[pending.staker_id],
                        pending.stake_id,
                        moved_amount(pending.requested(), reported_unused(json_amounts(payload@))),
                        Seq::empty(),
                        pools,
                    );
                    lemma_merged_kept(
                        staking.stakes[pending.staker_id],
                        pending.stake_id,
                        moved_amount(pending.requested(), reported_unused(json_amounts(payload@))),
                        Seq::empty(),
                    );
                }
                assert(sound(next));
            },
        }
    }
}

/// Soundness is an invariant: whatever is asked of a new contract, and in whatever order,
/// every pool stays sound and every bound stake stays bound to a pool that there is.
pub proof fn lemma_run_keeps_sound(contract: ContractView, steps: Seq<Step>)
    requires
        sound(contract),
    ensures
        sound(run(contract, steps)),
    decreases steps.len(),
{
    if steps.len() > 0 {
        lemma_run_keeps_sound(contract, steps.drop_last());
        lemma_step_keeps_sound(run(contract, steps.drop_last()), steps.last());
    }
}

} // verus!
