use vstd::prelude::*;

use crate::account::AccountState;
use crate::hashes::PoseidonHash;
use crate::merkle_proof::fold_path;
use crate::poseidon_sparse::{
    leaf_of, lemma_every_leaf_proof_verifies, lemma_update_preserves_wf, lemma_update_read_back,
};
use vstd::arithmetic::power2::pow2;
use crate::state::{L2State, L2StateView};
use crate::tx::L2Transaction;

verus! {

/// Why a transfer could not be applied.
#[derive(Debug, Clone, Copy, PartialEq, Eq)]
pub enum ExecError {
    /// The sender has no leaf index.
    UnknownSender([u8; 20]),
    /// The sender has a leaf index but no account.
    MissingSenderState([u8; 20]),
    /// The transaction's nonce is not the sender's current nonce.
    NonceMismatch { expected: u64, got: u64 },
    /// The sender's balance is below the amount.
    InsufficientBalance { has: u128, needs: u128 },
    /// The recipient has no leaf index.
    UnknownRecipient([u8; 20]),
    /// The recipient has a leaf index but no account.
    MissingRecipientState([u8; 20]),
}

/// The sender after a transfer of `amount`: balance down, nonce up by one.
pub open spec fn debited(a: AccountState, amount: u128) -> AccountState {
    AccountState {
        owner_address: a.owner_address,
        l2_address: a.l2_address,
        l2_pubkey_x: a.l2_pubkey_x,
        l2_pubkey_y: a.l2_pubkey_y,
        balance: (a.balance - amount) as u128,
        nonce: (a.nonce + 1) as u64,
        leaf_index: a.leaf_index,
    }
}

/// The recipient after a transfer of `amount`: balance up.
pub open spec fn credited(a: AccountState, amount: u128) -> AccountState {
    AccountState {
        owner_address: a.owner_address,
        l2_address: a.l2_address,
        l2_pubkey_x: a.l2_pubkey_x,
        l2_pubkey_y: a.l2_pubkey_y,
        balance: (a.balance + amount) as u128,
        nonce: a.nonce,
        leaf_index: a.leaf_index,
    }
}

/// One transfer applied to a state: the outcome and the state afterwards. The
/// sender is debited and its leaf rewritten before the recipient is looked up,
/// so a missing recipient leaves the sender's change in place.
pub open spec fn apply_tx(s: L2StateView, tx: L2Transaction) -> (Result<(), ExecError>, L2StateView) {
    let sk = tx.sender@;
    let rk = tx.recipient@;
    if !s.indices.contains_key(sk) {
        (Err(ExecError::UnknownSender(tx.sender)), s)
    } else if !s.states.contains_key(sk) {
        (Err(ExecError::MissingSenderState(tx.sender)), s)
    } else if s.states[sk].nonce != tx.nonce {
        (Err(ExecError::NonceMismatch { expected: s.states[sk].nonce, got: tx.nonce }), s)
    } else if s.states[sk].balance < tx.amount {
        (Err(ExecError::InsufficientBalance { has: s.states[sk].balance, needs: tx.amount }), s)
    } else {
        let sender = debited(s.states[sk], tx.amount);
        let s1 = L2StateView {
            tree: s.tree.update(s.indices[sk] as nat, leaf_of(sender)),
            indices: s.indices,
            states: s.states.insert(sk, sender),
        };
        if !s1.indices.contains_key(rk) {
            (Err(ExecError::UnknownRecipient(tx.recipient)), s1)
        } else if !s1.states.contains_key(rk) {
            (Err(ExecError::MissingRecipientState(tx.recipient)), s1)
        } else {
            let recipient = credited(s1.states[rk], tx.amount);
            (
                Ok(()),
                L2StateView {
                    tree: s1.tree.update(s1.indices[rk] as nat, leaf_of(recipient)),
                    indices: s1.indices,
                    states: s1.states.insert(rk, recipient),
                },
            )
        }
    }
}

/// A batch applied in order, stopping at the first failing transfer.
pub open spec fn run_batch(s: L2StateView, txs: Seq<L2Transaction>) -> Result<L2StateView, ExecError>
    decreases txs.len(),
{
    if txs.len() == 0 {
        Ok(s)
    } else {
        match apply_tx(s, txs[0]) {
            (Err(e), _) => Err(e),
            (Ok(()), s2) => run_batch(s2, txs.drop_first()),
        }
    }
}

/// The sum of the balances of a list of accounts.
pub open spec fn sum_balances(v: Seq<AccountState>) -> nat
    decreases v.len(),
{
    if v.len() == 0 {
        0
    } else {
        sum_balances(v.drop_last()) + v.last().balance as nat
    }
}

/// Replacing one account changes the sum by the difference of the two balances;
/// every balance is at most the sum.
pub proof fn lemma_sum_update(v: Seq<AccountState>, i: int, a: AccountState)
    requires
        0 <= i < v.len(),
    ensures
        sum_balances(v.update(i, a)) == sum_balances(v) - v[i].balance + a.balance,
        v[i].balance <= sum_balances(v),
    decreases v.len(),
{
    if i == v.len() - 1 {
        assert(v.update(i, a).drop_last() =~= v.drop_last());
    } else {
        lemma_sum_update(v.drop_last(), i, a);
        assert(v.update(i, a).drop_last() =~= v.drop_last().update(i, a));
    }
}

/// The sum of all account balances of a state.
pub open spec fn total_balance(state: &L2State) -> nat {
    sum_balances(state.account_states.value_seq())
}

/// Whether the transfer, applied to `s`, would overflow: it passes the
/// sender's checks and the sender's nonce is already `u64::MAX`, or the
/// recipient's balance plus the amount passes `u128::MAX`.
pub open spec fn tx_overflows(s: L2StateView, tx: L2Transaction) -> bool {
    let sk = tx.sender@;
    let rk = tx.recipient@;
    if s.indices.contains_key(sk) && s.states.contains_key(sk) && s.states[sk].nonce == tx.nonce
        && s.states[sk].balance >= tx.amount {
        if s.states[sk].nonce == u64::MAX {
            true
        } else {
            let states1 = s.states.insert(sk, debited(s.states[sk], tx.amount));
            s.indices.contains_key(rk) && states1.contains_key(rk) && states1[rk].balance + tx.amount
                > u128::MAX
        }
    } else {
        false
    }
}

/// Whether some transfer of the batch, applied in order, would overflow
/// before the batch stops at its first failing transfer.
pub open spec fn batch_overflows(s: L2StateView, txs: Seq<L2Transaction>) -> bool
    decreases txs.len(),
{
    if txs.len() == 0 {
        false
    } else if tx_overflows(s, txs[0]) {
        true
    } else {
        match apply_tx(s, txs[0]) {
            (Err(_), _) => false,
            (Ok(()), s2) => batch_overflows(s2, txs.drop_first()),
        }
    }
}

/// What a successful transfer changes: the same registered keys and leaf
/// indices; the sender's nonce up by one and every other nonce as it was; the
/// amount moved from the sender's balance to the recipient's (no change when
/// they are the same account); every other account untouched.
pub proof fn lemma_transfer_effect(s: L2StateView, tx: L2Transaction)
    requires
        !tx_overflows(s, tx),
        apply_tx(s, tx).0 is Ok,
    ensures
        ({
            let s2 = apply_tx(s, tx).1;
            let sk = tx.sender@;
            let rk = tx.recipient@;
            &&& s2.indices == s.indices
            &&& s2.states.dom() == s.states.dom()
            &&& s.states.contains_key(sk) && s.states.contains_key(rk)
            &&& s2.states[sk].nonce == s.states[sk].nonce + 1
            &&& forall|k: Seq<u8>|
                #![trigger s2.states[k]]
                s.states.contains_key(k) && k != sk ==> s2.states[k].nonce == s.states[k].nonce
            &&& sk != rk ==> s2.states[sk].balance == s.states[sk].balance - tx.amount
                && s2.states[rk].balance == s.states[rk].balance + tx.amount
            &&& sk == rk ==> s2.states[sk].balance == s.states[sk].balance
            &&& forall|k: Seq<u8>|
                #![trigger s2.states[k]]
                s.states.contains_key(k) && k != sk && k != rk ==> s2.states[k] == s.states[k]
        }),
{
    let sk = tx.sender@;
    let rk = tx.recipient@;
    let sender = debited(s.states[sk], tx.amount);
    let states1 = s.states.insert(sk, sender);
    let s2 = apply_tx(s, tx).1;
    assert(s2.states == states1.insert(rk, credited(states1[rk], tx.amount)));
    assert(s2.states.dom() =~= s.states.dom());
}

/// Whether `tx` would overflow on `state`.
pub fn tx_would_overflow(state: &L2State, tx: &L2Transaction) -> (res: bool)
    ensures
        res == tx_overflows(state@, *tx),
{
    let sender = match state.account_states.get(&tx.sender) {
        Some(a) => a,
        None => {
            return false;
        },
    };
    if state.account_indices.get(&tx.sender).is_none() || sender.nonce != tx.nonce
        || sender.balance < tx.amount {
        return false;
    }
    if sender.nonce == u64::MAX {
        return true;
    }
    if state.account_indices.get(&tx.recipient).is_none() {
        return false;
    }
    if crate::address_map::addr_eq(&tx.sender, &tx.recipient) {
        proof {
            assert(tx.sender@ =~= tx.recipient@);
        }
        return false;
    }
    proof {
        if tx.sender@ == tx.recipient@ {
            assert(tx.sender =~= tx.recipient);
        }
    }
    match state.account_states.get(&tx.recipient) {
        Some(r) => r.balance > u128::MAX - tx.amount,
        None => false,
    }
}

/// Applies one transfer: checks the sender, debits it and bumps its nonce,
/// rewrites its leaf, then credits the registered recipient and rewrites its
/// leaf. A successful transfer keeps the total of all balances.
pub fn apply_transaction(state: &mut L2State, tx: &L2Transaction) -> (res: Result<(), ExecError>)
    requires
        old(state).tree.shape_ok(),
        !tx_overflows(old(state)@, *tx),
    ensures
        (res, final(state)@) == apply_tx(old(state)@, *tx),
        final(state).tree.shape_ok(),
        res is Ok ==> total_balance(final(state)) == total_balance(old(state)),
{
    let ghost s0 = state@;
    let ghost vals0 = state.account_states.value_seq();
    let ghost keys0 = state.account_states.key_seq();
    proof {
        use_type_invariant(&state.account_states);
        state.account_states.lemma_view_entries();
    }
    let sender_idx = match state.account_indices.get(&tx.sender) {
        Some(i) => i,
        None => {
            return Err(ExecError::UnknownSender(tx.sender));
        },
    };
    let sender = match state.account_states.get(&tx.sender) {
        Some(a) => a,
        None => {
            return Err(ExecError::MissingSenderState(tx.sender));
        },
    };
    if sender.nonce != tx.nonce {
        return Err(ExecError::NonceMismatch { expected: sender.nonce, got: tx.nonce });
    }
    if sender.balance < tx.amount {
        return Err(ExecError::InsufficientBalance { has: sender.balance, needs: tx.amount });
    }
    let ghost is = keys0.index_of(tx.sender@);
    proof {
        assert(keys0.contains(tx.sender@));
        assert(keys0[is] == tx.sender@);
        assert(vals0[is] == sender);
        lemma_sum_update(vals0, is, debited(sender, tx.amount));
    }
    let mut updated_sender = sender;
    updated_sender.balance = sender.balance - tx.amount;
    updated_sender.nonce = sender.nonce + 1;
    assert(updated_sender == debited(sender, tx.amount));
    state.account_states.insert(tx.sender, updated_sender);
    state.tree.update_leaf_from_account(sender_idx, &updated_sender);
    let ghost vals1 = state.account_states.value_seq();
    let ghost keys1 = state.account_states.key_seq();
    proof {
        assert(vals1 == vals0.update(is, updated_sender)) by {
            let i = choose|i: int|
                0 <= i < vals0.len() && keys0[i] == tx.sender@ && vals1 == vals0.update(
                    i,
                    updated_sender,
                );
            assert(keys0[i] == keys0[is]);
        }
        assert(sum_balances(vals1) + tx.amount == sum_balances(vals0));
        use_type_invariant(&state.account_states);
        state.account_states.lemma_view_entries();
    }
    let recipient_idx = match state.account_indices.get(&tx.recipient) {
        Some(i) => i,
        None => {
            return Err(ExecError::UnknownRecipient(tx.recipient));
        },
    };
    let recipient = match state.account_states.get(&tx.recipient) {
        Some(a) => a,
        None => {
            return Err(ExecError::MissingRecipientState(tx.recipient));
        },
    };
    let ghost ir = keys1.index_of(tx.recipient@);
    proof {
        assert(keys1.contains(tx.recipient@));
        assert(keys1[ir] == tx.recipient@);
        assert(vals1[ir] == recipient);
        lemma_sum_update(vals1, ir, credited(recipient, tx.amount));
    }
    let mut updated_recipient = recipient;
    updated_recipient.balance = recipient.balance + tx.amount;
    assert(updated_recipient == credited(recipient, tx.amount));
    state.account_states.insert(tx.recipient, updated_recipient);
    state.tree.update_leaf_from_account(recipient_idx, &updated_recipient);
    proof {
        let vals2 = state.account_states.value_seq();
        assert(vals2 == vals1.update(ir, updated_recipient)) by {
            let i = choose|i: int|
                0 <= i < vals1.len() && keys1[i] == tx.recipient@ && vals2 == vals1.update(
                    i,
                    updated_recipient,
                );
            assert(keys1[i] == keys1[ir]);
        }
    }
    Ok(())
}

/// Applies the transfers in order, checking before each one whether it would
/// overflow: `None` exactly when some transfer would (before the first failing
/// one); otherwise the outcome of the batch.
pub fn try_execute_batch(state: L2State, txs: Vec<L2Transaction>) -> (res: Option<
    Result<(PoseidonHash, L2State), ExecError>,
>)
    requires
        state.tree.shape_ok(),
    ensures
        res is None <==> batch_overflows(state@, txs@),
        res matches Some(Ok(out)) ==> run_batch(state@, txs@) == Ok::<L2StateView, ExecError>(
            out.1@,
        ) && out.0 == out.1@.tree.root && total_balance(&out.1) == total_balance(&state)
            && out.1.tree.shape_ok(),
        res matches Some(Err(e)) ==> run_batch(state@, txs@) == Err::<L2StateView, ExecError>(e),
{
    let ghost s0 = state@;
    let mut st = state;
    let ghost total0 = total_balance(&st);
    let mut i: usize = 0;
    proof {
        assert(txs@.skip(0) =~= txs@);
    }
    while i < txs.len()
        invariant
            0 <= i <= txs@.len(),
            st.tree.shape_ok(),
            total_balance(&st) == total0,
            run_batch(s0, txs@) == run_batch(st@, txs@.skip(i as int)),
            batch_overflows(s0, txs@) == batch_overflows(st@, txs@.skip(i as int)),
            s0 == state@,
            total0 == total_balance(&state),
        decreases txs@.len() - i,
    {
        let ghost before = st@;
        proof {
            assert(txs@.skip(i as int)[0] == txs@[i as int]);
            assert(txs@.skip(i as int).drop_first() =~= txs@.skip(i + 1));
        }
        if tx_would_overflow(&st, &txs[i]) {
            return None;
        }
        match apply_transaction(&mut st, &txs[i]) {
            Ok(()) => {},
            Err(e) => {
                proof {
                    let t = txs@.skip(i as int);
                    assert(apply_tx(before, t[0]).0 == Err::<(), ExecError>(e));
                    assert(run_batch(before, t) == Err::<L2StateView, ExecError>(e));
                    assert(!batch_overflows(before, t));
                }
                return Some(Err(e));
            },
        }
        i += 1;
    }
    proof {
        assert(txs@.skip(i as int) =~= Seq::<L2Transaction>::empty());
    }
    let new_root = st.tree.root;
    Some(Ok((new_root, st)))
}

/// Applies the transfers in order. On success returns the new root and state;
/// the first failing transfer aborts the batch with its error. No transfer
/// may overflow a nonce or a balance on the way.
pub fn execute_batch(state: L2State, txs: Vec<L2Transaction>) -> (res: Result<
    (PoseidonHash, L2State),
    ExecError,
>)
    requires
        state.tree.shape_ok(),
        !batch_overflows(state@, txs@),
    ensures
        res is Ok ==> run_batch(state@, txs@) == Ok::<L2StateView, ExecError>(res->Ok_0.1@),
        res is Ok ==> res->Ok_0.0 == res->Ok_0.1@.tree.root,
        res is Ok ==> total_balance(&res->Ok_0.1) == total_balance(&state),
        res is Err ==> run_batch(state@, txs@) == Err::<L2StateView, ExecError>(res->Err_0),
{
    match try_execute_batch(state, txs) {
        Some(r) => r,
        None => {
            proof {
                assert(false);
            }
            Err(ExecError::UnknownSender([0u8; 20]))
        },
    }
}

/// Every account that has both a leaf index and a state has its commitment at
/// that leaf of the tree.
pub open spec fn leaves_match(s: L2StateView) -> bool {
    forall|k: Seq<u8>|
        s.indices.contains_key(k) && s.states.contains_key(k) ==> #[trigger] s.tree.node(
            0,
            s.indices[k] as nat,
        ) == leaf_of(s.states[k])
}

/// No two accounts share a leaf index, and every index lies inside the tree.
pub open spec fn indices_ok(s: L2StateView) -> bool {
    &&& forall|k1: Seq<u8>, k2: Seq<u8>|
        s.indices.contains_key(k1) && s.indices.contains_key(k2) && k1 != k2 ==> #[trigger] s.indices[k1]
            != #[trigger] s.indices[k2]
    &&& forall|k: Seq<u8>| #[trigger] s.indices.contains_key(k) ==> s.indices[k] < pow2(s.tree.depth)
}

/// The invariant of a consistent L2 state: a well-formed rooted tree whose
/// leaves commit to the accounts at their distinct indices.
pub open spec fn state_consistent(s: L2StateView) -> bool {
    &&& s.tree.wf()
    &&& s.tree.rooted()
    &&& indices_ok(s)
    &&& leaves_match(s)
}

proof fn lemma_write_account(s: L2StateView, k: Seq<u8>, a: AccountState)
    requires
        state_consistent(s),
        s.indices.contains_key(k),
    ensures
        state_consistent(
            L2StateView {
                tree: s.tree.update(s.indices[k] as nat, leaf_of(a)),
                indices: s.indices,
                states: s.states.insert(k, a),
            },
        ),
{
    let idx = s.indices[k] as nat;
    let s1 = L2StateView {
        tree: s.tree.update(idx, leaf_of(a)),
        indices: s.indices,
        states: s.states.insert(k, a),
    };
    lemma_update_preserves_wf(s.tree, idx, leaf_of(a));
    assert forall|k2: Seq<u8>|
        s1.indices.contains_key(k2) && s1.states.contains_key(k2) implies #[trigger] s1.tree.node(
        0,
        s1.indices[k2] as nat,
    ) == leaf_of(s1.states[k2]) by {
        lemma_update_read_back(s.tree, idx, leaf_of(a), s.indices[k2] as nat);
    }
}

/// A transfer that succeeds on a consistent state leaves it consistent.
pub proof fn lemma_apply_tx_keeps_consistency(s: L2StateView, tx: L2Transaction)
    requires
        state_consistent(s),
    ensures
        apply_tx(s, tx).0 is Ok ==> state_consistent(apply_tx(s, tx).1),
{
    let sk = tx.sender@;
    let rk = tx.recipient@;
    if s.indices.contains_key(sk) && s.states.contains_key(sk) && s.states[sk].nonce == tx.nonce
        && s.states[sk].balance >= tx.amount {
        let sender = debited(s.states[sk], tx.amount);
        lemma_write_account(s, sk, sender);
        let s1 = L2StateView {
            tree: s.tree.update(s.indices[sk] as nat, leaf_of(sender)),
            indices: s.indices,
            states: s.states.insert(sk, sender),
        };
        if s1.indices.contains_key(rk) && s1.states.contains_key(rk) {
            lemma_write_account(s1, rk, credited(s1.states[rk], tx.amount));
        }
    }
}

/// A batch that succeeds on a consistent state leaves it consistent.
pub proof fn lemma_run_batch_keeps_consistency(s: L2StateView, txs: Seq<L2Transaction>)
    requires
        state_consistent(s),
    ensures
        run_batch(s, txs) is Ok ==> state_consistent(run_batch(s, txs)->Ok_0),
    decreases txs.len(),
{
    if txs.len() > 0 {
        lemma_apply_tx_keeps_consistency(s, txs[0]);
        if apply_tx(s, txs[0]).0 is Ok {
            lemma_run_batch_keeps_consistency(apply_tx(s, txs[0]).1, txs.drop_first());
        }
    }
}

/// In a consistent state the Merkle proof of every registered account leads
/// from the commitment of its current state to the root.
pub proof fn lemma_account_proof_verifies(s: L2StateView, k: Seq<u8>)
    requires
        state_consistent(s),
        s.indices.contains_key(k),
        s.states.contains_key(k),
    ensures
        fold_path(
            leaf_of(s.states[k]),
            s.indices[k] as nat,
            s.tree.siblings_of(s.indices[k] as nat),
        ) == s.tree.root,
{
    lemma_every_leaf_proof_verifies(s.tree, s.indices[k] as nat);
}

} // verus!
