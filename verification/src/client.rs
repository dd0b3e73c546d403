use vstd::prelude::*;

use crate::accounts::{msg_hash, signature_of, build_signed_tx, Account};
use crate::address_map::AddressMap;
use crate::tx::{L2Transaction, L2TransactionStatus};

verus! {

/// The next nonce the client uses for an account: the last one it saw accepted
/// plus one, or the one fetched from the sequencer, or zero.
pub open spec fn nonce_of(nonces: Map<Seq<u8>, u64>, owner: [u8; 20]) -> u64 {
    if nonces.contains_key(owner@) {
        nonces[owner@]
    } else {
        0
    }
}

/// The signed transfer of `amount` from account `s_idx` to account `r_idx` of
/// `local`, at the sender's next nonce.
pub fn next_transfer(
    local: &Vec<Account>,
    nonces: &AddressMap<u64>,
    s_idx: usize,
    r_idx: usize,
    amount: u128,
) -> (res: L2Transaction)
    requires
        s_idx < local@.len(),
        r_idx < local@.len(),
    ensures
        ({
            let sender = local@[s_idx as int];
            let recipient = local@[r_idx as int];
            let nonce = nonce_of(nonces.view(), sender.owner_address);
            &&& res.tx_hash.0 == msg_hash(sender.l2_address, recipient.l2_address, amount, nonce)
            &&& res.sender == sender.owner_address
            &&& res.recipient == recipient.owner_address
            &&& res.amount == amount
            &&& res.fee == 0
            &&& res.nonce == nonce
            &&& res.status == L2TransactionStatus::Pending
            &&& res.batch_id == None::<i32>
            &&& res.sig_r8_x@ == signature_of(sender, sender.l2_address, recipient.l2_address, amount, nonce).0
            &&& res.sig_r8_y@ == signature_of(sender, sender.l2_address, recipient.l2_address, amount, nonce).1
            &&& res.sig_s@ == signature_of(sender, sender.l2_address, recipient.l2_address, amount, nonce).2
        }),
{
    let sender = &local[s_idx];
    let recipient = &local[r_idx];
    let nonce = match nonces.get(&sender.owner_address) {
        Some(n) => n,
        None => 0,
    };
    build_signed_tx(sender, recipient, amount, nonce)
}

/// Notes that the sequencer accepted `tx`: the sender's next nonce is one more.
pub fn record_accepted(nonces: &mut AddressMap<u64>, tx: &L2Transaction)
    requires
        tx.nonce < u64::MAX,
    ensures
        final(nonces).view() == old(nonces).view().insert(tx.sender@, (tx.nonce + 1) as u64),
{
    nonces.insert(tx.sender, tx.nonce + 1);
}

} // verus!
