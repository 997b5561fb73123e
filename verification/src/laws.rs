//! The ledger's guarantees, stated and proved against the model.
//!
//! Every executable handler's `ensures` ties it to the corresponding
//! `*_model` function, so each law proved here holds of the running engine
//! as well.

use vstd::prelude::*;

use crate::model::{
    EngineView, apply_model, avail_sum, chargeback_model, client_at, deposit_model,
    dispute_delta, dispute_model, has_client, has_tx, held_sum, insert_pos,
    lemma_client_at_unique, lemma_insert_pos_in_range, lemma_tx_at_unique, resolve_model, tx_at,
    wf, withdrawal_model,
};
use crate::transactions::{
    Client, TransactionId, TransactionValidationError, TxRec, TxStatus, valid_amount,
};

verus! {

/// Everything ever deposited for `client`, disputed or not.
pub open spec fn deposit_total(h: Seq<TxRec>, client: Client) -> int
    decreases h.len(),
{
    if h.len() == 0 {
        0
    } else {
        deposit_total(h.drop_last(), client) + if h.last().client == client && h.last().kind
            is Deposit {
            h.last().amount
        } else {
            0
        }
    }
}

/// Everything ever withdrawn for `client`, disputed or not.
pub open spec fn withdrawal_total(h: Seq<TxRec>, client: Client) -> int
    decreases h.len(),
{
    if h.len() == 0 {
        0
    } else {
        withdrawal_total(h.drop_last(), client) + if h.last().client == client && h.last().kind
            is Withdrawal {
            h.last().amount
        } else {
            0
        }
    }
}

/// Everything charged back for `client`, of either original kind.
pub open spec fn chargeback_total(h: Seq<TxRec>, client: Client) -> int
    decreases h.len(),
{
    if h.len() == 0 {
        0
    } else {
        chargeback_total(h.drop_last(), client) + if h.last().client == client && h.last().status
            is ChargedBack {
            h.last().amount
        } else {
            0
        }
    }
}

/// The sums prescribed for a client always add up to deposits minus
/// withdrawals minus chargeback reductions.
proof fn lemma_conservation(h: Seq<TxRec>, client: Client)
    ensures
        avail_sum(h, client) + held_sum(h, client) == deposit_total(h, client) - withdrawal_total(
            h,
            client,
        ) - chargeback_total(h, client),
    decreases h.len(),
{
    if h.len() > 0 {
        lemma_conservation(h.drop_last(), client);
    }
}

/// Double-entry consistency: in a well-formed engine, every account's
/// `available + held` equals the sum of all amounts ever deposited to it,
/// minus all amounts ever withdrawn, minus all chargeback reductions.
pub proof fn lemma_double_entry(s: EngineView, j: int)
    requires
        wf(s),
        0 <= j < s.accounts.len(),
    ensures
        s.accounts[j].available + s.accounts[j].held == deposit_total(
            s.history,
            s.accounts[j].client,
        ) - withdrawal_total(s.history, s.accounts[j].client) - chargeback_total(
            s.history,
            s.accounts[j].client,
        ),
{
    lemma_conservation(s.history, s.accounts[j].client);
}

/// A deposit or withdrawal that reuses a recorded transaction id fails and
/// mutates nothing; with a valid amount the failure is `Duplicate`.
pub proof fn lemma_duplicate_id_unchanged(
    s: EngineView,
    client: Client,
    tx: TransactionId,
    amount: int,
)
    requires
        has_tx(s.history, tx),
    ensures
        deposit_model(s, client, tx, amount).0 == s,
        deposit_model(s, client, tx, amount).1 is Err,
        withdrawal_model(s, client, tx, amount).0 == s,
        withdrawal_model(s, client, tx, amount).1 is Err,
        valid_amount(amount) ==> deposit_model(s, client, tx, amount).1 == Err::<
            (),
            TransactionValidationError,
        >(TransactionValidationError::Duplicate(tx)),
        valid_amount(amount) ==> withdrawal_model(s, client, tx, amount).1 == Err::<
            (),
            TransactionValidationError,
        >(TransactionValidationError::Duplicate(tx)),
{
}

/// A dispute followed by a resolve of the same transaction is owed success,
/// and restores the engine — balances and record state — exactly.
pub proof fn lemma_dispute_resolve_round_trip(s: EngineView, client: Client, tx: TransactionId)
    requires
        wf(s),
        dispute_model(s, client, tx).1 is Ok,
    ensures
        resolve_model(dispute_model(s, client, tx).0, client, tx).1 is Ok,
        resolve_model(dispute_model(s, client, tx).0, client, tx).0 == s,
{
    let s1 = dispute_model(s, client, tx).0;
    assert(has_tx(s.history, tx));
    let i = tx_at(s.history, tx);
    assert(0 <= i < s.history.len() && s.history[i].tx == tx);
    let r = s.history[i];
    let j = client_at(s.accounts, r.client);
    assert(0 <= j < s.accounts.len() && s.accounts[j].client == r.client);
    let d = dispute_delta(r);
    let rec2 = TxRec { status: TxStatus::Disputed, ..r };
    assert(s1.history == s.history.update(i, rec2));
    assert forall|a: int, b: int| 0 <= a < b < s1.history.len() implies (
    #[trigger] s1.history[a]).tx != (#[trigger] s1.history[b]).tx by {
        assert(s1.history[a].tx == s.history[a].tx && s1.history[b].tx == s.history[b].tx);
    }
    lemma_tx_at_unique(s1.history, tx, i);
    assert forall|a: int, b: int| 0 <= a < b < s1.accounts.len() implies (
    #[trigger] s1.accounts[a]).client < (#[trigger] s1.accounts[b]).client by {
        assert(s1.accounts[a].client == s.accounts[a].client && s1.accounts[b].client
            == s.accounts[b].client);
    }
    lemma_client_at_unique(s1.accounts, r.client, j);
    assert(s1.history[i] == rec2);
    let back = resolve_model(s1, client, tx);
    assert(back.1 is Ok);
    let rec3 = TxRec { status: TxStatus::Normal, ..rec2 };
    assert(rec3 == r);
    assert(back.0.history =~= s.history);
    let a1 = s1.accounts[j];
    let a2 = crate::transactions::AccountRec {
        available: a1.available + dispute_delta(rec2),
        held: a1.held - dispute_delta(rec2),
        ..a1
    };
    assert(dispute_delta(rec2) == d);
    assert(a2 == s.accounts[j]);
    assert(back.0.accounts =~= s.accounts);
    assert(back.0 =~~= s);
}

/// A transaction can be charged back at most once: after a successful
/// chargeback, a second attempt fails with the duplicate error and leaves
/// the state unchanged.
pub proof fn lemma_chargeback_only_once(s: EngineView, client: Client, tx: TransactionId)
    requires
        wf(s),
        chargeback_model(s, client, tx).1 is Ok,
    ensures
        chargeback_model(chargeback_model(s, client, tx).0, client, tx).0 == chargeback_model(
            s,
            client,
            tx,
        ).0,
        chargeback_model(chargeback_model(s, client, tx).0, client, tx).1 == Err::<
            (),
            TransactionValidationError,
        >(TransactionValidationError::Duplicate(tx)),
{
    let s1 = chargeback_model(s, client, tx).0;
    assert(has_tx(s.history, tx));
    let i = tx_at(s.history, tx);
    assert(0 <= i < s.history.len() && s.history[i].tx == tx);
    let rec2 = TxRec { status: TxStatus::ChargedBack, ..s.history[i] };
    assert(s1.history == s.history.update(i, rec2));
    assert forall|a: int, b: int| 0 <= a < b < s1.history.len() implies (
    #[trigger] s1.history[a]).tx != (#[trigger] s1.history[b]).tx by {
        assert(s1.history[a].tx == s.history[a].tx && s1.history[b].tx == s.history[b].tx);
    }
    lemma_tx_at_unique(s1.history, tx, i);
    assert(s1.history[i] == rec2);
}

/// Withdrawals from a frozen account always fail and mutate nothing.
pub proof fn lemma_frozen_blocks_withdrawals(
    s: EngineView,
    client: Client,
    tx: TransactionId,
    amount: int,
)
    requires
        wf(s),
        has_client(s.accounts, client),
        s.accounts[client_at(s.accounts, client)].frozen,
    ensures
        withdrawal_model(s, client, tx, amount).0 == s,
        withdrawal_model(s, client, tx, amount).1 is Err,
{
}

/// Deposits succeed whenever the amount is valid and the id is fresh —
/// whether or not the account is frozen.
pub proof fn lemma_deposit_succeeds(s: EngineView, client: Client, tx: TransactionId, amount: int)
    requires
        valid_amount(amount),
        !has_tx(s.history, tx),
    ensures
        deposit_model(s, client, tx, amount).1 == Ok::<(), TransactionValidationError>(()),
{
}

/// Replacing one account in a sorted table — keeping its client, and keeping
/// it frozen if it is the watched client's — leaves the watched client
/// present and frozen.
proof fn lemma_frozen_after_update(
    accs: Seq<crate::transactions::AccountRec>,
    client: Client,
    jc: int,
    j2: int,
    a2: crate::transactions::AccountRec,
)
    requires
        forall|a: int, b: int|
            0 <= a < b < accs.len() ==> (#[trigger] accs[a]).client < (#[trigger] accs[b]).client,
        0 <= jc < accs.len(),
        accs[jc].client == client,
        accs[jc].frozen,
        0 <= j2 < accs.len(),
        a2.client == accs[j2].client,
        j2 == jc ==> a2.frozen,
    ensures
        has_client(accs.update(j2, a2), client),
        forall|j: int|
            0 <= j < accs.update(j2, a2).len() && (#[trigger] accs.update(j2, a2)[j]).client
                == client ==> accs.update(j2, a2)[j].frozen,
{
    let accs2 = accs.update(j2, a2);
    assert(accs2[jc].client == client);
    assert(has_client(accs2, client));
    assert forall|j: int|
        0 <= j < accs2.len() && (#[trigger] accs2[j]).client == client implies accs2[j].frozen by {
        if j != jc {
            let jo = if j == j2 { j2 } else { j };
            assert(accs[jo].client == client);
            if jo < jc {
                assert(accs[jo].client < accs[jc].client);
            } else {
                assert(accs[jc].client < accs[jo].client);
            }
        }
    }
}

/// Inserting an account for some other client into a sorted table leaves
/// the watched client present and frozen.
proof fn lemma_frozen_after_insert(
    accs: Seq<crate::transactions::AccountRec>,
    client: Client,
    jc: int,
    k: int,
    anew: crate::transactions::AccountRec,
)
    requires
        forall|a: int, b: int|
            0 <= a < b < accs.len() ==> (#[trigger] accs[a]).client < (#[trigger] accs[b]).client,
        0 <= jc < accs.len(),
        accs[jc].client == client,
        accs[jc].frozen,
        0 <= k <= accs.len(),
        anew.client != client,
    ensures
        has_client(accs.insert(k, anew), client),
        forall|j: int|
            0 <= j < accs.insert(k, anew).len() && (#[trigger] accs.insert(k, anew)[j]).client
                == client ==> accs.insert(k, anew)[j].frozen,
{
    accs.insert_ensures(k, anew);
    let accs2 = accs.insert(k, anew);
    let w = if jc < k {
        jc
    } else {
        jc + 1
    };
    assert(accs2[w] == accs[jc]);
    assert(accs2[w].client == client);
    assert(has_client(accs2, client));
    assert forall|j: int|
        0 <= j < accs2.len() && (#[trigger] accs2[j]).client == client implies accs2[j].frozen by {
        if j == k {
            assert(accs2[k] == anew);
        } else {
            let jo = if j < k {
                j
            } else {
                j - 1
            };
            assert(accs2[j] == accs[jo]);
            if jo != jc {
                if jo < jc {
                    assert(accs[jo].client < accs[jc].client);
                } else {
                    assert(accs[jc].client < accs[jo].client);
                }
            }
        }
    }
}

/// A frozen account never unfreezes and never disappears: whatever command
/// comes next, the client still has an account and every account of that
/// client is still frozen.
pub proof fn lemma_frozen_is_permanent(
    s: EngineView,
    t: crate::transactions::Transaction,
    client: Client,
)
    requires
        wf(s),
        has_client(s.accounts, client),
        s.accounts[client_at(s.accounts, client)].frozen,
    ensures
        has_client(apply_model(s, t).0.accounts, client),
        forall|j: int|
            0 <= j < apply_model(s, t).0.accounts.len() && (#[trigger] apply_model(
                s,
                t,
            ).0.accounts[j]).client == client ==> apply_model(s, t).0.accounts[j].frozen,
{
    let jc = client_at(s.accounts, client);
    assert(0 <= jc < s.accounts.len() && s.accounts[jc].client == client);
    let accs2 = apply_model(s, t).0.accounts;
    match t {
        crate::transactions::Transaction::Deposit { client: c2, tx, amount } => {
            if valid_amount(amount@) && !has_tx(s.history, tx) {
                if has_client(s.accounts, c2) {
                    let j2 = client_at(s.accounts, c2);
                    assert(0 <= j2 < s.accounts.len() && s.accounts[j2].client == c2);
                    let a = s.accounts[j2];
                    lemma_frozen_after_update(
                        s.accounts,
                        client,
                        jc,
                        j2,
                        crate::transactions::AccountRec { available: a.available + amount@, ..a },
                    );
                } else {
                    lemma_insert_pos_in_range(s.accounts, c2);
                    lemma_frozen_after_insert(
                        s.accounts,
                        client,
                        jc,
                        insert_pos(s.accounts, c2),
                        crate::transactions::AccountRec {
                            client: c2,
                            available: amount@,
                            held: 0,
                            frozen: false,
                        },
                    );
                }
            }
        },
        crate::transactions::Transaction::Withdrawal { client: c2, tx, amount } => {
            if valid_amount(amount@) && !has_tx(s.history, tx) && has_client(s.accounts, c2) {
                let j2 = client_at(s.accounts, c2);
                assert(0 <= j2 < s.accounts.len() && s.accounts[j2].client == c2);
                let a = s.accounts[j2];
                if !a.frozen && a.available >= amount@ {
                    // The watched account is frozen, so a succeeding
                    // withdrawal must belong to some other client.
                    lemma_frozen_after_update(
                        s.accounts,
                        client,
                        jc,
                        j2,
                        crate::transactions::AccountRec { available: a.available - amount@, ..a },
                    );
                }
            }
        },
        crate::transactions::Transaction::Dispute { client: c2, tx } => {
            lemma_frozen_after_reference(s, client, jc, c2, tx);
        },
        crate::transactions::Transaction::Resolve { client: c2, tx } => {
            lemma_frozen_after_reference(s, client, jc, c2, tx);
        },
        crate::transactions::Transaction::Chargeback { client: c2, tx } => {
            lemma_frozen_after_reference(s, client, jc, c2, tx);
        },
    }
}

/// The dispute, resolve and chargeback handlers replace one account with
/// one of the same client whose frozen flag never goes from true to false;
/// the watched frozen client therefore stays frozen.
proof fn lemma_frozen_after_reference(
    s: EngineView,
    client: Client,
    jc: int,
    c2: Client,
    tx: crate::transactions::TransactionId,
)
    requires
        wf(s),
        0 <= jc < s.accounts.len(),
        s.accounts[jc].client == client,
        s.accounts[jc].frozen,
    ensures
        has_client(dispute_model(s, c2, tx).0.accounts, client),
        forall|j: int|
            0 <= j < dispute_model(s, c2, tx).0.accounts.len() && (#[trigger] dispute_model(
                s,
                c2,
                tx,
            ).0.accounts[j]).client == client ==> dispute_model(s, c2, tx).0.accounts[j].frozen,
        has_client(resolve_model(s, c2, tx).0.accounts, client),
        forall|j: int|
            0 <= j < resolve_model(s, c2, tx).0.accounts.len() && (#[trigger] resolve_model(
                s,
                c2,
                tx,
            ).0.accounts[j]).client == client ==> resolve_model(s, c2, tx).0.accounts[j].frozen,
        has_client(chargeback_model(s, c2, tx).0.accounts, client),
        forall|j: int|
            0 <= j < chargeback_model(s, c2, tx).0.accounts.len() && (#[trigger] chargeback_model(
                s,
                c2,
                tx,
            ).0.accounts[j]).client == client ==> chargeback_model(s, c2, tx).0.accounts[j].frozen,
{
    if has_tx(s.history, tx) {
        let i = tx_at(s.history, tx);
        assert(0 <= i < s.history.len() && s.history[i].tx == tx);
        let r = s.history[i];
        if has_client(s.accounts, r.client) {
            let j2 = client_at(s.accounts, r.client);
            assert(0 <= j2 < s.accounts.len() && s.accounts[j2].client == r.client);
            let a = s.accounts[j2];
            let d = dispute_delta(r);
            lemma_frozen_after_update(
                s.accounts,
                client,
                jc,
                j2,
                crate::transactions::AccountRec {
                    available: a.available - d,
                    held: a.held + d,
                    ..a
                },
            );
            lemma_frozen_after_update(
                s.accounts,
                client,
                jc,
                j2,
                crate::transactions::AccountRec {
                    available: a.available + d,
                    held: a.held - d,
                    ..a
                },
            );
            lemma_frozen_after_update(
                s.accounts,
                client,
                jc,
                j2,
                crate::transactions::AccountRec { held: a.held - r.amount, frozen: true, ..a },
            );
        }
    }
}

/// A dispute, resolve or chargeback naming a transaction that belongs to a
/// different client fails with `InvalidTransaction` and mutates nothing.
pub proof fn lemma_client_mismatch_fails(s: EngineView, client: Client, tx: TransactionId)
    requires
        wf(s),
        has_tx(s.history, tx),
        s.history[tx_at(s.history, tx)].client != client,
    ensures
        dispute_model(s, client, tx) == (s, Err::<(), TransactionValidationError>(
            TransactionValidationError::InvalidTransaction(tx),
        )),
        resolve_model(s, client, tx) == (s, Err::<(), TransactionValidationError>(
            TransactionValidationError::InvalidTransaction(tx),
        )),
        chargeback_model(s, client, tx) == (s, Err::<(), TransactionValidationError>(
            TransactionValidationError::InvalidTransaction(tx),
        )),
{
}

} // verus!
