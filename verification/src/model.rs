//! The mathematical model of the ledger engine.
//!
//! An `EngineView` is the ghost image of the engine's two tables. The five
//! `*_model` functions say, value for value, what one applied command does to
//! that image and which result it returns; the executable handlers promise in
//! their `ensures` to agree with them exactly. `wf` is the engine's
//! invariant: accounts sorted and unique, transaction ids unique, recorded
//! amounts valid, and every balance equal to the signed sum of its client's
//! recorded history — the double-entry bookkeeping statement.

use vstd::prelude::*;

use crate::amount::{MAX_AMOUNT_UNITS, MAX_BALANCE_UNITS};
use crate::transactions::{
    AccountRec, Client, TransactionId, TransactionValidationError, TxKind, TxRec, TxStatus,
    valid_amount,
};

verus! {

/// The ghost image of the engine: its accounts, ascending by client, and its
/// recorded history, in order of insertion.
#[verifier::ext_equal]
pub struct EngineView {
    pub accounts: Seq<AccountRec>,
    pub history: Seq<TxRec>,
}

/// The outcome of one modelled command: the state after it, and its result.
pub type Outcome = (EngineView, Result<(), TransactionValidationError>);

/// True when some record carries the id `tx`.
pub open spec fn has_tx(h: Seq<TxRec>, tx: TransactionId) -> bool {
    exists|i: int| 0 <= i < h.len() && h[i].tx == tx
}

/// The index of the record carrying `tx`; meaningful when `has_tx` holds and
/// ids are unique.
pub open spec fn tx_at(h: Seq<TxRec>, tx: TransactionId) -> int {
    choose|i: int| 0 <= i < h.len() && h[i].tx == tx
}

/// True when some account belongs to `client`.
pub open spec fn has_client(accs: Seq<AccountRec>, client: Client) -> bool {
    exists|i: int| 0 <= i < accs.len() && accs[i].client == client
}

/// The index of `client`'s account; meaningful when `has_client` holds and
/// clients are unique.
pub open spec fn client_at(accs: Seq<AccountRec>, client: Client) -> int {
    choose|i: int| 0 <= i < accs.len() && accs[i].client == client
}

/// `k` is the boundary where an account for `client` belongs: everything
/// before it is below `client`, and `k` itself (if it exists) is not.
pub open spec fn is_insert_pos(accs: Seq<AccountRec>, client: Client, k: int) -> bool {
    &&& 0 <= k <= accs.len()
    &&& forall|j: int| 0 <= j < k ==> (#[trigger] accs[j]).client < client
    &&& (k == accs.len() || accs[k].client >= client)
}

/// The boundary index itself; unique whenever it exists.
pub open spec fn insert_pos(accs: Seq<AccountRec>, client: Client) -> int {
    choose|k: int| is_insert_pos(accs, client, k)
}

/// What one record contributes to its client's available funds.
pub open spec fn avail_contrib(r: TxRec, client: Client) -> int {
    if r.client != client {
        0
    } else {
        match (r.kind, r.status) {
            (TxKind::Deposit, TxStatus::Normal) => r.amount,
            (TxKind::Withdrawal, TxStatus::Normal) => -r.amount,
            _ => 0,
        }
    }
}

/// What one record contributes to its client's held funds.
pub open spec fn held_contrib(r: TxRec, client: Client) -> int {
    if r.client != client {
        0
    } else {
        match (r.kind, r.status) {
            (TxKind::Deposit, TxStatus::Disputed) => r.amount,
            (TxKind::Withdrawal, TxStatus::Disputed) => -r.amount,
            (TxKind::Withdrawal, TxStatus::ChargedBack) => -2 * r.amount,
            _ => 0,
        }
    }
}

/// The available funds a history prescribes for `client`.
pub open spec fn avail_sum(h: Seq<TxRec>, client: Client) -> int
    decreases h.len(),
{
    if h.len() == 0 {
        0
    } else {
        avail_sum(h.drop_last(), client) + avail_contrib(h.last(), client)
    }
}

/// The held funds a history prescribes for `client`.
pub open spec fn held_sum(h: Seq<TxRec>, client: Client) -> int
    decreases h.len(),
{
    if h.len() == 0 {
        0
    } else {
        held_sum(h.drop_last(), client) + held_contrib(h.last(), client)
    }
}

/// The engine's invariant.
pub open spec fn wf(s: EngineView) -> bool {
    &&& forall|i: int, j: int|
        0 <= i < j < s.accounts.len() ==> (#[trigger] s.accounts[i]).client < (
        #[trigger] s.accounts[j]).client
    &&& forall|i: int, j: int|
        0 <= i < j < s.history.len() ==> (#[trigger] s.history[i]).tx != (
        #[trigger] s.history[j]).tx
    &&& forall|i: int| 0 <= i < s.history.len() ==> valid_amount((#[trigger] s.history[i]).amount)
    &&& forall|i: int|
        0 <= i < s.history.len() ==> has_client(s.accounts, (#[trigger] s.history[i]).client)
    &&& forall|j: int|
        0 <= j < s.accounts.len() ==> (#[trigger] s.accounts[j]).available == avail_sum(
            s.history,
            s.accounts[j].client,
        )
    &&& forall|j: int|
        0 <= j < s.accounts.len() ==> (#[trigger] s.accounts[j]).held == held_sum(
            s.history,
            s.accounts[j].client,
        )
}

/// What a deposit command does.
pub open spec fn deposit_model(
    s: EngineView,
    client: Client,
    tx: TransactionId,
    amount: int,
) -> Outcome {
    if !valid_amount(amount) {
        (s, Err(TransactionValidationError::InvalidAmount))
    } else if has_tx(s.history, tx) {
        (s, Err(TransactionValidationError::Duplicate(tx)))
    } else {
        let rec = TxRec { tx, client, kind: TxKind::Deposit, amount, status: TxStatus::Normal };
        let accounts = if has_client(s.accounts, client) {
            let j = client_at(s.accounts, client);
            let a = s.accounts[j];
            s.accounts.update(j, AccountRec { available: a.available + amount, ..a })
        } else {
            s.accounts.insert(
                insert_pos(s.accounts, client),
                AccountRec { client, available: amount, held: 0, frozen: false },
            )
        };
        (EngineView { accounts, history: s.history.push(rec) }, Ok(()))
    }
}

/// What a withdrawal command does. The checks run in one fixed order for
/// both deposit and withdrawal — amount validity, duplicate id, account
/// existence, frozen state, funds — a single order chosen deliberately in
/// place of per-kind orderings, observable only in which error is reported
/// when several would apply.
pub open spec fn withdrawal_model(
    s: EngineView,
    client: Client,
    tx: TransactionId,
    amount: int,
) -> Outcome {
    if !valid_amount(amount) {
        (s, Err(TransactionValidationError::InvalidAmount))
    } else if has_tx(s.history, tx) {
        (s, Err(TransactionValidationError::Duplicate(tx)))
    } else if !has_client(s.accounts, client) {
        (s, Err(TransactionValidationError::MissingAccount))
    } else {
        let j = client_at(s.accounts, client);
        let a = s.accounts[j];
        if a.frozen {
            (s, Err(TransactionValidationError::FrozenAccount))
        } else if a.available < amount {
            (s, Err(TransactionValidationError::InsufficientFunds))
        } else {
            let rec = TxRec {
                tx,
                client,
                kind: TxKind::Withdrawal,
                amount,
                status: TxStatus::Normal,
            };
            (
                EngineView {
                    accounts: s.accounts.update(
                        j,
                        AccountRec { available: a.available - amount, ..a },
                    ),
                    history: s.history.push(rec),
                },
                Ok(()),
            )
        }
    }
}

/// The signed value a dispute moves from available to held: the recorded
/// amount for a deposit, its negation for a withdrawal.
pub open spec fn dispute_delta(r: TxRec) -> int {
    match r.kind {
        TxKind::Deposit => r.amount,
        TxKind::Withdrawal => -r.amount,
    }
}

/// What a dispute command does.
pub open spec fn dispute_model(s: EngineView, client: Client, tx: TransactionId) -> Outcome {
    if !has_tx(s.history, tx) {
        (s, Err(TransactionValidationError::InvalidTransaction(tx)))
    } else {
        let i = tx_at(s.history, tx);
        let r = s.history[i];
        if r.client != client {
            (s, Err(TransactionValidationError::InvalidTransaction(tx)))
        } else if r.status is ChargedBack {
            (s, Err(TransactionValidationError::DisputeChargeback(tx)))
        } else if r.status is Disputed {
            (s, Err(TransactionValidationError::Duplicate(tx)))
        } else if !has_client(s.accounts, r.client) {
            (s, Err(TransactionValidationError::MissingAccount))
        } else {
            let j = client_at(s.accounts, r.client);
            let a = s.accounts[j];
            let d = dispute_delta(r);
            (
                EngineView {
                    accounts: s.accounts.update(
                        j,
                        AccountRec { available: a.available - d, held: a.held + d, ..a },
                    ),
                    history: s.history.update(i, TxRec { status: TxStatus::Disputed, ..r }),
                },
                Ok(()),
            )
        }
    }
}

/// What a resolve command does.
pub open spec fn resolve_model(s: EngineView, client: Client, tx: TransactionId) -> Outcome {
    if !has_tx(s.history, tx) {
        (s, Err(TransactionValidationError::InvalidTransaction(tx)))
    } else {
        let i = tx_at(s.history, tx);
        let r = s.history[i];
        if r.client != client {
            (s, Err(TransactionValidationError::InvalidTransaction(tx)))
        } else if !(r.status is Disputed) {
            (s, Err(TransactionValidationError::InvalidTransaction(tx)))
        } else if !has_client(s.accounts, r.client) {
            (s, Err(TransactionValidationError::MissingAccount))
        } else {
            let j = client_at(s.accounts, r.client);
            let a = s.accounts[j];
            let d = dispute_delta(r);
            (
                EngineView {
                    accounts: s.accounts.update(
                        j,
                        AccountRec { available: a.available + d, held: a.held - d, ..a },
                    ),
                    history: s.history.update(i, TxRec { status: TxStatus::Normal, ..r }),
                },
                Ok(()),
            )
        }
    }
}

/// What a chargeback command does. The held funds drop by the recorded
/// amount for both original kinds, and the account is frozen for good.
pub open spec fn chargeback_model(s: EngineView, client: Client, tx: TransactionId) -> Outcome {
    if !has_tx(s.history, tx) {
        (s, Err(TransactionValidationError::InvalidTransaction(tx)))
    } else {
        let i = tx_at(s.history, tx);
        let r = s.history[i];
        if r.client != client {
            (s, Err(TransactionValidationError::InvalidTransaction(tx)))
        } else if r.status is ChargedBack {
            (s, Err(TransactionValidationError::Duplicate(tx)))
        } else if !(r.status is Disputed) {
            (s, Err(TransactionValidationError::InvalidTransaction(tx)))
        } else if !has_client(s.accounts, r.client) {
            (s, Err(TransactionValidationError::MissingAccount))
        } else {
            let j = client_at(s.accounts, r.client);
            let a = s.accounts[j];
            (
                EngineView {
                    accounts: s.accounts.update(
                        j,
                        AccountRec { held: a.held - r.amount, frozen: true, ..a },
                    ),
                    history: s.history.update(i, TxRec { status: TxStatus::ChargedBack, ..r }),
                },
                Ok(()),
            )
        }
    }
}

/// What one command, of whatever kind, does.
pub open spec fn apply_model(s: EngineView, t: crate::transactions::Transaction) -> Outcome {
    match t {
        crate::transactions::Transaction::Deposit { client, tx, amount } => deposit_model(
            s,
            client,
            tx,
            amount@,
        ),
        crate::transactions::Transaction::Withdrawal { client, tx, amount } => withdrawal_model(
            s,
            client,
            tx,
            amount@,
        ),
        crate::transactions::Transaction::Dispute { client, tx } => dispute_model(s, client, tx),
        crate::transactions::Transaction::Resolve { client, tx } => resolve_model(s, client, tx),
        crate::transactions::Transaction::Chargeback { client, tx } => chargeback_model(
            s,
            client,
            tx,
        ),
    }
}

/// With unique transaction ids, `tx_at` names the one index that carries
/// `tx`.
pub proof fn lemma_tx_at_unique(h: Seq<TxRec>, tx: TransactionId, i: int)
    requires
        forall|a: int, b: int|
            0 <= a < b < h.len() ==> (#[trigger] h[a]).tx != (#[trigger] h[b]).tx,
        0 <= i < h.len(),
        h[i].tx == tx,
    ensures
        has_tx(h, tx),
        tx_at(h, tx) == i,
{
    assert(has_tx(h, tx));
    let i2 = tx_at(h, tx);
    if i2 != i {
        if i2 < i {
            assert(h[i2].tx != h[i].tx);
        } else {
            assert(h[i].tx != h[i2].tx);
        }
    }
}

/// With clients in ascending order, `client_at` names the one index that
/// belongs to `client`.
pub proof fn lemma_client_at_unique(accs: Seq<AccountRec>, client: Client, j: int)
    requires
        forall|a: int, b: int|
            0 <= a < b < accs.len() ==> (#[trigger] accs[a]).client < (#[trigger] accs[b]).client,
        0 <= j < accs.len(),
        accs[j].client == client,
    ensures
        has_client(accs, client),
        client_at(accs, client) == j,
{
    assert(has_client(accs, client));
    let j2 = client_at(accs, client);
    if j2 != j {
        if j2 < j {
            assert(accs[j2].client < accs[j].client);
        } else {
            assert(accs[j].client < accs[j2].client);
        }
    }
}

/// The boundary index of `is_insert_pos` is unique.
pub proof fn lemma_insert_pos_unique(accs: Seq<AccountRec>, client: Client, k: int)
    requires
        is_insert_pos(accs, client, k),
    ensures
        insert_pos(accs, client) == k,
{
    let k2 = insert_pos(accs, client);
    assert(is_insert_pos(accs, client, k2));
    if k2 < k {
        assert(accs[k2].client < client);
    } else if k < k2 {
        assert(accs[k].client < client);
    }
}

/// In a sorted account table the boundary index exists, so `insert_pos`
/// names a genuine position.
pub proof fn lemma_insert_pos_in_range(accs: Seq<AccountRec>, client: Client)
    requires
        forall|a: int, b: int|
            0 <= a < b < accs.len() ==> (#[trigger] accs[a]).client < (#[trigger] accs[b]).client,
    ensures
        is_insert_pos(accs, client, insert_pos(accs, client)),
    decreases accs.len(),
{
    if accs.len() == 0 {
        assert(is_insert_pos(accs, client, 0));
    } else if accs.last().client < client {
        assert forall|j: int| 0 <= j < accs.len() implies (#[trigger] accs[j]).client < client by {
            if j < accs.len() - 1 {
                assert(accs[j].client < accs[accs.len() - 1].client);
            }
        }
        assert(is_insert_pos(accs, client, accs.len() as int));
    } else {
        let prefix = accs.drop_last();
        assert(forall|a: int, b: int|
            0 <= a < b < prefix.len() ==> (#[trigger] prefix[a]).client < (
            #[trigger] prefix[b]).client);
        lemma_insert_pos_in_range(prefix, client);
        let k = insert_pos(prefix, client);
        assert forall|j: int| 0 <= j < k implies (#[trigger] accs[j]).client < client by {
            assert(accs[j] == prefix[j]);
        }
        if k < prefix.len() {
            assert(accs[k] == prefix[k]);
        }
        assert(is_insert_pos(accs, client, k));
    }
}

/// In a sorted account table, a boundary index that does not carry `client`
/// means no index does.
pub proof fn lemma_no_client_at_boundary(accs: Seq<AccountRec>, client: Client, k: int)
    requires
        forall|a: int, b: int|
            0 <= a < b < accs.len() ==> (#[trigger] accs[a]).client < (#[trigger] accs[b]).client,
        is_insert_pos(accs, client, k),
        k == accs.len() || accs[k].client != client,
    ensures
        !has_client(accs, client),
{
    assert forall|i: int| 0 <= i < accs.len() implies (#[trigger] accs[i]).client != client by {
        if i > k {
            assert(accs[k].client < accs[i].client);
        }
    }
}

/// A well-formed engine whose history fits a machine word keeps every
/// balance far inside the `i128` range.
pub proof fn lemma_wf_balance_bounds(s: EngineView, j: int)
    requires
        wf(s),
        0 <= j < s.accounts.len(),
        s.history.len() <= 0xFFFF_FFFF_FFFF_FFFF,
    ensures
        -(MAX_BALANCE_UNITS as int) <= s.accounts[j].available <= MAX_BALANCE_UNITS as int,
        -(MAX_BALANCE_UNITS as int) <= s.accounts[j].held <= MAX_BALANCE_UNITS as int,
{
    lemma_sums_bound(s.history, s.accounts[j].client);
}

/// Appending a record adds its contributions to the sums.
pub proof fn lemma_sums_push(h: Seq<TxRec>, r: TxRec, client: Client)
    ensures
        avail_sum(h.push(r), client) == avail_sum(h, client) + avail_contrib(r, client),
        held_sum(h.push(r), client) == held_sum(h, client) + held_contrib(r, client),
{
    assert(h.push(r).drop_last() =~= h);
    assert(h.push(r).last() == r);
}

/// Replacing the record at `i` swaps its contributions in the sums.
pub proof fn lemma_sums_update(h: Seq<TxRec>, i: int, r: TxRec, client: Client)
    requires
        0 <= i < h.len(),
    ensures
        avail_sum(h.update(i, r), client) == avail_sum(h, client) + avail_contrib(r, client)
            - avail_contrib(h[i], client),
        held_sum(h.update(i, r), client) == held_sum(h, client) + held_contrib(r, client)
            - held_contrib(h[i], client),
    decreases h.len(),
{
    let h2 = h.update(i, r);
    if i == h.len() - 1 {
        assert(h2.drop_last() =~= h.drop_last());
        assert(h2.last() == r);
    } else {
        assert(h2.drop_last() =~= h.drop_last().update(i, r));
        assert(h2.last() == h.last());
        lemma_sums_update(h.drop_last(), i, r, client);
    }
}

/// The sums are bounded by the history's length times the largest amount.
pub proof fn lemma_sums_bound(h: Seq<TxRec>, client: Client)
    requires
        forall|i: int| 0 <= i < h.len() ==> valid_amount((#[trigger] h[i]).amount),
    ensures
        -(h.len() * (MAX_AMOUNT_UNITS as int)) <= avail_sum(h, client) <= h.len() * (
        MAX_AMOUNT_UNITS as int),
        -(2 * h.len() * (MAX_AMOUNT_UNITS as int)) <= held_sum(h, client) <= 2 * h.len() * (
        MAX_AMOUNT_UNITS as int),
    decreases h.len(),
{
    if h.len() > 0 {
        assert(forall|i: int|
            0 <= i < h.drop_last().len() ==> valid_amount((#[trigger] h.drop_last()[i]).amount));
        lemma_sums_bound(h.drop_last(), client);
        assert(valid_amount(h.last().amount));
    }
}

/// A client with no records has zero sums.
pub proof fn lemma_sums_absent(h: Seq<TxRec>, client: Client)
    requires
        forall|i: int| 0 <= i < h.len() ==> (#[trigger] h[i]).client != client,
    ensures
        avail_sum(h, client) == 0,
        held_sum(h, client) == 0,
    decreases h.len(),
{
    if h.len() > 0 {
        assert(forall|i: int|
            0 <= i < h.drop_last().len() ==> (#[trigger] h.drop_last()[i]).client != client);
        lemma_sums_absent(h.drop_last(), client);
    }
}

} // verus!
