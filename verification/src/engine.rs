//! The ledger engine: the owned account and history tables, and the
//! executable handlers, each proved to agree exactly with its model.

use vstd::prelude::*;

use crate::amount::{Amount, MAX_AMOUNT_UNITS};
use crate::model::{
    EngineView, apply_model, chargeback_model, client_at, deposit_model, dispute_model,
    has_client, has_tx, is_insert_pos, lemma_client_at_unique,
    lemma_insert_pos_unique, lemma_no_client_at_boundary, lemma_sums_absent, lemma_sums_push,
    lemma_tx_at_unique, lemma_wf_balance_bounds, resolve_model, tx_at, withdrawal_model,
};
use crate::transactions::{
    Account, Client, Transaction, TransactionId, TransactionValidationError, TxKind, TxRecord,
    TxStatus,
};

verus! {

/// The replay engine. It owns both tables for its whole lifetime; nothing
/// else mutates them.
pub struct PaymentEngine {
    accounts: Vec<Account>,
    history: Vec<TxRecord>,
}

impl View for PaymentEngine {
    type V = EngineView;

    closed spec fn view(&self) -> EngineView {
        EngineView {
            accounts: self.accounts@.map_values(|a: Account| a@),
            history: self.history@.map_values(|t: TxRecord| t@),
        }
    }
}

impl PaymentEngine {
    /// The engine's invariant; `new` establishes it and every handler keeps
    /// it.
    pub open spec fn wf(&self) -> bool {
        crate::model::wf(self@)
    }

    /// A fresh engine with no accounts and no history.
    pub fn new() -> (r: PaymentEngine)
        ensures
            r.wf(),
            r@.accounts.len() == 0,
            r@.history.len() == 0,
    {
        PaymentEngine { accounts: Vec::new(), history: Vec::new() }
    }

    /// The index of the record carrying `tx`, if any, scanning from the
    /// front.
    fn find_tx(&self, tx: TransactionId) -> (r: Option<usize>)
        ensures
            (match r {
                Some(i) => 0 <= (i as int) < self@.history.len() && self@.history[i as int].tx == tx
                    && (forall|j: int| 0 <= j < i as int ==> self@.history[j].tx != tx),
                None => forall|j: int| 0 <= j < self@.history.len() ==> self@.history[j].tx != tx,
            }),
    {
        let n = self.history.len();
        let mut i: usize = 0;
        while i < n
            invariant
                n == self.history.len(),
                i <= n,
                forall|j: int| 0 <= j < i as int ==> self@.history[j].tx != tx,
            decreases n - i,
        {
            if self.history[i].tx == tx {
                return Some(i);
            }
            i += 1;
        }
        None
    }

    /// The boundary index where an account for `client` stands or belongs.
    fn find_client_pos(&self, client: Client) -> (k: usize)
        ensures
            is_insert_pos(self@.accounts, client, k as int),
    {
        let n = self.accounts.len();
        let mut k: usize = 0;
        while k < n && self.accounts[k].client < client
            invariant
                n == self.accounts.len(),
                k <= n,
                forall|j: int| 0 <= j < k as int ==> self@.accounts[j].client < client,
            decreases n - k,
        {
            k += 1;
        }
        k
    }

    /// The account kept for `client`, if one was ever created.
    pub fn get_account(&self, client: Client) -> (r: Option<Account>)
        requires
            self.wf(),
        ensures
            has_client(self@.accounts, client) ==> r is Some && r->0@ == self@.accounts[client_at(
                self@.accounts,
                client,
            )],
            !has_client(self@.accounts, client) ==> r is None,
    {
        let k = self.find_client_pos(client);
        if k < self.accounts.len() && self.accounts[k].client == client {
            proof {
                lemma_client_at_unique(self@.accounts, client, k as int);
            }
            Some(self.accounts[k])
        } else {
            proof {
                lemma_no_client_at_boundary(self@.accounts, client, k as int);
            }
            None
        }
    }

    /// The recorded transaction carrying `tx`, if any.
    pub fn get_transaction(&self, tx: TransactionId) -> (r: Option<TxRecord>)
        requires
            self.wf(),
        ensures
            has_tx(self@.history, tx) ==> r is Some && r->0@ == self@.history[tx_at(
                self@.history,
                tx,
            )],
            !has_tx(self@.history, tx) ==> r is None,
    {
        match self.find_tx(tx) {
            Some(i) => {
                proof {
                    lemma_tx_at_unique(self@.history, tx, i as int);
                }
                Some(self.history[i])
            },
            None => {
                proof {
                    assert(!has_tx(self@.history, tx));
                }
                None
            },
        }
    }

    /// Every account ever created, ascending by client identifier, with its
    /// unrounded accumulators.
    pub fn get_accounts(&self) -> (r: Vec<Account>)
        requires
            self.wf(),
        ensures
            r@.len() == self@.accounts.len(),
            forall|i: int| 0 <= i < r@.len() ==> (#[trigger] r@[i])@ == self@.accounts[i],
            forall|i: int, j: int| 0 <= i < j < r@.len() ==> r@[i].client < r@[j].client,
    {
        let n = self.accounts.len();
        let mut out: Vec<Account> = Vec::new();
        let mut i: usize = 0;
        while i < n
            invariant
                n == self.accounts.len(),
                i <= n,
                out@.len() == i,
                forall|j: int| 0 <= j < i as int ==> (#[trigger] out@[j])@ == self@.accounts[j],
            decreases n - i,
        {
            out.push(self.accounts[i]);
            i += 1;
        }
        proof {
            assert forall|i: int, j: int| 0 <= i < j < out@.len() implies out@[i].client
                < out@[j].client by {
                assert(out@[i]@ == self@.accounts[i]);
                assert(out@[j]@ == self@.accounts[j]);
            }
        }
        out
    }

    /// Applies a deposit: get or create the account, add to its available
    /// funds, and record the transaction.
    fn process_deposit(&mut self, client: Client, tx: TransactionId, amount: Amount) -> (r: Result<
        (),
        TransactionValidationError,
    >)
        requires
            old(self).wf(),
        ensures
            final(self).wf(),
            final(self)@ == deposit_model(old(self)@, client, tx, amount@).0,
            r == deposit_model(old(self)@, client, tx, amount@).1,
    {
        let ghost s0 = self@;
        let u = amount.units();
        if !(u > 0 && u <= MAX_AMOUNT_UNITS) {
            return Err(TransactionValidationError::InvalidAmount);
        }
        if self.find_tx(tx).is_some() {
            proof {
                assert(has_tx(s0.history, tx));
            }
            return Err(TransactionValidationError::Duplicate(tx));
        }
        let ghost rec_v = crate::transactions::TxRec {
            tx,
            client,
            kind: TxKind::Deposit,
            amount: amount@,
            status: TxStatus::Normal,
        };
        let rec = TxRecord { tx, client, kind: TxKind::Deposit, amount, status: TxStatus::Normal };
        assert(rec@ == rec_v);
        let k = self.find_client_pos(client);
        // Reading the length pins the history below `usize::MAX`, which
        // bounds every balance through the sum invariant.
        let n = self.history.len();
        if k < self.accounts.len() && self.accounts[k].client == client {
            proof {
                assert(n == s0.history.len());
                lemma_client_at_unique(s0.accounts, client, k as int);
                lemma_wf_balance_bounds(s0, k as int);
            }
            let acc = self.accounts[k];
            let newacc = Account { available: acc.available.add(amount), ..acc };
            self.accounts[k] = newacc;
            self.history.push(rec);
            proof {
                let s1 = self@;
                let h2 = s0.history.push(rec_v);
                let accs2 = s0.accounts.update(k as int, newacc@);
                assert(s1.history =~= h2);
                assert(s1.accounts =~= accs2);
                assert(deposit_model(s0, client, tx, amount@).0 =~= s1);
                lemma_append_wf(s0, rec_v, k as int);
            }
            Ok(())
        } else {
            proof {
                lemma_no_client_at_boundary(s0.accounts, client, k as int);
                lemma_insert_pos_unique(s0.accounts, client, k as int);
            }
            let newacc = Account {
                client,
                available: amount,
                held: Amount::zero(),
                frozen: false,
            };
            self.accounts.insert(k, newacc);
            self.history.push(rec);
            proof {
                let s1 = self@;
                let h2 = s0.history.push(rec_v);
                let accs2 = s0.accounts.insert(k as int, newacc@);
                s0.accounts.insert_ensures(k as int, newacc@);
                self.accounts@.map_values(|a: Account| a@).insert_ensures(k as int, newacc@);
                assert(s1.history =~= h2);
                assert(s1.accounts =~= accs2);
                assert(deposit_model(s0, client, tx, amount@).0 =~= s1);
                lemma_deposit_wf_new(s0, client, rec_v, k as int);
            }
            Ok(())
        }
    }

    /// Applies a withdrawal: the account must exist, be unfrozen, and cover
    /// the amount; then its available funds drop and the transaction is
    /// recorded.
    fn process_withdrawal(&mut self, client: Client, tx: TransactionId, amount: Amount) -> (r:
        Result<(), TransactionValidationError>)
        requires
            old(self).wf(),
        ensures
            final(self).wf(),
            final(self)@ == withdrawal_model(old(self)@, client, tx, amount@).0,
            r == withdrawal_model(old(self)@, client, tx, amount@).1,
    {
        let ghost s0 = self@;
        let u = amount.units();
        if !(u > 0 && u <= MAX_AMOUNT_UNITS) {
            return Err(TransactionValidationError::InvalidAmount);
        }
        if self.find_tx(tx).is_some() {
            proof {
                assert(has_tx(s0.history, tx));
            }
            return Err(TransactionValidationError::Duplicate(tx));
        }
        let k = self.find_client_pos(client);
        if !(k < self.accounts.len() && self.accounts[k].client == client) {
            proof {
                lemma_no_client_at_boundary(s0.accounts, client, k as int);
            }
            return Err(TransactionValidationError::MissingAccount);
        }
        proof {
            lemma_client_at_unique(s0.accounts, client, k as int);
        }
        let acc = self.accounts[k];
        if acc.frozen {
            return Err(TransactionValidationError::FrozenAccount);
        }
        if acc.available.lt(&amount) {
            return Err(TransactionValidationError::InsufficientFunds);
        }
        // As in the deposit path, the length read bounds the balances.
        let n = self.history.len();
        proof {
            assert(n == s0.history.len());
            lemma_wf_balance_bounds(s0, k as int);
        }
        let ghost rec_v = crate::transactions::TxRec {
            tx,
            client,
            kind: TxKind::Withdrawal,
            amount: amount@,
            status: TxStatus::Normal,
        };
        let rec = TxRecord {
            tx,
            client,
            kind: TxKind::Withdrawal,
            amount,
            status: TxStatus::Normal,
        };
        let newacc = Account { available: acc.available.sub(amount), ..acc };
        self.accounts[k] = newacc;
        self.history.push(rec);
        proof {
            let s1 = self@;
            assert(s1.history =~= s0.history.push(rec_v));
            assert(s1.accounts =~= s0.accounts.update(k as int, newacc@));
            assert(withdrawal_model(s0, client, tx, amount@).0 =~= s1);
            lemma_append_wf(s0, rec_v, k as int);
        }
        Ok(())
    }

    /// Applies a dispute: the referenced transaction must exist, belong to
    /// this client, and be in its normal state; the recorded value moves
    /// from available to held (sign-reversed for a withdrawal) and the
    /// record becomes disputed.
    fn process_dispute(&mut self, client: Client, tx: TransactionId) -> (r: Result<
        (),
        TransactionValidationError,
    >)
        requires
            old(self).wf(),
        ensures
            final(self).wf(),
            final(self)@ == dispute_model(old(self)@, client, tx).0,
            r == dispute_model(old(self)@, client, tx).1,
    {
        let ghost s0 = self@;
        let found = self.find_tx(tx);
        if found.is_none() {
            return Err(TransactionValidationError::InvalidTransaction(tx));
        }
        let i = found.unwrap();
        proof {
            lemma_tx_at_unique(s0.history, tx, i as int);
        }
        let rec = self.history[i];
        if rec.client != client {
            return Err(TransactionValidationError::InvalidTransaction(tx));
        }
        match rec.status {
            TxStatus::ChargedBack => {
                return Err(TransactionValidationError::DisputeChargeback(tx));
            },
            TxStatus::Disputed => {
                return Err(TransactionValidationError::Duplicate(tx));
            },
            TxStatus::Normal => {},
        }
        let k = self.find_client_pos(rec.client);
        if !(k < self.accounts.len() && self.accounts[k].client == rec.client) {
            proof {
                lemma_no_client_at_boundary(s0.accounts, rec@.client, k as int);
            }
            return Err(TransactionValidationError::MissingAccount);
        }
        let n = self.history.len();
        proof {
            assert(n == s0.history.len());
            lemma_client_at_unique(s0.accounts, rec@.client, k as int);
            lemma_wf_balance_bounds(s0, k as int);
            assert(crate::transactions::valid_amount(s0.history[i as int].amount));
        }
        let acc = self.accounts[k];
        let newacc = match rec.kind {
            TxKind::Deposit => Account {
                available: acc.available.sub(rec.amount),
                held: acc.held.add(rec.amount),
                ..acc
            },
            TxKind::Withdrawal => Account {
                available: acc.available.add(rec.amount),
                held: acc.held.sub(rec.amount),
                ..acc
            },
        };
        let rec2 = TxRecord { status: TxStatus::Disputed, ..rec };
        self.accounts[k] = newacc;
        self.history[i] = rec2;
        proof {
            let s1 = self@;
            assert(s1.history =~= s0.history.update(i as int, rec2@));
            assert(s1.accounts =~= s0.accounts.update(k as int, newacc@));
            assert(dispute_model(s0, client, tx).0 =~= s1);
            lemma_status_change_wf(s0, i as int, rec2@, k as int, newacc@.frozen);
        }
        Ok(())
    }

    /// Applies a resolve: the referenced transaction must exist, belong to
    /// this client, and be under dispute; the dispute's movement is undone
    /// exactly and the record returns to its normal state.
    fn process_resolve(&mut self, client: Client, tx: TransactionId) -> (r: Result<
        (),
        TransactionValidationError,
    >)
        requires
            old(self).wf(),
        ensures
            final(self).wf(),
            final(self)@ == resolve_model(old(self)@, client, tx).0,
            r == resolve_model(old(self)@, client, tx).1,
    {
        let ghost s0 = self@;
        let found = self.find_tx(tx);
        if found.is_none() {
            return Err(TransactionValidationError::InvalidTransaction(tx));
        }
        let i = found.unwrap();
        proof {
            lemma_tx_at_unique(s0.history, tx, i as int);
        }
        let rec = self.history[i];
        if rec.client != client {
            return Err(TransactionValidationError::InvalidTransaction(tx));
        }
        match rec.status {
            TxStatus::Normal | TxStatus::ChargedBack => {
                return Err(TransactionValidationError::InvalidTransaction(tx));
            },
            TxStatus::Disputed => {},
        }
        let k = self.find_client_pos(rec.client);
        if !(k < self.accounts.len() && self.accounts[k].client == rec.client) {
            proof {
                lemma_no_client_at_boundary(s0.accounts, rec@.client, k as int);
            }
            return Err(TransactionValidationError::MissingAccount);
        }
        let n = self.history.len();
        proof {
            assert(n == s0.history.len());
            lemma_client_at_unique(s0.accounts, rec@.client, k as int);
            lemma_wf_balance_bounds(s0, k as int);
            assert(crate::transactions::valid_amount(s0.history[i as int].amount));
        }
        let acc = self.accounts[k];
        let newacc = match rec.kind {
            TxKind::Deposit => Account {
                available: acc.available.add(rec.amount),
                held: acc.held.sub(rec.amount),
                ..acc
            },
            TxKind::Withdrawal => Account {
                available: acc.available.sub(rec.amount),
                held: acc.held.add(rec.amount),
                ..acc
            },
        };
        let rec2 = TxRecord { status: TxStatus::Normal, ..rec };
        self.accounts[k] = newacc;
        self.history[i] = rec2;
        proof {
            let s1 = self@;
            assert(s1.history =~= s0.history.update(i as int, rec2@));
            assert(s1.accounts =~= s0.accounts.update(k as int, newacc@));
            assert(resolve_model(s0, client, tx).0 =~= s1);
            lemma_status_change_wf(s0, i as int, rec2@, k as int, newacc@.frozen);
        }
        Ok(())
    }

    /// Applies a chargeback: the referenced transaction must exist, belong
    /// to this client, and be under dispute; the held funds drop by the
    /// recorded amount, the account is frozen for good, and the record ends
    /// in its terminal state.
    fn process_chargeback(&mut self, client: Client, tx: TransactionId) -> (r: Result<
        (),
        TransactionValidationError,
    >)
        requires
            old(self).wf(),
        ensures
            final(self).wf(),
            final(self)@ == chargeback_model(old(self)@, client, tx).0,
            r == chargeback_model(old(self)@, client, tx).1,
    {
        let ghost s0 = self@;
        let found = self.find_tx(tx);
        if found.is_none() {
            return Err(TransactionValidationError::InvalidTransaction(tx));
        }
        let i = found.unwrap();
        proof {
            lemma_tx_at_unique(s0.history, tx, i as int);
        }
        let rec = self.history[i];
        if rec.client != client {
            return Err(TransactionValidationError::InvalidTransaction(tx));
        }
        match rec.status {
            TxStatus::ChargedBack => {
                return Err(TransactionValidationError::Duplicate(tx));
            },
            TxStatus::Normal => {
                return Err(TransactionValidationError::InvalidTransaction(tx));
            },
            TxStatus::Disputed => {},
        }
        let k = self.find_client_pos(rec.client);
        if !(k < self.accounts.len() && self.accounts[k].client == rec.client) {
            proof {
                lemma_no_client_at_boundary(s0.accounts, rec@.client, k as int);
            }
            return Err(TransactionValidationError::MissingAccount);
        }
        let n = self.history.len();
        proof {
            assert(n == s0.history.len());
            lemma_client_at_unique(s0.accounts, rec@.client, k as int);
            lemma_wf_balance_bounds(s0, k as int);
            assert(crate::transactions::valid_amount(s0.history[i as int].amount));
        }
        let acc = self.accounts[k];
        let newacc = Account { held: acc.held.sub(rec.amount), frozen: true, ..acc };
        let rec2 = TxRecord { status: TxStatus::ChargedBack, ..rec };
        self.accounts[k] = newacc;
        self.history[i] = rec2;
        proof {
            let s1 = self@;
            assert(s1.history =~= s0.history.update(i as int, rec2@));
            assert(s1.accounts =~= s0.accounts.update(k as int, newacc@));
            assert(chargeback_model(s0, client, tx).0 =~= s1);
            lemma_status_change_wf(s0, i as int, rec2@, k as int, true);
        }
        Ok(())
    }

    /// The engine's one entry point: applies a command of whatever kind,
    /// returning its result and agreeing exactly with the model.
    pub fn process_transaction(&mut self, transaction: Transaction) -> (r: Result<
        (),
        TransactionValidationError,
    >)
        requires
            old(self).wf(),
        ensures
            final(self).wf(),
            final(self)@ == apply_model(old(self)@, transaction).0,
            r == apply_model(old(self)@, transaction).1,
    {
        match transaction {
            Transaction::Deposit { client, tx, amount } => self.process_deposit(
                client,
                tx,
                amount,
            ),
            Transaction::Withdrawal { client, tx, amount } => self.process_withdrawal(
                client,
                tx,
                amount,
            ),
            Transaction::Dispute { client, tx } => self.process_dispute(client, tx),
            Transaction::Resolve { client, tx } => self.process_resolve(client, tx),
            Transaction::Chargeback { client, tx } => self.process_chargeback(client, tx),
        }
    }
}

/// Changing one record's status, with the owning account's balances moved
/// by the difference in the record's contributions, keeps the invariant.
proof fn lemma_status_change_wf(
    s0: EngineView,
    i: int,
    rec2: crate::transactions::TxRec,
    k: int,
    frozen2: bool,
)
    requires
        crate::model::wf(s0),
        0 <= i < s0.history.len(),
        0 <= k < s0.accounts.len(),
        rec2.tx == s0.history[i].tx,
        rec2.client == s0.history[i].client,
        rec2.kind == s0.history[i].kind,
        rec2.amount == s0.history[i].amount,
        s0.accounts[k].client == rec2.client,
    ensures
        crate::model::wf(
            EngineView {
                accounts: s0.accounts.update(
                    k,
                    crate::transactions::AccountRec {
                        client: rec2.client,
                        available: s0.accounts[k].available + crate::model::avail_contrib(
                            rec2,
                            rec2.client,
                        ) - crate::model::avail_contrib(s0.history[i], rec2.client),
                        held: s0.accounts[k].held + crate::model::held_contrib(rec2, rec2.client)
                            - crate::model::held_contrib(s0.history[i], rec2.client),
                        frozen: frozen2,
                    },
                ),
                history: s0.history.update(i, rec2),
            },
        ),
{
    let client = rec2.client;
    let acc2 = crate::transactions::AccountRec {
        client,
        available: s0.accounts[k].available + crate::model::avail_contrib(rec2, client)
            - crate::model::avail_contrib(s0.history[i], client),
        held: s0.accounts[k].held + crate::model::held_contrib(rec2, client)
            - crate::model::held_contrib(s0.history[i], client),
        frozen: frozen2,
    };
    let accs2 = s0.accounts.update(k, acc2);
    let h2 = s0.history.update(i, rec2);
    assert forall|a: int, b: int| 0 <= a < b < h2.len() implies (#[trigger] h2[a]).tx != (
    #[trigger] h2[b]).tx by {
        assert(h2[a].tx == s0.history[a].tx && h2[b].tx == s0.history[b].tx);
    }
    assert forall|a: int|
        0 <= a < h2.len() implies crate::transactions::valid_amount(
        (#[trigger] h2[a]).amount,
    ) by {
        assert(h2[a].amount == s0.history[a].amount);
    }
    assert forall|a: int|
        0 <= a < h2.len() implies has_client(accs2, (#[trigger] h2[a]).client) by {
        assert(h2[a].client == s0.history[a].client);
        assert(has_client(s0.accounts, s0.history[a].client));
        let w = choose|w: int|
            0 <= w < s0.accounts.len() && s0.accounts[w].client == s0.history[a].client;
        assert(accs2[w].client == h2[a].client);
    }
    assert forall|j: int|
        0 <= j < accs2.len() implies (#[trigger] accs2[j]).available == crate::model::avail_sum(
        h2,
        accs2[j].client,
    ) && accs2[j].held == crate::model::held_sum(h2, accs2[j].client) by {
        crate::model::lemma_sums_update(s0.history, i, rec2, accs2[j].client);
        if j != k {
            assert(accs2[j] == s0.accounts[j]);
            assert(s0.accounts[j].client != client);
        }
    }
}

/// After recording a fresh deposit or withdrawal against an existing
/// account, with the account's available funds moved by the record's own
/// contribution, the invariant still holds.
proof fn lemma_append_wf(s0: EngineView, rec: crate::transactions::TxRec, k: int)
    requires
        crate::model::wf(s0),
        0 <= k < s0.accounts.len(),
        s0.accounts[k].client == rec.client,
        rec.status == TxStatus::Normal,
        crate::transactions::valid_amount(rec.amount),
        forall|j: int| 0 <= j < s0.history.len() ==> (#[trigger] s0.history[j]).tx != rec.tx,
    ensures
        crate::model::wf(
            EngineView {
                accounts: s0.accounts.update(
                    k,
                    crate::transactions::AccountRec {
                        available: s0.accounts[k].available + crate::model::avail_contrib(
                            rec,
                            rec.client,
                        ),
                        ..s0.accounts[k]
                    },
                ),
                history: s0.history.push(rec),
            },
        ),
{
    let client = rec.client;
    let accs2 = s0.accounts.update(
        k,
        crate::transactions::AccountRec {
            available: s0.accounts[k].available + crate::model::avail_contrib(rec, rec.client),
            ..s0.accounts[k]
        },
    );
    let h2 = s0.history.push(rec);
    let s1 = EngineView { accounts: accs2, history: h2 };
    assert forall|i: int, j: int| 0 <= i < j < h2.len() implies (#[trigger] h2[i]).tx != (
    #[trigger] h2[j]).tx by {
        if j < s0.history.len() {
            assert(h2[i] == s0.history[i] && h2[j] == s0.history[j]);
        } else {
            assert(h2[j] == rec && h2[i] == s0.history[i]);
        }
    }
    assert forall|i: int|
        0 <= i < h2.len() implies has_client(accs2, (#[trigger] h2[i]).client) by {
        if i < s0.history.len() {
            assert(has_client(s0.accounts, s0.history[i].client));
            let w = choose|w: int|
                0 <= w < s0.accounts.len() && s0.accounts[w].client == s0.history[i].client;
            assert(accs2[w].client == h2[i].client);
        } else {
            assert(accs2[k].client == client);
        }
    }
    assert forall|j: int|
        0 <= j < accs2.len() implies (#[trigger] accs2[j]).available == crate::model::avail_sum(
        h2,
        accs2[j].client,
    ) && accs2[j].held == crate::model::held_sum(h2, accs2[j].client) by {
        lemma_sums_push(s0.history, rec, accs2[j].client);
        if j != k {
            assert(accs2[j] == s0.accounts[j]);
            assert(s0.accounts[j].client != client);
        }
    }
}

/// After a deposit that creates an account, the invariant still holds.
proof fn lemma_deposit_wf_new(
    s0: EngineView,
    client: Client,
    rec: crate::transactions::TxRec,
    k: int,
)
    requires
        crate::model::wf(s0),
        is_insert_pos(s0.accounts, client, k),
        !has_client(s0.accounts, client),
        rec.client == client,
        rec.kind == TxKind::Deposit,
        rec.status == TxStatus::Normal,
        crate::transactions::valid_amount(rec.amount),
        forall|j: int| 0 <= j < s0.history.len() ==> (#[trigger] s0.history[j]).tx != rec.tx,
    ensures
        crate::model::wf(
            EngineView {
                accounts: s0.accounts.insert(
                    k,
                    crate::transactions::AccountRec {
                        client,
                        available: rec.amount,
                        held: 0,
                        frozen: false,
                    },
                ),
                history: s0.history.push(rec),
            },
        ),
{
    let newacc = crate::transactions::AccountRec {
        client,
        available: rec.amount,
        held: 0,
        frozen: false,
    };
    let accs2 = s0.accounts.insert(k, newacc);
    let h2 = s0.history.push(rec);
    s0.accounts.insert_ensures(k, newacc);
    // Records of `client` cannot exist yet, so its sums are still zero.
    assert forall|i: int|
        0 <= i < s0.history.len() implies (#[trigger] s0.history[i]).client != client by {
        assert(has_client(s0.accounts, s0.history[i].client));
    }
    lemma_sums_absent(s0.history, client);
    // The table stays sorted: everything below `k` is below `client`,
    // everything at or above is beyond it.
    assert forall|a: int, b: int| 0 <= a < b < accs2.len() implies (#[trigger] accs2[a]).client < (
    #[trigger] accs2[b]).client by {
        if b < k {
            assert(accs2[a] == s0.accounts[a] && accs2[b] == s0.accounts[b]);
        } else if a < k && b == k {
            assert(accs2[a] == s0.accounts[a]);
        } else if a < k && b > k {
            assert(accs2[a] == s0.accounts[a] && accs2[b] == s0.accounts[b - 1]);
            assert(s0.accounts[b - 1].client >= s0.accounts[k].client);
            assert(s0.accounts[k].client != client);
        } else if a == k {
            assert(accs2[b] == s0.accounts[b - 1]);
            assert(s0.accounts[b - 1].client >= s0.accounts[k].client);
            assert(s0.accounts[k].client != client);
        } else {
            assert(accs2[a] == s0.accounts[a - 1] && accs2[b] == s0.accounts[b - 1]);
        }
    }
    assert forall|i: int, j: int| 0 <= i < j < h2.len() implies (#[trigger] h2[i]).tx != (
    #[trigger] h2[j]).tx by {
        if j < s0.history.len() {
            assert(h2[i] == s0.history[i] && h2[j] == s0.history[j]);
        } else {
            assert(h2[j] == rec && h2[i] == s0.history[i]);
        }
    }
    assert forall|i: int|
        0 <= i < h2.len() implies has_client(accs2, (#[trigger] h2[i]).client) by {
        if i < s0.history.len() {
            assert(has_client(s0.accounts, s0.history[i].client));
            let w = choose|w: int|
                0 <= w < s0.accounts.len() && s0.accounts[w].client == s0.history[i].client;
            if w < k {
                assert(accs2[w].client == h2[i].client);
            } else {
                assert(accs2[w + 1].client == h2[i].client);
            }
        } else {
            assert(accs2[k].client == client);
        }
    }
    assert forall|j: int|
        0 <= j < accs2.len() implies (#[trigger] accs2[j]).available == crate::model::avail_sum(
        h2,
        accs2[j].client,
    ) && accs2[j].held == crate::model::held_sum(h2, accs2[j].client) by {
        lemma_sums_push(s0.history, rec, accs2[j].client);
        if j < k {
            assert(accs2[j] == s0.accounts[j]);
            assert(s0.accounts[j].client != client);
        } else if j == k {
            assert(accs2[k] == newacc);
        } else {
            assert(accs2[j] == s0.accounts[j - 1]);
            assert(s0.accounts[j - 1].client != client);
        }
    }
}

} // verus!
