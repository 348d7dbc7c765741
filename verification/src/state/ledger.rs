//! The ledger of transactions. Every admin may read and write all of it.

use vstd::prelude::*;
use crate::invariants::lemma_create_transaction;
use crate::ordered::{
    ascending_key_list, ascending_keys, ascending_values, lemma_ascending_push, lists_ascending,
};
use crate::seqs::{lemma_filter_none, lemma_filter_step, lemma_page_push, page};
use crate::state::{State, StateView};
use crate::types::{
    CreateTransactionRequest, FinancialSummary, PaginatedResponse, PaginationParams, Timestamp,
    Transaction, TransactionCategory, TransactionFilter, TransactionId, TransactionType,
};

verus! {

/// How far the expenses of a period may exceed its income: by 2^63.
pub const LOWEST_NET: u128 = 0x8000_0000_0000_0000;

/// The currency of a transaction that names none.
pub open spec fn default_currency() -> Seq<char> {
    "USD"@
}

/// Whether `t` is the transaction that `request` asks for, recorded at `now`
/// under the number `id`. Without a currency it is in US dollars, and
/// without a date it is dated `now`.
pub open spec fn is_new_transaction(
    t: Transaction,
    id: TransactionId,
    request: CreateTransactionRequest,
    now: Timestamp,
) -> bool {
    &&& t.id == id
    &&& t.transaction_type == request.transaction_type
    &&& t.category == request.category
    &&& t.amount == request.amount
    &&& match request.currency {
        Some(c) => t.currency == c,
        None => t.currency@ == default_currency(),
    }
    &&& t.description == request.description
    &&& t.reference == request.reference
    &&& t.date == match request.date {
        Some(d) => d,
        None => now,
    }
    &&& t.created_at == now
}

/// Whether `t` passes every field of the filter that is set.
pub open spec fn transaction_passes(t: Transaction, filter: Option<TransactionFilter>) -> bool {
    match filter {
        None => true,
        Some(f) => {
            &&& f.transaction_type matches Some(k) ==> t.transaction_type == k
            &&& f.category matches Some(c) ==> t.category == c
            &&& f.from_date matches Some(from) ==> t.date >= from
            &&& f.to_date matches Some(to) ==> t.date <= to
        },
    }
}

/// The test of the transactions that a listing holds.
pub open spec fn transaction_listed(filter: Option<TransactionFilter>) -> spec_fn(Transaction) -> bool {
    |t: Transaction| transaction_passes(t, filter)
}

/// Whether `t` is dated from `from` to `to`, both included.
pub open spec fn dated_within(t: Transaction, from: Timestamp, to: Timestamp) -> bool {
    from <= t.date && t.date <= to
}

/// What `t` adds to the income of the period.
pub open spec fn income_of(t: Transaction, from: Timestamp, to: Timestamp) -> nat {
    if dated_within(t, from, to) && t.transaction_type == TransactionType::Income {
        t.amount as nat
    } else {
        0
    }
}

/// What `t` adds to the expenses of the period.
pub open spec fn expense_of(t: Transaction, from: Timestamp, to: Timestamp) -> nat {
    if dated_within(t, from, to) && t.transaction_type == TransactionType::Expense {
        t.amount as nat
    } else {
        0
    }
}

/// What `t` adds to the income from subscriptions of the period.
pub open spec fn subscription_of(t: Transaction, from: Timestamp, to: Timestamp) -> nat {
    if t.category == TransactionCategory::Subscription {
        income_of(t, from, to)
    } else {
        0
    }
}

/// The income of the period among `s`.
pub open spec fn income_total(s: Seq<Transaction>, from: Timestamp, to: Timestamp) -> nat
    decreases s.len(),
{
    if s.len() == 0 {
        0
    } else {
        income_total(s.drop_last(), from, to) + income_of(s.last(), from, to)
    }
}

/// The expenses of the period among `s`.
pub open spec fn expense_total(s: Seq<Transaction>, from: Timestamp, to: Timestamp) -> nat
    decreases s.len(),
{
    if s.len() == 0 {
        0
    } else {
        expense_total(s.drop_last(), from, to) + expense_of(s.last(), from, to)
    }
}

/// The income from subscriptions of the period among `s`.
pub open spec fn subscription_total(s: Seq<Transaction>, from: Timestamp, to: Timestamp) -> nat
    decreases s.len(),
{
    if s.len() == 0 {
        0
    } else {
        subscription_total(s.drop_last(), from, to) + subscription_of(s.last(), from, to)
    }
}

proof fn lemma_totals_bounded(s: Seq<Transaction>, from: Timestamp, to: Timestamp)
    ensures
        income_total(s, from, to) <= s.len() * u64::MAX,
        expense_total(s, from, to) <= s.len() * u64::MAX,
        subscription_total(s, from, to) <= income_total(s, from, to),
    decreases s.len(),
{
    if s.len() > 0 {
        lemma_totals_bounded(s.drop_last(), from, to);
        assert(s.len() * u64::MAX == (s.len() - 1) * u64::MAX + u64::MAX) by (nonlinear_arith);
    }
}

impl StateView {
    /// All transactions, in the order of their numbers.
    pub open spec fn ledger(self) -> Seq<Transaction> {
        ascending_values(self.transactions)
    }

    /// The income of the period.
    pub open spec fn income(self, from: Timestamp, to: Timestamp) -> nat {
        income_total(self.ledger(), from, to)
    }

    /// The expenses of the period.
    pub open spec fn expenses(self, from: Timestamp, to: Timestamp) -> nat {
        expense_total(self.ledger(), from, to)
    }

    /// The income from subscriptions of the period.
    pub open spec fn subscriptions(self, from: Timestamp, to: Timestamp) -> nat {
        subscription_total(self.ledger(), from, to)
    }

    /// Whether the summary of the period can be told: the income and the
    /// expenses each in an unsigned 64-bit number, and their difference in a
    /// signed one.
    pub open spec fn summary_fits(self, from: Timestamp, to: Timestamp) -> bool {
        &&& self.income(from, to) <= u64::MAX
        &&& self.expenses(from, to) <= u64::MAX
        &&& i64::MIN <= self.income(from, to) - self.expenses(from, to) <= i64::MAX
    }

    /// The summary of the period: what came in, what went out, the
    /// difference, and a twelfth of the income from subscriptions.
    pub open spec fn summary(self, from: Timestamp, to: Timestamp) -> FinancialSummary {
        FinancialSummary {
            total_income: self.income(from, to) as u64,
            total_expenses: self.expenses(from, to) as u64,
            net: (self.income(from, to) - self.expenses(from, to)) as i64,
            mrr: (self.subscriptions(from, to) / 12) as u64,
            period_start: from,
            period_end: to,
        }
    }

    /// All the transactions that pass the filter, in the order of their numbers.
    pub open spec fn transactions_for(self, filter: Option<TransactionFilter>) -> Seq<Transaction> {
        self.ledger().filter(transaction_listed(filter))
    }
}

fn passes_transaction_filter(t: &Transaction, filter: &Option<TransactionFilter>) -> (r: bool)
    ensures
        r == transaction_passes(*t, *filter),
{
    match filter {
        None => true,
        Some(f) => {
            let by_type: bool = match f.transaction_type {
                Some(k) => t.transaction_type == k,
                None => true,
            };
            let by_category: bool = match f.category {
                Some(c) => t.category == c,
                None => true,
            };
            let by_from: bool = match f.from_date {
                Some(from) => t.date >= from,
                None => true,
            };
            let by_to: bool = match f.to_date {
                Some(to) => t.date <= to,
                None => true,
            };
            by_type && by_category && by_from && by_to
        },
    }
}

impl State {
    /// Records a transaction under the next number.
    pub fn create_transaction(&mut self, request: CreateTransactionRequest, now: Timestamp) -> (r:
        Transaction)
        requires
            old(self).wf(),
            old(self)@.next_transaction_id < u64::MAX,
        ensures
            final(self).wf(),
            is_new_transaction(r, old(self)@.next_transaction_id, request, now),
            final(self)@ == (StateView {
                transactions: old(self)@.transactions.insert(r.id, r),
                next_transaction_id: (r.id + 1) as u64,
                ..old(self)@
            }),
            old(self)@.transactions_numbered() ==> final(self)@.ledger() == old(self)@.ledger().push(r),
            old(self)@.consistent() ==> final(self)@.consistent(),
            old(self)@.consistent() && old(self)@.contacts_indexed()
                ==> final(self)@.contacts_indexed(),
    {
        let id: TransactionId = self.next_transaction_id;
        self.next_transaction_id = id + 1;
        let transaction = Transaction {
            id,
            transaction_type: request.transaction_type,
            category: request.category,
            amount: request.amount,
            currency: match request.currency {
                Some(c) => c,
                None => "USD".to_string(),
            },
            description: request.description,
            reference: request.reference,
            date: match request.date {
                Some(d) => d,
                None => now,
            },
            created_at: now,
        };
        self.transactions.insert(id, transaction.clone());
        proof {
            if old(self)@.transactions_numbered() {
                lemma_ascending_push(old(self)@.transactions, id, transaction);
            }
            if old(self)@.consistent() {
                lemma_create_transaction(old(self)@, transaction);
            }
        }
        transaction
    }

    /// One page of the transactions that pass the filter, in the order of
    /// their numbers.
    pub fn get_transactions(
        &self,
        filter: Option<TransactionFilter>,
        pagination: PaginationParams,
    ) -> (r: PaginatedResponse<Transaction>)
        ensures
            r.items@ == page(
                self@.transactions_for(filter),
                pagination.offset_or_default(),
                pagination.limit_or_default(),
            ),
            r.total == self@.transactions_for(filter).len(),
            r.offset == pagination.offset_or_default(),
            r.limit == pagination.limit_or_default(),
    {
        let offset: u64 = match pagination.offset {
            Some(o) => o,
            None => 0,
        };
        let limit: u64 = match pagination.limit {
            Some(l) => l,
            None => 50,
        };
        let ghost pred = transaction_listed(filter);
        let ghost all = self@.ledger();
        let keys = ascending_key_list(&self.transactions);
        let mut items: Vec<Transaction> = Vec::new();
        let mut total: u64 = 0;
        let mut i: usize = 0;
        proof {
            lemma_filter_none(all.take(0), pred);
            assert(all.len() == keys@.len());
        }
        while i < keys.len()
            invariant
                keys@ == ascending_keys(self@.transactions.dom()),
                lists_ascending(keys@, self@.transactions.dom()),
                all == ascending_values(self@.transactions),
                all.len() == keys@.len(),
                pred == transaction_listed(filter),
                i <= keys@.len(),
                total == all.take(i as int).filter(pred).len(),
                total <= i,
                items@ == page(all.take(i as int).filter(pred), offset, limit),
            decreases keys@.len() - i,
        {
            let key: u64 = keys[i];
            proof {
                assert(keys@.contains(key));
                assert(self@.transactions.dom().contains(key));
                lemma_filter_step(all, pred, i as int);
                lemma_page_push(all.take(i as int).filter(pred), all[i as int], offset, limit);
            }
            match self.transactions.get(&key) {
                Some(t) => {
                    if passes_transaction_filter(t, &filter) {
                        if total >= offset && (items.len() as u64) < limit {
                            items.push(t.clone());
                        }
                        total = total + 1;
                    }
                },
                None => {},
            }
            i += 1;
        }
        proof {
            assert(all.take(all.len() as int) =~= all);
        }
        PaginatedResponse { items, total, offset, limit }
    }

    /// The income, the expenses and the income from subscriptions of the
    /// period, as exact numbers.
    fn period_totals(&self, from: Timestamp, to: Timestamp) -> (r: (u128, u128, u128))
        ensures
            r.0 == self@.income(from, to),
            r.1 == self@.expenses(from, to),
            r.2 == self@.subscriptions(from, to),
    {
        let ghost all = self@.ledger();
        let keys = ascending_key_list(&self.transactions);
        let mut income: u128 = 0;
        let mut expenses: u128 = 0;
        let mut subscriptions: u128 = 0;
        let mut i: usize = 0;
        proof {
            assert(all.len() == keys@.len());
            assert(all.take(0) =~= Seq::<Transaction>::empty());
        }
        while i < keys.len()
            invariant
                keys@ == ascending_keys(self@.transactions.dom()),
                lists_ascending(keys@, self@.transactions.dom()),
                all == ascending_values(self@.transactions),
                all.len() == keys@.len(),
                i <= keys@.len(),
                income == income_total(all.take(i as int), from, to),
                expenses == expense_total(all.take(i as int), from, to),
                subscriptions == subscription_total(all.take(i as int), from, to),
            decreases keys@.len() - i,
        {
            let key: u64 = keys[i];
            proof {
                assert(keys@.contains(key));
                assert(self@.transactions.dom().contains(key));
                assert(all.take(i + 1).drop_last() =~= all.take(i as int));
                assert(all.take(i + 1).last() == all[i as int]);
                lemma_totals_bounded(all.take(i as int), from, to);
                assert(i * u64::MAX <= usize::MAX * u64::MAX) by (nonlinear_arith)
                    requires
                        i <= usize::MAX,
                ;
                assert(usize::MAX * u64::MAX + u64::MAX <= u128::MAX) by (nonlinear_arith);
            }
            match self.transactions.get(&key) {
                Some(t) => {
                    if from <= t.date && t.date <= to {
                        match t.transaction_type {
                            TransactionType::Income => {
                                income = income + t.amount as u128;
                                if t.category == TransactionCategory::Subscription {
                                    subscriptions = subscriptions + t.amount as u128;
                                }
                            },
                            TransactionType::Expense => {
                                expenses = expenses + t.amount as u128;
                            },
                        }
                    }
                },
                None => {},
            }
            i += 1;
        }
        proof {
            assert(all.take(all.len() as int) =~= all);
        }
        (income, expenses, subscriptions)
    }

    /// Whether the summary of the period can be told: the income and the
    /// expenses each in an unsigned 64-bit number, and their difference in a
    /// signed one.
    pub fn financial_summary_fits(&self, from: Timestamp, to: Timestamp) -> (r: bool)
        ensures
            r == self@.summary_fits(from, to),
    {
        let (income, expenses, _subscriptions) = self.period_totals(from, to);
        if income > u64::MAX as u128 || expenses > u64::MAX as u128 {
            return false;
        }
        if income >= expenses {
            income - expenses <= i64::MAX as u128
        } else {
            expenses - income <= LOWEST_NET
        }
    }

    /// The summary of the transactions dated from `from` to `to`, both
    /// included.
    pub fn get_financial_summary(&self, from: Timestamp, to: Timestamp) -> (r: FinancialSummary)
        requires
            self@.summary_fits(from, to),
        ensures
            r == self@.summary(from, to),
            r.total_income == self@.income(from, to),
            r.total_expenses == self@.expenses(from, to),
            r.net == self@.income(from, to) - self@.expenses(from, to),
            r.mrr == self@.subscriptions(from, to) / 12,
    {
        let (income, expenses, subscriptions) = self.period_totals(from, to);
        proof {
            lemma_totals_bounded(self@.ledger(), from, to);
        }
        let net: i64 = if income >= expenses {
            (income - expenses) as i64
        } else if expenses - income == LOWEST_NET {
            i64::MIN
        } else {
            0 - ((expenses - income) as i64)
        };
        FinancialSummary {
            total_income: income as u64,
            total_expenses: expenses as u64,
            net,
            mrr: (subscriptions / 12) as u64,
            period_start: from,
            period_end: to,
        }
    }
}

} // verus!
