//! The account store and the append-only trade log.
//!
//! [`Bank`] holds every account and every trade-log entry.  Its invariant
//! [`Bank::wf`] pins the balance rule: no balance is ever negative and none
//! ever exceeds [`BALANCE_CAP`].  The state machine validates each mutation
//! against the freshly read balance and the store applies it in one step, so
//! the invariant holds after any sequence of accepted operations.

use vstd::prelude::*;

verus! {

use crate::codec::dec_chars;

/// The largest balance an account may hold, in minor currency units.
pub const BALANCE_CAP: u32 = 10000;

/// One stored account.
pub struct Account {
    /// Externally chosen, globally unique identifier.
    pub id: u32,
    /// The 32-bit keyed hash the client derives from the password.
    pub credential: i32,
    /// Current balance, always within `[0, BALANCE_CAP]`.
    pub balance: u32,
    /// Holder name, at most 60 bytes of UTF-8.
    pub name: String,
    /// Holder phone number, at most 20 bytes of UTF-8.
    pub phone: String,
}

/// The mathematical value of an [`Account`].
pub ghost struct AccountView {
    pub id: u32,
    pub credential: i32,
    pub balance: u32,
    pub name: Seq<char>,
    pub phone: Seq<char>,
}

impl View for Account {
    type V = AccountView;

    open spec fn view(&self) -> AccountView {
        AccountView {
            id: self.id,
            credential: self.credential,
            balance: self.balance,
            name: self.name@,
            phone: self.phone@,
        }
    }
}

impl Clone for Account {
    fn clone(&self) -> (r: Self)
        ensures
            r@ == self@,
    {
        Account {
            id: self.id,
            credential: self.credential,
            balance: self.balance,
            name: self.name.clone(),
            phone: self.phone.clone(),
        }
    }
}

/// One trade-log entry; a credit-side record of a balance mutation.
pub struct TradeLogEntry {
    /// Monotonic store-assigned identifier.
    pub tid: i32,
    /// The account credited.
    pub receiver: u32,
    /// Either a fixed tag such as `deposit` / `withdraw`, or the decimal id
    /// of the debited account of a transfer.
    pub sender: String,
    /// Seconds of the UTC instant the entry was written.
    pub time_secs: i64,
    /// Nanoseconds within that second.
    pub time_nanos: u32,
    /// Signed delta: positive for credit, negative for debit.
    pub amount: i32,
}

/// The mathematical value of a [`TradeLogEntry`].
pub ghost struct TradeView {
    pub tid: i32,
    pub receiver: u32,
    pub sender: Seq<char>,
    pub time_secs: i64,
    pub time_nanos: u32,
    pub amount: i32,
}

impl View for TradeLogEntry {
    type V = TradeView;

    open spec fn view(&self) -> TradeView {
        TradeView {
            tid: self.tid,
            receiver: self.receiver,
            sender: self.sender@,
            time_secs: self.time_secs,
            time_nanos: self.time_nanos,
            amount: self.amount,
        }
    }
}

impl Clone for TradeLogEntry {
    fn clone(&self) -> (r: Self)
        ensures
            r@ == self@,
    {
        TradeLogEntry {
            tid: self.tid,
            receiver: self.receiver,
            sender: self.sender.clone(),
            time_secs: self.time_secs,
            time_nanos: self.time_nanos,
            amount: self.amount,
        }
    }
}

/// True when some account in `s` has the given id.
pub open spec fn has_acct(s: Seq<AccountView>, id: u32) -> bool {
    exists|j: int| 0 <= j < s.len() && s[j].id == id
}

/// The account in `s` with the given id; meaningful when ids are unique.
pub open spec fn acct_of(s: Seq<AccountView>, id: u32) -> AccountView
    recommends
        has_acct(s, id),
{
    s[choose|j: int| 0 <= j < s.len() && s[j].id == id]
}

/// True when no two accounts in `s` share an id.
pub open spec fn unique_ids(s: Seq<AccountView>) -> bool {
    forall|j: int, k: int|
        #![trigger s[j].id, s[k].id]
        0 <= j < k < s.len() ==> s[j].id != s[k].id
}

/// True when every account in `s` keeps the balance and field-length rules.
pub open spec fn accounts_ok(s: Seq<AccountView>) -> bool {
    forall|j: int|
        0 <= j < s.len() ==> (#[trigger] s[j]).balance <= BALANCE_CAP && s[j].name.len() <= 60
            && s[j].phone.len() <= 20
}

/// True when every trade-log entry carries a short sender label (a fixed
/// tag or a decimal account id).
pub open spec fn logs_ok(s: Seq<TradeView>) -> bool {
    forall|j: int| 0 <= j < s.len() ==> (#[trigger] s[j]).sender.len() <= 16
}

/// `s` with the balance of the account `id` moved by `delta`; other
/// accounts are untouched.
pub open spec fn spec_adjust(s: Seq<AccountView>, id: u32, delta: int) -> Seq<AccountView> {
    s.map(
        |j: int, a: AccountView|
            if a.id == id {
                AccountView { balance: (a.balance + delta) as u32, ..a }
            } else {
                a
            },
    )
}

/// The store-assigned id counter after one append: one higher, saturating
/// at the largest 32-bit value.
pub open spec fn next_tid_bump(t: i32) -> i32 {
    if t < i32::MAX {
        (t + 1) as i32
    } else {
        i32::MAX
    }
}

/// True when `newl` is `oldl` with exactly one entry appended, carrying the
/// given id, receiver, sender label and amount (its timestamp is whatever
/// the clock gave).
pub open spec fn logs_appended(
    oldl: Seq<TradeView>,
    newl: Seq<TradeView>,
    tid: i32,
    receiver: u32,
    sender: Seq<char>,
    amount: i32,
) -> bool {
    &&& newl.len() == oldl.len() + 1
    &&& newl.drop_last() == oldl
    &&& newl.last().tid == tid
    &&& newl.last().receiver == receiver
    &&& newl.last().sender == sender
    &&& newl.last().amount == amount
}

/// An index holding the account `id` holds exactly [`acct_of`], as ids are
/// unique.
pub proof fn lemma_acct_at(s: Seq<AccountView>, id: u32, j: int)
    requires
        unique_ids(s),
        0 <= j < s.len(),
        s[j].id == id,
    ensures
        has_acct(s, id),
        acct_of(s, id) == s[j],
{
    assert(has_acct(s, id));
    let k = choose|k: int| 0 <= k < s.len() && s[k].id == id;
    if k < j {
        assert(s[k].id != s[j].id);
    } else if j < k {
        assert(s[j].id != s[k].id);
    }
}

/// The account [`acct_of`] finds keeps the balance and length rules, as
/// every account does.
pub proof fn lemma_acct_of_ok(s: Seq<AccountView>, id: u32)
    requires
        accounts_ok(s),
        has_acct(s, id),
    ensures
        acct_of(s, id).balance <= BALANCE_CAP,
        acct_of(s, id).name.len() <= 60,
        acct_of(s, id).phone.len() <= 20,
{
    let k = choose|k: int| 0 <= k < s.len() && s[k].id == id;
    assert(s[k].balance <= BALANCE_CAP);
}

/// How [`spec_adjust`] treats each account: the set of ids is kept, the
/// account `id` has only its balance moved, and every other account is
/// untouched.
pub proof fn lemma_adjust_effect(s: Seq<AccountView>, id: u32, delta: int, x: u32)
    requires
        unique_ids(s),
    ensures
        spec_adjust(s, id, delta).len() == s.len(),
        unique_ids(spec_adjust(s, id, delta)),
        has_acct(spec_adjust(s, id, delta), x) == has_acct(s, x),
        has_acct(s, x) && x != id ==> acct_of(spec_adjust(s, id, delta), x) == acct_of(s, x),
        has_acct(s, x) && x == id ==> acct_of(spec_adjust(s, id, delta), x) == (AccountView {
            balance: (acct_of(s, id).balance + delta) as u32,
            ..acct_of(s, id)
        }),
{
    let t = spec_adjust(s, id, delta);
    assert(forall|j: int| 0 <= j < s.len() ==> (#[trigger] t[j]).id == s[j].id);
    if has_acct(s, x) {
        let j = choose|j: int| 0 <= j < s.len() && s[j].id == x;
        assert(t[j].id == x);
        lemma_acct_at(t, x, j);
        lemma_acct_at(s, x, j);
    }
    if has_acct(t, x) {
        let j = choose|j: int| 0 <= j < t.len() && t[j].id == x;
        assert(s[j].id == x);
        assert(has_acct(s, x));
    }
}

/// True of an entry the history query for `id` returns: the account is the
/// receiver, or the sender label is its decimal id.
pub open spec fn trade_matches(e: TradeView, id: u32) -> bool {
    e.receiver == id || e.sender == dec_chars(id as nat)
}

/// The matching entries among the first `n` of `s`, in store order.
pub open spec fn history_of_prefix(s: Seq<TradeView>, id: u32, n: int) -> Seq<TradeView>
    recommends
        n <= s.len(),
    decreases n,
{
    if n <= 0 {
        Seq::empty()
    } else {
        history_of_prefix(s, id, n - 1) + if trade_matches(s[n - 1], id) {
            seq![s[n - 1]]
        } else {
            Seq::empty()
        }
    }
}

/// Every entry of `s` that matches `id`, in store order.
pub open spec fn history_of(s: Seq<TradeView>, id: u32) -> Seq<TradeView> {
    history_of_prefix(s, id, s.len() as int)
}

proof fn lemma_history_prefix_membership(s: Seq<TradeView>, id: u32, n: int, e: TradeView)
    requires
        0 <= n <= s.len(),
    ensures
        history_of_prefix(s, id, n).contains(e) <==> exists|i: int|
            0 <= i < n && s[i] == e && trade_matches(e, id),
    decreases n,
{
    if n > 0 {
        lemma_history_prefix_membership(s, id, n - 1, e);
        if history_of_prefix(s, id, n).contains(e) {
            let h = history_of_prefix(s, id, n);
            let hp = history_of_prefix(s, id, n - 1);
            let w = choose|w: int| 0 <= w < h.len() && h[w] == e;
            if w < hp.len() {
                assert(hp.contains(e));
            } else {
                assert(s[n - 1] == e && trade_matches(e, id));
            }
        }
        if exists|i: int| 0 <= i < n && s[i] == e && trade_matches(e, id) {
            let i = choose|i: int| 0 <= i < n && s[i] == e && trade_matches(e, id);
            if i < n - 1 {
                let hp = history_of_prefix(s, id, n - 1);
                assert(hp.contains(e));
                let w = choose|w: int| 0 <= w < hp.len() && hp[w] == e;
                assert(history_of_prefix(s, id, n)[w] == e);
            } else {
                let h = history_of_prefix(s, id, n);
                assert(h[h.len() - 1] == e);
            }
        }
    }
}

/// Law: the history of an account holds exactly the log entries whose
/// receiver is the account or whose sender label is its decimal id — every
/// such entry, and no others.
pub proof fn lemma_history_membership(s: Seq<TradeView>, id: u32, e: TradeView)
    ensures
        history_of(s, id).contains(e) <==> (s.contains(e) && trade_matches(e, id)),
{
    lemma_history_prefix_membership(s, id, s.len() as int, e);
}

/// How an account lookup for authentication can fail.
pub enum AuthResult {
    /// The credential matched; the account is returned.
    Authenticated(Account),
    /// No account has the given id.
    NotFound,
    /// The account exists but the credential differs.
    Mismatch,
}

/// How a store mutation can fail.
#[derive(Clone, Copy, Debug, PartialEq, Eq, Structural)]
pub enum LedgerError {
    /// An account with the given id already exists.
    AlreadyExists,
}

/// The account store and the append-only trade log.
pub struct Bank {
    accounts: Vec<Account>,
    logs: Vec<TradeLogEntry>,
    next_tid: i32,
}

/// The mathematical value of a [`Bank`].
pub ghost struct BankView {
    pub accounts: Seq<AccountView>,
    pub logs: Seq<TradeView>,
    pub next_tid: i32,
}

impl View for Bank {
    type V = BankView;

    closed spec fn view(&self) -> BankView {
        BankView {
            accounts: self.accounts@.map_values(|a: Account| a@),
            logs: self.logs@.map_values(|e: TradeLogEntry| e@),
            next_tid: self.next_tid,
        }
    }
}

/// Relies on chrono's `Utc::now` (with `DateTime::timestamp` and
/// `DateTime::timestamp_subsec_nanos`) for the current UTC instant as
/// seconds since the epoch and nanoseconds within the second; chrono
/// documents nanoseconds below two billion, values of at least one billion
/// marking a leap second.
#[verifier::external_body]
fn now_timestamp() -> (r: (i64, u32))
    ensures
        r.1 < 2_000_000_000,
{
    let now = chrono::Utc::now();
    (now.timestamp(), now.timestamp_subsec_nanos())
}

impl Bank {
    /// Ids are unique and every account keeps the balance and length rules.
    pub open spec fn wf(&self) -> bool {
        unique_ids(self@.accounts) && accounts_ok(self@.accounts) && logs_ok(self@.logs)
    }

    /// An empty store.
    pub fn new() -> (r: Self)
        ensures
            r.wf(),
            r@.accounts == Seq::<AccountView>::empty(),
            r@.logs == Seq::<TradeView>::empty(),
            r@.next_tid == 1,
    {
        let r = Bank { accounts: Vec::new(), logs: Vec::new(), next_tid: 1 };
        proof {
            assert(r@.accounts =~= Seq::<AccountView>::empty());
            assert(r@.logs =~= Seq::<TradeView>::empty());
        }
        r
    }

    /// The number of accounts in the store.
    pub fn account_count(&self) -> (r: usize)
        ensures
            r == self@.accounts.len(),
    {
        self.accounts.len()
    }

    fn find_index(&self, id: u32) -> (r: Option<usize>)
        requires
            unique_ids(self@.accounts),
        ensures
            match r {
                Some(ix) => ix < self@.accounts.len() && self@.accounts[ix as int].id == id
                    && has_acct(self@.accounts, id) && acct_of(self@.accounts, id)
                    == self@.accounts[ix as int],
                None => !has_acct(self@.accounts, id),
            },
    {
        let mut i: usize = 0;
        while i < self.accounts.len()
            invariant
                i <= self@.accounts.len(),
                unique_ids(self@.accounts),
                forall|j: int| 0 <= j < i ==> (#[trigger] self@.accounts[j]).id != id,
            decreases self@.accounts.len() - i,
        {
            if self.accounts[i].id == id {
                proof {
                    lemma_acct_at(self@.accounts, id, i as int);
                }
                return Some(i);
            }
            i = i + 1;
        }
        None
    }

    /// Account lookup by id.
    pub fn find_account(&self, id: u32) -> (r: Option<Account>)
        requires
            self.wf(),
        ensures
            match r {
                Some(a) => has_acct(self@.accounts, id) && a@ == acct_of(self@.accounts, id),
                None => !has_acct(self@.accounts, id),
            },
    {
        match self.find_index(id) {
            Some(ix) => Some(self.accounts[ix].clone()),
            None => None,
        }
    }

    /// Account lookup by id and credential, telling a missing account apart
    /// from a credential mismatch.
    pub fn authenticate(&self, id: u32, credential: i32) -> (r: AuthResult)
        requires
            self.wf(),
        ensures
            match r {
                AuthResult::Authenticated(a) => has_acct(self@.accounts, id) && a@ == acct_of(
                    self@.accounts,
                    id,
                ) && a@.credential == credential,
                AuthResult::NotFound => !has_acct(self@.accounts, id),
                AuthResult::Mismatch => has_acct(self@.accounts, id) && acct_of(
                    self@.accounts,
                    id,
                ).credential != credential,
            },
    {
        match self.find_index(id) {
            Some(ix) => {
                if self.accounts[ix].credential == credential {
                    AuthResult::Authenticated(self.accounts[ix].clone())
                } else {
                    AuthResult::Mismatch
                }
            },
            None => AuthResult::NotFound,
        }
    }

    /// Atomic create with uniqueness check.  The caller has validated the
    /// field lengths; a fresh account opens with balance 0.
    pub fn create_account(&mut self, id: u32, credential: i32, name: String, phone: String) -> (r:
        Result<Account, LedgerError>)
        requires
            old(self).wf(),
            name@.len() <= 60,
            phone@.len() <= 20,
        ensures
            final(self).wf(),
            match r {
                Ok(a) => !has_acct(old(self)@.accounts, id) && a@ == (AccountView {
                    id,
                    credential,
                    balance: 0,
                    name: name@,
                    phone: phone@,
                }) && final(self)@.accounts == old(self)@.accounts.push(a@) && final(self)@.logs
                    == old(self)@.logs && final(self)@.next_tid == old(self)@.next_tid,
                Err(_) => has_acct(old(self)@.accounts, id) && final(self)@ == old(self)@,
            },
    {
        match self.find_index(id) {
            Some(_) => Err(LedgerError::AlreadyExists),
            None => {
                let a = Account { id, credential, balance: 0, name, phone };
                let out = a.clone();
                self.accounts.push(a);
                proof {
                    assert(self@.accounts =~= old(self)@.accounts.push(out@));
                    assert(self@.logs =~= old(self)@.logs);
                }
                Ok(out)
            },
        }
    }

    /// Moves the balance of `id` by `delta`, which may be negative.  The
    /// caller has already validated the cap and floor against the balance
    /// now in the store; the mutation itself is one guarded step.
    pub fn adjust_balance(&mut self, id: u32, delta: i32) -> (r: Account)
        requires
            old(self).wf(),
            has_acct(old(self)@.accounts, id),
            0 <= acct_of(old(self)@.accounts, id).balance + delta <= BALANCE_CAP,
        ensures
            final(self).wf(),
            final(self)@.accounts == spec_adjust(old(self)@.accounts, id, delta as int),
            final(self)@.logs == old(self)@.logs,
            final(self)@.next_tid == old(self)@.next_tid,
            has_acct(final(self)@.accounts, id),
            r@ == acct_of(final(self)@.accounts, id),
            r@.balance == acct_of(old(self)@.accounts, id).balance + delta,
    {
        let ix = match self.find_index(id) {
            Some(ix) => ix,
            None => {
                proof {
                    assert(false);
                }
                0
            },
        };
        let newbal: u32 = ((self.accounts[ix].balance as i64) + (delta as i64)) as u32;
        self.accounts[ix].balance = newbal;
        proof {
            assert(self@.accounts =~= spec_adjust(old(self)@.accounts, id, delta as int));
            assert(self@.logs =~= old(self)@.logs);
            lemma_acct_at(self@.accounts, id, ix as int);
        }
        self.accounts[ix].clone()
    }

    /// Appends one trade-log entry, stamped with the current UTC instant
    /// and the next monotonic id.
    pub fn append_trade_log(&mut self, receiver: u32, sender: String, amount: i32)
        requires
            old(self).wf(),
            sender@.len() <= 16,
        ensures
            final(self).wf(),
            final(self)@.accounts == old(self)@.accounts,
            logs_appended(
                old(self)@.logs,
                final(self)@.logs,
                old(self)@.next_tid,
                receiver,
                sender@,
                amount,
            ),
            final(self)@.next_tid == next_tid_bump(old(self)@.next_tid),
    {
        let (secs, nanos) = now_timestamp();
        let entry = TradeLogEntry {
            tid: self.next_tid,
            receiver,
            sender,
            time_secs: secs,
            time_nanos: nanos,
            amount,
        };
        let ghost ev = entry@;
        self.logs.push(entry);
        proof {
            assert(self@.logs =~= old(self)@.logs.push(ev));
        }
        if self.next_tid < i32::MAX {
            self.next_tid = self.next_tid + 1;
        }
        proof {
            assert(self@.accounts =~= old(self)@.accounts);
            assert(self@.logs.drop_last() =~= old(self)@.logs);
        }
    }

    /// The trade history of an account: every entry where it is the
    /// receiver or the (decimal-stringified) sender, in store order.
    pub fn trade_history(&self, account_id: u32) -> (r: Vec<TradeLogEntry>)
        ensures
            r@.map_values(|e: TradeLogEntry| e@) == history_of(self@.logs, account_id),
    {
        let idstr = crate::codec::u32_to_dec_string(account_id);
        let mut out: Vec<TradeLogEntry> = Vec::new();
        let mut i: usize = 0;
        while i < self.logs.len()
            invariant
                i <= self@.logs.len(),
                idstr@ == dec_chars(account_id as nat),
                out@.map_values(|e: TradeLogEntry| e@) == history_of_prefix(
                    self@.logs,
                    account_id,
                    i as int,
                ),
            decreases self@.logs.len() - i,
        {
            let e = &self.logs[i];
            if e.receiver == account_id || e.sender == idstr {
                out.push(e.clone());
            }
            proof {
                assert(out@.map_values(|e: TradeLogEntry| e@) =~= history_of_prefix(
                    self@.logs,
                    account_id,
                    i + 1,
                ));
            }
            i = i + 1;
        }
        out
    }
}

} // verus!
