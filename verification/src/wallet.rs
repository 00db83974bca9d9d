//! Wallets and the manager that holds them and moves funds between them.

use crate::digest::{content_digest, content_hash};
use crate::keyed::{
    distinct, key_set, keys_of, lemma_table_entry, lemma_table_lookup, lemma_table_push,
    lemma_table_size, lemma_table_update, position, table, Keyed,
};
use crate::text::str_eq;
use vstd::prelude::*;
use vstd::string::*;

verus! {

/// Why an operation on wallets was refused.
#[derive(Debug, Clone, Copy, PartialEq, Eq, Structural)]
pub enum WalletError {
    /// No wallet has the address.
    UnknownWallet,
    /// A wallet with the address exists already.
    WalletAlreadyExists,
    /// The sender holds less than the amount.
    InsufficientFunds,
    /// The wallet has a credential and what was offered does not match it.
    AuthenticationFailed,
    /// The funds of all wallets together would no longer fit in 64 bits.
    SupplyOverflow,
}

/// An account: its address, what it holds, and the digest of the secret
/// that guards it, if it has one.
#[derive(Debug)]
pub struct Wallet {
    pub address: String,
    balance: u64,
    credential: Option<String>,
}

/// What a [`Wallet`] holds, as mathematical values.
pub struct WalletView {
    pub address: Seq<char>,
    pub balance: u64,
    pub credential: Option<Seq<char>>,
}

impl WalletView {
    /// A wallet as it is opened: the secret, if any, is kept as its content
    /// hash only.
    pub open spec fn opened(address: Seq<char>, secret: Option<Seq<char>>, balance: u64) -> WalletView {
        WalletView {
            address,
            balance,
            credential: match secret {
                Some(s) => Some(content_digest(s)),
                None => None,
            },
        }
    }

    /// Whether the wallet lets in a caller who offers `secret`: it does
    /// where it has no credential, and where the content hash of what is
    /// offered is its credential.
    pub open spec fn accepts(self, secret: Option<Seq<char>>) -> bool {
        match self.credential {
            None => true,
            Some(digest) => secret matches Some(s) && content_digest(s) == digest,
        }
    }

    /// The same wallet holding `balance`.
    pub open spec fn holding(self, balance: int) -> WalletView {
        WalletView { balance: balance as u64, ..self }
    }
}

impl View for Wallet {
    type V = WalletView;

    closed spec fn view(&self) -> WalletView {
        WalletView {
            address: self.address@,
            balance: self.balance,
            credential: self.credential.deep_view(),
        }
    }
}

impl Keyed for Wallet {
    closed spec fn key_view(&self) -> Seq<char> {
        self.address@
    }

    fn key(&self) -> (k: &str) {
        self.address.as_str()
    }
}

impl Clone for Wallet {
    fn clone(&self) -> (copy: Self)
        ensures
            copy@ == self@,
    {
        Wallet {
            address: self.address.clone(),
            balance: self.balance,
            credential: match &self.credential {
                Some(digest) => Some(digest.clone()),
                None => None,
            },
        }
    }
}

impl Wallet {
    /// Opens a wallet at `address` that holds `initial_balance`, guarded by
    /// `password` if one is given.
    pub fn new(address: &str, password: Option<&str>, initial_balance: u64) -> (wallet: Self)
        ensures
            wallet@ == WalletView::opened(address@, password.deep_view(), initial_balance),
    {
        Wallet {
            address: address.to_owned(),
            balance: initial_balance,
            credential: match password {
                Some(secret) => Some(content_hash(secret)),
                None => None,
            },
        }
    }

    /// The address of the wallet.
    pub fn address(&self) -> (address: &str)
        ensures
            address@ == self@.address,
    {
        self.address.as_str()
    }

    /// What the wallet holds.
    pub fn check_balance(&self) -> (balance: u64)
        ensures
            balance == self@.balance,
    {
        self.balance
    }

    /// The credential as it is stored: the content hash of the secret, or
    /// `None` for a wallet without one.
    pub fn get_pass(&self) -> (credential: Option<String>)
        ensures
            credential.deep_view() == self@.credential,
    {
        match &self.credential {
            Some(digest) => Some(digest.clone()),
            None => None,
        }
    }

    /// Whether `password` lets the caller in.
    ///
    /// The stored digest is compared with the digest of what is offered in
    /// time that does not depend on where they differ.
    pub fn authenticate(&self, password: Option<&str>) -> (accepted: bool)
        ensures
            accepted == self@.accepts(password.deep_view()),
    {
        match &self.credential {
            None => true,
            Some(digest) => match password {
                Some(secret) => {
                    let offered = content_hash(secret);
                    str_eq(offered.as_str(), digest.as_str())
                },
                None => false,
            },
        }
    }

    /// Takes `amount` out of the wallet, if it holds that much.
    ///
    /// Returns whether it did; a wallet that holds less is left as it was.
    pub fn send_funds(&mut self, amount: u64) -> (sent: bool)
        ensures
            sent == (old(self)@.balance >= amount),
            sent ==> final(self)@ == old(self)@.holding(old(self)@.balance - amount),
            !sent ==> final(self)@ == old(self)@,
    {
        if self.balance < amount {
            return false;
        }
        self.balance = self.balance - amount;
        true
    }

    /// Puts `amount` into the wallet.
    pub fn receive_funds(&mut self, amount: u64)
        requires
            old(self)@.balance + amount <= u64::MAX,
        ensures
            final(self)@ == old(self)@.holding(old(self)@.balance + amount),
    {
        self.balance = self.balance + amount;
    }
}

/// What becomes of a request to open a wallet at `address` with `balance`
/// in it: it is refused where the address is taken, and where the funds of
/// all wallets would no longer fit in 64 bits together.
pub open spec fn creation_outcome(
    wallets: Map<Seq<char>, WalletView>,
    address: Seq<char>,
    balance: u64,
) -> Result<(), WalletError> {
    if wallets.dom().contains(address) {
        Err(WalletError::WalletAlreadyExists)
    } else if total_balance(wallets) + balance > u64::MAX {
        Err(WalletError::SupplyOverflow)
    } else {
        Ok(())
    }
}

/// What a caller who offers `secret` learns of the balance at `address`.
pub open spec fn balance_outcome(
    wallets: Map<Seq<char>, WalletView>,
    address: Seq<char>,
    secret: Option<Seq<char>>,
) -> Result<u64, WalletError> {
    if !wallets.dom().contains(address) {
        Err(WalletError::UnknownWallet)
    } else if !wallets[address].accepts(secret) {
        Err(WalletError::AuthenticationFailed)
    } else {
        Ok(wallets[address].balance)
    }
}

/// The wallets of the ledger, each under its address.
///
/// A wallet is opened once, is never closed, and changes only when funds
/// move. Opening a wallet at an address that is taken is refused.
#[derive(Debug)]
pub struct WalletManager {
    wallets: Vec<Wallet>,
    supply: u64,
}

/// How a wallet enters the view of its manager.
pub closed spec fn as_view() -> spec_fn(Wallet) -> WalletView {
    |wallet: Wallet| wallet@
}

impl View for WalletManager {
    type V = Map<Seq<char>, WalletView>;

    closed spec fn view(&self) -> Map<Seq<char>, WalletView> {
        table(self.wallets@, as_view())
    }
}

impl WalletManager {
    /// No address occurs twice, and the recorded supply is the sum of all
    /// balances.
    pub closed spec fn wf(&self) -> bool {
        &&& distinct(self.wallets@)
        &&& self.supply == total_balance(self@)
    }

    /// The wallets of a well-formed manager are finitely many, each filed
    /// under its own address, with funds that fit in 64 bits together.
    pub proof fn lemma_valid(&self)
        requires
            self.wf(),
        ensures
            valid_wallets(self@),
    {
        lemma_table_size(self.wallets@, as_view());
        assert forall|address: Seq<char>| #[trigger]
            self@.dom().contains(address) implies self@[address].address == address by {
            lemma_table_lookup(self.wallets@, as_view(), address);
        }
    }

    /// A manager without wallets.
    pub fn new() -> (manager: Self)
        ensures
            manager.wf(),
            manager@ == Map::<Seq<char>, WalletView>::empty(),
    {
        let manager = WalletManager { wallets: Vec::new(), supply: 0 };
        assert(manager@ =~= Map::<Seq<char>, WalletView>::empty());
        manager
    }

    /// Whether a wallet exists at `address`.
    pub fn has_wallet(&self, address: &str) -> (found: bool)
        ensures
            found == self@.dom().contains(address@),
    {
        position(&self.wallets, address).is_some()
    }

    /// The addresses of all wallets, each once, in the order in which the
    /// wallets were opened.
    pub fn addresses(&self) -> (addresses: Vec<String>)
        requires
            self.wf(),
        ensures
            distinct(addresses@),
            key_set(addresses@) == self@.dom(),
    {
        let mut addresses: Vec<String> = Vec::new();
        let mut i: usize = 0;
        while i < self.wallets.len()
            invariant
                i <= self.wallets.len(),
                addresses.len() == i,
                forall|j: int| 0 <= j < i ==> addresses[j]@ == self.wallets[j].address@,
            decreases self.wallets.len() - i,
        {
            addresses.push(self.wallets[i].address.clone());
            i = i + 1;
        }
        proof {
            assert(keys_of(addresses@) =~= keys_of(self.wallets@));
            lemma_table_size(self.wallets@, as_view());
        }
        addresses
    }

    /// The sum of what all wallets hold.
    pub fn total_supply(&self) -> (supply: u64)
        requires
            self.wf(),
        ensures
            supply == total_balance(self@),
    {
        self.supply
    }

    /// Moves `amount` from the wallet of `sender` to that of `receiver`.
    ///
    /// Refused with `UnknownWallet` where either has no wallet, and with
    /// `InsufficientFunds` where the sender holds less than `amount`; a
    /// refusal changes nothing. Otherwise the one balance falls and the
    /// other rises by `amount`, and the sum of all balances stays.
    pub fn send_funds(&mut self, sender: &str, receiver: &str, amount: u64) -> (result: Result<
        (),
        WalletError,
    >)
        requires
            old(self).wf(),
        ensures
            final(self).wf(),
            result == transfer_outcome(old(self)@, sender@, receiver@, amount),
            final(self)@ == after_request(old(self)@, sender@, receiver@, amount),
            final(self)@.dom() == old(self)@.dom(),
            total_balance(final(self)@) == total_balance(old(self)@),
    {
        let ghost before = self.wallets@;
        let ghost wallets = self@;
        proof {
            self.lemma_valid();
            lemma_request_conserves(wallets, sender@, receiver@, amount);
        }
        let from = match position(&self.wallets, sender) {
            Some(i) => i,
            None => {
                return Err(WalletError::UnknownWallet);
            },
        };
        let to = match position(&self.wallets, receiver) {
            Some(i) => i,
            None => {
                return Err(WalletError::UnknownWallet);
            },
        };
        proof {
            lemma_table_entry(before, as_view(), from as int);
            lemma_table_entry(before, as_view(), to as int);
        }
        if !self.wallets[from].send_funds(amount) {
            proof {
                let kept = self.wallets@;
                assert(kept =~= before.update(from as int, kept[from as int]));
                lemma_table_update(before, as_view(), from as int, kept[from as int]);
                assert(self@ =~= wallets);
            }
            return Err(WalletError::InsufficientFunds);
        }
        let ghost debited = self.wallets@;
        proof {
            assert(debited =~= before.update(from as int, debited[from as int]));
            lemma_table_update(before, as_view(), from as int, debited[from as int]);
            lemma_table_entry(debited, as_view(), to as int);
            if from != to {
                lemma_total_bounds_pair(wallets, sender@, receiver@);
            }
        }
        self.wallets[to].receive_funds(amount);
        proof {
            let credited = self.wallets@;
            assert(credited =~= debited.update(to as int, credited[to as int]));
            lemma_table_update(debited, as_view(), to as int, credited[to as int]);
        }
        Ok(())
    }

    /// Opens a wallet at `address` that holds `initial_balance`, guarded by
    /// `password` if one is given.
    ///
    /// Refused with `WalletAlreadyExists` where the address is taken, and
    /// with `SupplyOverflow` where the funds of all wallets would no longer
    /// fit in 64 bits together; a refusal changes nothing.
    pub fn create_wallet(&mut self, address: &str, password: Option<&str>, initial_balance: u64) -> (result:
        Result<(), WalletError>)
        requires
            old(self).wf(),
        ensures
            final(self).wf(),
            result == creation_outcome(old(self)@, address@, initial_balance),
            result is Ok ==> final(self)@ == old(self)@.insert(
                address@,
                WalletView::opened(address@, password.deep_view(), initial_balance),
            ),
            result is Ok ==> total_balance(final(self)@) == total_balance(old(self)@)
                + initial_balance,
            result is Err ==> final(self)@ == old(self)@,
    {
        if position(&self.wallets, address).is_some() {
            return Err(WalletError::WalletAlreadyExists);
        }
        if initial_balance > u64::MAX - self.supply {
            return Err(WalletError::SupplyOverflow);
        }
        let wallet = Wallet::new(address, password, initial_balance);
        proof {
            self.lemma_valid();
            lemma_table_push(self.wallets@, as_view(), wallet);
            lemma_total_insert(self@, address@, wallet@);
        }
        self.wallets.push(wallet);
        self.supply = self.supply + initial_balance;
        Ok(())
    }

    /// A copy of the wallet at `address`, for a caller whom it lets in.
    ///
    /// `None` where no wallet has the address, and where the wallet does
    /// not accept `password`.
    pub fn get_wallet(&self, address: &str, password: Option<&str>) -> (found: Option<Wallet>)
        requires
            self.wf(),
        ensures
            found is Some <==> balance_outcome(self@, address@, password.deep_view()) is Ok,
            found matches Some(wallet) ==> wallet@ == self@[address@],
    {
        match position(&self.wallets, address) {
            Some(i) => {
                proof {
                    lemma_table_entry(self.wallets@, as_view(), i as int);
                }
                if self.wallets[i].authenticate(password) {
                    Some(self.wallets[i].clone())
                } else {
                    None
                }
            },
            None => None,
        }
    }

    /// What the wallet at `address` holds, for a caller whom it lets in.
    ///
    /// Refused with `UnknownWallet` where no wallet has the address, and
    /// with `AuthenticationFailed` where the wallet has a credential that
    /// `password` does not match.
    pub fn get_balance(&self, address: &str, password: Option<&str>) -> (result: Result<
        u64,
        WalletError,
    >)
        requires
            self.wf(),
        ensures
            result == balance_outcome(self@, address@, password.deep_view()),
    {
        match position(&self.wallets, address) {
            Some(i) => {
                proof {
                    lemma_table_entry(self.wallets@, as_view(), i as int);
                }
                if self.wallets[i].authenticate(password) {
                    Ok(self.wallets[i].check_balance())
                } else {
                    Err(WalletError::AuthenticationFailed)
                }
            },
            None => Err(WalletError::UnknownWallet),
        }
    }
}

/// The sum of what the wallets of `wallets` hold.
pub open spec fn total_balance(wallets: Map<Seq<char>, WalletView>) -> nat
    decreases wallets.dom().len(),
{
    if wallets.dom().finite() && wallets.dom().len() > 0 {
        let address = wallets.dom().choose();
        wallets[address].balance as nat + total_balance(wallets.remove(address))
    } else {
        0
    }
}

/// The sum of all balances is what any one wallet holds and the sum over
/// the others.
pub proof fn lemma_total_split(wallets: Map<Seq<char>, WalletView>, address: Seq<char>)
    requires
        wallets.dom().finite(),
        wallets.dom().contains(address),
    ensures
        total_balance(wallets) == wallets[address].balance + total_balance(wallets.remove(address)),
    decreases wallets.dom().len(),
{
    let chosen = wallets.dom().choose();
    if chosen != address {
        lemma_total_split(wallets.remove(chosen), address);
        lemma_total_split(wallets.remove(address), chosen);
        assert(wallets.remove(chosen).remove(address) =~= wallets.remove(address).remove(chosen));
    }
}

/// Putting a wallet into the map adds what it holds to the sum, less what
/// the wallet that it replaces held.
pub proof fn lemma_total_insert(
    wallets: Map<Seq<char>, WalletView>,
    address: Seq<char>,
    wallet: WalletView,
)
    requires
        wallets.dom().finite(),
    ensures
        total_balance(wallets.insert(address, wallet)) == total_balance(wallets) + wallet.balance - (
        if wallets.dom().contains(address) {
            wallets[address].balance as int
        } else {
            0
        }),
{
    let after = wallets.insert(address, wallet);
    lemma_total_split(after, address);
    assert(after.remove(address) =~= wallets.remove(address));
    if wallets.dom().contains(address) {
        lemma_total_split(wallets, address);
    } else {
        assert(wallets.remove(address) =~= wallets);
    }
}

/// Two different wallets hold together no more than all wallets do.
pub proof fn lemma_total_bounds_pair(
    wallets: Map<Seq<char>, WalletView>,
    first: Seq<char>,
    second: Seq<char>,
)
    requires
        wallets.dom().finite(),
        wallets.dom().contains(first),
        wallets.dom().contains(second),
        first != second,
    ensures
        wallets[first].balance + wallets[second].balance <= total_balance(wallets),
{
    lemma_total_split(wallets, first);
    lemma_total_split(wallets.remove(first), second);
}

/// What becomes of a request to move `amount` from `sender` to `receiver`:
/// it is refused where either has no wallet, and where the sender holds too
/// little.
pub open spec fn transfer_outcome(
    wallets: Map<Seq<char>, WalletView>,
    sender: Seq<char>,
    receiver: Seq<char>,
    amount: u64,
) -> Result<(), WalletError> {
    if !wallets.dom().contains(sender) || !wallets.dom().contains(receiver) {
        Err(WalletError::UnknownWallet)
    } else if wallets[sender].balance < amount {
        Err(WalletError::InsufficientFunds)
    } else {
        Ok(())
    }
}

/// The wallets after `amount` has left `sender` and then reached
/// `receiver`.
pub open spec fn transfer(
    wallets: Map<Seq<char>, WalletView>,
    sender: Seq<char>,
    receiver: Seq<char>,
    amount: u64,
) -> Map<Seq<char>, WalletView> {
    let debited = wallets.insert(sender, wallets[sender].holding(wallets[sender].balance - amount));
    debited.insert(receiver, debited[receiver].holding(debited[receiver].balance + amount))
}

/// The wallets after a request to move funds: as [`transfer`] leaves them
/// where the request is granted, untouched where it is refused.
pub open spec fn after_request(
    wallets: Map<Seq<char>, WalletView>,
    sender: Seq<char>,
    receiver: Seq<char>,
    amount: u64,
) -> Map<Seq<char>, WalletView> {
    if transfer_outcome(wallets, sender, receiver, amount) is Ok {
        transfer(wallets, sender, receiver, amount)
    } else {
        wallets
    }
}

/// A request to move funds.
pub struct TransferRequest {
    pub sender: Seq<char>,
    pub receiver: Seq<char>,
    pub amount: u64,
}

/// The wallets after the requests of `requests` have been handled in order.
pub open spec fn after_requests(
    wallets: Map<Seq<char>, WalletView>,
    requests: Seq<TransferRequest>,
) -> Map<Seq<char>, WalletView>
    decreases requests.len(),
{
    if requests.len() == 0 {
        wallets
    } else {
        let last = requests.last();
        after_request(
            after_requests(wallets, requests.drop_last()),
            last.sender,
            last.receiver,
            last.amount,
        )
    }
}

/// Whether `wallets` is a set of wallets that a manager can hold: finitely
/// many, each filed under its own address, with funds that fit in 64 bits
/// together.
pub open spec fn valid_wallets(wallets: Map<Seq<char>, WalletView>) -> bool {
    &&& wallets.dom().finite()
    &&& forall|address: Seq<char>| #[trigger]
        wallets.dom().contains(address) ==> wallets[address].address == address
    &&& total_balance(wallets) <= u64::MAX
}

/// Conservation, one request: a request to move funds, granted or refused,
/// leaves the same wallets with the same addresses and credentials, and the
/// same sum of balances.
pub proof fn lemma_request_conserves(
    wallets: Map<Seq<char>, WalletView>,
    sender: Seq<char>,
    receiver: Seq<char>,
    amount: u64,
)
    requires
        valid_wallets(wallets),
    ensures
        valid_wallets(after_request(wallets, sender, receiver, amount)),
        after_request(wallets, sender, receiver, amount).dom() == wallets.dom(),
        total_balance(after_request(wallets, sender, receiver, amount)) == total_balance(wallets),
{
    if transfer_outcome(wallets, sender, receiver, amount) is Ok {
        let left = wallets[sender].holding(wallets[sender].balance - amount);
        let debited = wallets.insert(sender, left);
        lemma_total_split(wallets, sender);
        lemma_total_insert(wallets, sender, left);
        if sender != receiver {
            lemma_total_bounds_pair(wallets, sender, receiver);
        }
        let raised = debited[receiver].holding(debited[receiver].balance + amount);
        lemma_total_insert(debited, receiver, raised);
        assert(debited.insert(receiver, raised).dom() =~= wallets.dom());
    }
}

/// Conservation: whatever requests to move funds are handled, in whatever
/// order, the sum of all balances stays what it was.
pub proof fn lemma_requests_conserve(
    wallets: Map<Seq<char>, WalletView>,
    requests: Seq<TransferRequest>,
)
    requires
        valid_wallets(wallets),
    ensures
        valid_wallets(after_requests(wallets, requests)),
        after_requests(wallets, requests).dom() == wallets.dom(),
        total_balance(after_requests(wallets, requests)) == total_balance(wallets),
    decreases requests.len(),
{
    if requests.len() > 0 {
        let last = requests.last();
        lemma_requests_conserve(wallets, requests.drop_last());
        lemma_request_conserves(
            after_requests(wallets, requests.drop_last()),
            last.sender,
            last.receiver,
            last.amount,
        );
    }
}

} // verus!
