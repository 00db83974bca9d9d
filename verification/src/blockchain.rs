//! The ledger: a main chain, one branch chain for each department that the
//! authority has funded, the wallets, and the validators.

use crate::block::{block_views, clone_blocks, transaction_views, Block, BlockView};
use crate::clock::now;
use crate::keyed::{
    distinct, key_set, keys_of, lemma_table_copy, lemma_table_entry, lemma_table_lookup,
    lemma_table_push, lemma_table_size, lemma_table_update, position, table, Keyed,
};
use crate::text::str_eq;
use crate::transaction::{Transaction, TransactionView};
use crate::validators::{as_votes, PendingRequest, Validators, ValidatorsView};
use crate::wallet::{total_balance, transfer, WalletManager, WalletView};
use vstd::prelude::*;
use vstd::string::*;

verus! {

/// Why a transfer was not entered into the ledger.
#[derive(Debug, Clone, Copy, PartialEq, Eq, Structural)]
pub enum TxError {
    /// The sender or the receiver has no wallet.
    UnknownWallet,
    /// On the main chain: the authority may fund validators only, and the
    /// receiver is none. On a branch: the owner of the branch is no
    /// validator.
    UnauthorizedValidator,
    /// No branch belongs to the sender.
    UnknownBranch,
    /// The index of the next block of the branch would no longer fit in 64
    /// bits.
    ChainFull,
    /// The sender holds less than the amount.
    InsufficientFunds,
}

/// The name of the main chain.
pub open spec fn main_chain_id() -> Seq<char> {
    "MAIN"@
}

/// What the first block of the main chain names as the hash of its parent.
pub open spec fn root_marker() -> Seq<char> {
    "0"@
}

/// The name of the chain that the blocks of the branch of `owner` carry.
pub open spec fn branch_chain_id(owner: Seq<char>) -> Seq<char> {
    "BRANCH-"@ + owner
}

/// Whether each block but the first names the hash of the block before it
/// as its parent and has the index after that block's.
pub open spec fn linked(chain: Seq<BlockView>) -> bool {
    forall|i: int|
        0 < i < chain.len() ==> {
            &&& (#[trigger] chain[i]).parent_hash == chain[i - 1].hash
            &&& chain[i].index == chain[i - 1].index + 1
        }
}

/// Whether every block of the chain, and every transaction in it, is stored
/// under the hash that its content gives.
pub open spec fn sealed_chain(chain: Seq<BlockView>) -> bool {
    forall|i: int| 0 <= i < chain.len() ==> (#[trigger] chain[i]).sealed_through()
}

/// Whether `block` is the genesis of the main chain: index 0, the root
/// marker for a parent, and no transaction.
pub open spec fn is_genesis(block: BlockView) -> bool {
    &&& block.index == 0
    &&& block.parent_hash == root_marker()
    &&& block.branch_id == main_chain_id()
    &&& block.transactions.len() == 0
}

/// Whether `chain` can be the main chain: it starts with the genesis, is
/// linked and sealed, and all its blocks carry the name of the main chain.
pub open spec fn valid_main_chain(chain: Seq<BlockView>) -> bool {
    &&& chain.len() > 0
    &&& is_genesis(chain[0])
    &&& linked(chain)
    &&& sealed_chain(chain)
    &&& forall|i: int| 0 <= i < chain.len() ==> (#[trigger] chain[i]).branch_id == main_chain_id()
}

/// Whether `chain` can be the branch of `owner` beside the main chain
/// `main`: its first entry is a block of the main chain, the anchor; it is
/// linked and sealed from there; and the blocks after the anchor carry the
/// name of the branch.
pub open spec fn valid_branch(owner: Seq<char>, chain: Seq<BlockView>, main: Seq<BlockView>) -> bool {
    &&& chain.len() > 0
    &&& main.contains(chain[0])
    &&& linked(chain)
    &&& sealed_chain(chain)
    &&& forall|i: int| 0 < i < chain.len() ==> (#[trigger] chain[i]).branch_id == branch_chain_id(owner)
}

/// In the main chain every block has its position for an index.
pub proof fn lemma_main_chain_index(chain: Seq<BlockView>, i: int)
    requires
        valid_main_chain(chain),
        0 <= i < chain.len(),
    ensures
        chain[i].index == i,
    decreases i,
{
    if i > 0 {
        lemma_main_chain_index(chain, i - 1);
    }
}

/// A block that names the last block of a linked chain as its parent, and
/// has the index after it, extends the chain to a linked one.
pub proof fn lemma_linked_push(chain: Seq<BlockView>, block: BlockView)
    requires
        chain.len() > 0,
        linked(chain),
        block.parent_hash == chain.last().hash,
        block.index == chain.last().index + 1,
    ensures
        linked(chain.push(block)),
{
    let longer = chain.push(block);
    assert forall|i: int| 0 < i < longer.len() implies {
        &&& (#[trigger] longer[i]).parent_hash == longer[i - 1].hash
        &&& longer[i].index == longer[i - 1].index + 1
    } by {
        if i < chain.len() {
            assert(longer[i] == chain[i]);
        }
    }
}

/// The branch chain of one department.
#[derive(Debug)]
pub struct Branch {
    pub owner: String,
    pub blocks: Vec<Block>,
}

impl Keyed for Branch {
    open spec fn key_view(&self) -> Seq<char> {
        self.owner@
    }

    fn key(&self) -> (k: &str) {
        self.owner.as_str()
    }
}

/// How a branch enters the view of the ledger: as the views of its blocks.
pub open spec fn as_chain() -> spec_fn(Branch) -> Seq<BlockView> {
    |branch: Branch| block_views(branch.blocks@)
}

/// A copy of what the ledger holds, for reading: the chains in full, the
/// wallets by address only, the validators, and the open requests with
/// their votes.
#[derive(Debug)]
pub struct LedgerSnapshot {
    pub main_chain: Vec<Block>,
    pub branches: Vec<Branch>,
    pub wallets: Vec<String>,
    pub validators: Vec<String>,
    pub pending_requests: Vec<PendingRequest>,
}

/// The ledger.
#[derive(Debug)]
pub struct Blockchain {
    pub main_chain: Vec<Block>,
    pub branches: Vec<Branch>,
    pub validators: Validators,
    pub wallet_manager: WalletManager,
    pub authority: String,
}

impl Blockchain {
    /// The blocks of the main chain, genesis first.
    pub open spec fn main_chain_view(&self) -> Seq<BlockView> {
        block_views(self.main_chain@)
    }

    /// The branch chains, each under the address of its owner.
    pub open spec fn branches_view(&self) -> Map<Seq<char>, Seq<BlockView>> {
        table(self.branches@, as_chain())
    }

    /// The wallets and the validators are well formed; the main chain starts
    /// with the genesis and is linked and sealed; no department has two
    /// branches; and each branch is anchored in the main chain and linked
    /// and sealed from there.
    pub open spec fn wf(&self) -> bool {
        &&& self.wallet_manager.wf()
        &&& self.validators.wf()
        &&& valid_main_chain(self.main_chain_view())
        &&& distinct(self.branches@)
        &&& forall|i: int|
            0 <= i < self.branches.len() ==> valid_branch(
                (#[trigger] self.branches[i]).owner@,
                block_views(self.branches[i].blocks@),
                self.main_chain_view(),
            )
    }

    /// Whether `address` is the governance authority of this ledger.
    pub open spec fn governs(&self, address: Seq<char>) -> bool {
        address == self.authority@
    }

    /// Whether `other` holds the same chains, wallets and validators, under
    /// the same authority.
    pub open spec fn same_state(&self, other: &Blockchain) -> bool {
        &&& self.main_chain_view() == other.main_chain_view()
        &&& self.branches_view() == other.branches_view()
        &&& self.wallet_manager@ == other.wallet_manager@
        &&& self.validators@ == other.validators@
        &&& self.authority@ == other.authority@
    }

    /// Why a transfer on the main chain is refused, if it is: the first of
    /// these that holds. A party has no wallet; the sender is the authority
    /// and the receiver is no validator; the sender holds too little.
    pub open spec fn main_rejection(&self, sender: Seq<char>, receiver: Seq<char>, amount: u64) -> Option<
        TxError,
    > {
        let wallets = self.wallet_manager@;
        if !wallets.dom().contains(sender) || !wallets.dom().contains(receiver) {
            Some(TxError::UnknownWallet)
        } else if self.governs(sender) && !self.validators@.approved.contains(receiver) {
            Some(TxError::UnauthorizedValidator)
        } else if wallets[sender].balance < amount {
            Some(TxError::InsufficientFunds)
        } else {
            None
        }
    }

    /// The block that enters a transfer into the main chain: it follows the
    /// last block and carries the one transaction.
    pub open spec fn next_main_block(
        &self,
        sender: Seq<char>,
        receiver: Seq<char>,
        amount: u64,
        tx_time: u128,
        block_time: u128,
    ) -> BlockView {
        BlockView::assemble(
            (self.main_chain_view().last().index + 1) as u64,
            block_time,
            self.main_chain_view().last().hash,
            main_chain_id(),
            seq![TransactionView::record(sender, receiver, amount, tx_time)],
        )
    }

    /// Whether a transfer from `sender` to `receiver` on the main chain
    /// opens a branch: it does where the authority funds a department that
    /// has no branch yet.
    pub open spec fn opens_branch(&self, sender: Seq<char>, receiver: Seq<char>) -> bool {
        self.governs(sender) && !self.branches_view().dom().contains(receiver)
    }

    /// Whether `after` is this ledger once a transfer has been entered into
    /// the main chain as `block`: the funds have moved, the block ends the
    /// main chain, the branch that the transfer opens, if any, consists of
    /// that same block, and nothing else has changed.
    pub open spec fn main_accepted(
        &self,
        after: &Blockchain,
        block: BlockView,
        sender: Seq<char>,
        receiver: Seq<char>,
        amount: u64,
        tx_time: u128,
        block_time: u128,
    ) -> bool {
        &&& block == self.next_main_block(sender, receiver, amount, tx_time, block_time)
        &&& after.main_chain_view() == self.main_chain_view().push(block)
        &&& after.branches_view() == if self.opens_branch(sender, receiver) {
            self.branches_view().insert(receiver, seq![block])
        } else {
            self.branches_view()
        }
        &&& after.wallet_manager@ == transfer(self.wallet_manager@, sender, receiver, amount)
        &&& after.validators@ == self.validators@
        &&& after.authority@ == self.authority@
    }

    /// Why a transfer on the branch of `owner` is refused, if it is: the
    /// first of these that holds. A party has no wallet; the owner is no
    /// validator; the owner has no branch; the branch is full; the owner
    /// holds too little.
    pub open spec fn branch_rejection(&self, owner: Seq<char>, receiver: Seq<char>, amount: u64) -> Option<
        TxError,
    > {
        let wallets = self.wallet_manager@;
        if !wallets.dom().contains(owner) || !wallets.dom().contains(receiver) {
            Some(TxError::UnknownWallet)
        } else if !self.validators@.approved.contains(owner) {
            Some(TxError::UnauthorizedValidator)
        } else if !self.branches_view().dom().contains(owner) {
            Some(TxError::UnknownBranch)
        } else if self.branches_view()[owner].last().index == u64::MAX {
            Some(TxError::ChainFull)
        } else if wallets[owner].balance < amount {
            Some(TxError::InsufficientFunds)
        } else {
            None
        }
    }

    /// The block that enters a transfer into the branch of `owner`: it
    /// follows the last block of the branch and carries the one transaction.
    pub open spec fn next_branch_block(
        &self,
        owner: Seq<char>,
        receiver: Seq<char>,
        amount: u64,
        tx_time: u128,
        block_time: u128,
    ) -> BlockView {
        BlockView::assemble(
            (self.branches_view()[owner].last().index + 1) as u64,
            block_time,
            self.branches_view()[owner].last().hash,
            branch_chain_id(owner),
            seq![TransactionView::record(owner, receiver, amount, tx_time)],
        )
    }

    /// Whether `after` is this ledger once a transfer has been entered into
    /// the branch of `owner` as `block`: the funds have moved, the block
    /// ends that branch, and nothing else has changed.
    pub open spec fn branch_accepted(
        &self,
        after: &Blockchain,
        block: BlockView,
        owner: Seq<char>,
        receiver: Seq<char>,
        amount: u64,
        tx_time: u128,
        block_time: u128,
    ) -> bool {
        &&& block == self.next_branch_block(owner, receiver, amount, tx_time, block_time)
        &&& after.main_chain_view() == self.main_chain_view()
        &&& after.branches_view() == self.branches_view().insert(
            owner,
            self.branches_view()[owner].push(block),
        )
        &&& after.wallet_manager@ == transfer(self.wallet_manager@, owner, receiver, amount)
        &&& after.validators@ == self.validators@
        &&& after.authority@ == self.authority@
    }

    /// The genesis block of a main chain that starts at `timestamp`.
    pub open spec fn genesis(timestamp: u128) -> BlockView {
        BlockView::assemble(0, timestamp, root_marker(), main_chain_id(), Seq::empty())
    }

    /// Whether this is the ledger as it starts: the genesis block alone, no
    /// branch, one wallet without credential that holds the whole supply,
    /// and its owner, the authority, as the only validator.
    pub open spec fn initial(&self, authority: Seq<char>, initial_supply: u64, timestamp: u128) -> bool {
        &&& self.main_chain_view() == seq![Self::genesis(timestamp)]
        &&& self.branches_view() == Map::<Seq<char>, Seq<BlockView>>::empty()
        &&& self.wallet_manager@ == Map::<Seq<char>, WalletView>::empty().insert(
            authority,
            WalletView::opened(authority, None, initial_supply),
        )
        &&& self.validators@ == ValidatorsView::seeded(authority)
        &&& self.authority@ == authority
    }

    /// Starts a ledger under `authority`, which holds `initial_supply`, with
    /// a genesis block stamped with the current time.
    pub fn new(authority: &str, initial_supply: u64) -> (ledger: Self)
        ensures
            ledger.wf(),
            ledger.initial(authority@, initial_supply, ledger.main_chain_view()[0].timestamp),
    {
        Blockchain::new_at(authority, initial_supply, now())
    }

    /// Starts a ledger under `authority`, which holds `initial_supply`, with
    /// a genesis block stamped with `timestamp`.
    pub fn new_at(authority: &str, initial_supply: u64, timestamp: u128) -> (ledger: Self)
        ensures
            ledger.wf(),
            ledger.initial(authority@, initial_supply, timestamp),
    {
        let validators = Validators::new(authority);
        let genesis_block = Block::with_timestamp(0, "0", "MAIN", Vec::new(), timestamp);
        let mut wallet_manager = WalletManager::new();
        let opened = wallet_manager.create_wallet(authority, None, initial_supply);
        let mut main_chain: Vec<Block> = Vec::new();
        main_chain.push(genesis_block);
        let ledger = Blockchain {
            main_chain,
            branches: Vec::new(),
            validators,
            wallet_manager,
            authority: authority.to_owned(),
        };
        proof {
            assert(total_balance(Map::<Seq<char>, WalletView>::empty()) == 0);
            assert(opened is Ok);
            assert(transaction_views(Seq::<Transaction>::empty()) =~= Seq::<
                TransactionView,
            >::empty());
            assert(ledger.main_chain_view() =~= seq![Self::genesis(timestamp)]);
            assert(keys_of(ledger.branches@) =~= Seq::<Seq<char>>::empty());
            assert(ledger.branches_view() =~= Map::<Seq<char>, Seq<BlockView>>::empty());
        }
        ledger
    }

    /// Chain integrity: in a well-formed ledger the main chain starts with
    /// the genesis, which has index 0 and the root marker for a parent, and
    /// each later block names the hash of the block before it as its parent
    /// and has the index after it; every block has its position for an
    /// index, and is stored under the hash that its content gives.
    pub proof fn lemma_main_chain_integrity(&self)
        requires
            self.wf(),
        ensures
            valid_main_chain(self.main_chain_view()),
            forall|i: int|
                0 <= i < self.main_chain_view().len() ==> (#[trigger] self.main_chain_view()[i]).index
                    == i,
    {
        let chain = self.main_chain_view();
        assert forall|i: int| 0 <= i < chain.len() implies (#[trigger] chain[i]).index == i by {
            lemma_main_chain_index(chain, i);
        }
    }

    /// Chain integrity, branches: in a well-formed ledger the branch of
    /// `owner` starts with a block of the main chain, and each later block
    /// names the hash of the block before it as its parent and has the index
    /// after it; every block is stored under the hash that its content
    /// gives. There are finitely many branches.
    pub proof fn lemma_branch_integrity(&self, owner: Seq<char>)
        requires
            self.wf(),
            self.branches_view().dom().contains(owner),
        ensures
            valid_branch(owner, self.branches_view()[owner], self.main_chain_view()),
            self.branches_view().dom().finite(),
    {
        lemma_table_lookup(self.branches@, as_chain(), owner);
        let i = keys_of(self.branches@).index_of(owner);
        assert(self.branches[i].owner@ == owner);
        lemma_table_size(self.branches@, as_chain());
    }

    /// Rejected overdraft: a transfer on the main chain between two wallets,
    /// of more than the sender holds, is refused for want of funds, unless
    /// the sender is the authority and the receiver is no validator, which
    /// is reported first.
    pub proof fn lemma_overdraft_rejected(&self, sender: Seq<char>, receiver: Seq<char>, amount: u64)
        requires
            self.wallet_manager@.dom().contains(sender),
            self.wallet_manager@.dom().contains(receiver),
            !(self.governs(sender) && !self.validators@.approved.contains(receiver)),
            amount > self.wallet_manager@[sender].balance,
        ensures
            self.main_rejection(sender, receiver, amount) == Some(TxError::InsufficientFunds),
    {
    }

    /// The branch of `department_id`, if it has one.
    pub fn get_branch(&self, department_id: &str) -> (found: Option<&Branch>)
        requires
            self.wf(),
        ensures
            found is Some <==> self.branches_view().dom().contains(department_id@),
            found matches Some(branch) ==> branch.owner@ == department_id@ && block_views(
                branch.blocks@,
            ) == self.branches_view()[department_id@],
    {
        match position(&self.branches, department_id) {
            Some(i) => {
                proof {
                    lemma_table_entry(self.branches@, as_chain(), i as int);
                }
                Some(&self.branches[i])
            },
            None => None,
        }
    }

    /// A copy of the state for reading: both kinds of chains block by
    /// block, the addresses of the wallets, the validators in office, and
    /// the open requests with their votes.
    pub fn export_state(&self) -> (snapshot: LedgerSnapshot)
        requires
            self.wf(),
        ensures
            block_views(snapshot.main_chain@) == self.main_chain_view(),
            keys_of(snapshot.branches@) == keys_of(self.branches@),
            table(snapshot.branches@, as_chain()) == self.branches_view(),
            distinct(snapshot.wallets@),
            key_set(snapshot.wallets@) == self.wallet_manager@.dom(),
            distinct(snapshot.validators@),
            key_set(snapshot.validators@) == self.validators@.approved,
            distinct(snapshot.pending_requests@),
            table(snapshot.pending_requests@, as_votes()) == self.validators@.pending,
    {
        let mut branches: Vec<Branch> = Vec::new();
        let mut i: usize = 0;
        while i < self.branches.len()
            invariant
                i <= self.branches.len(),
                branches.len() == i,
                forall|j: int|
                    0 <= j < i ==> (#[trigger] branches[j]).owner@ == self.branches[j].owner@
                        && block_views(branches[j].blocks@) == block_views(
                        self.branches[j].blocks@,
                    ),
            decreases self.branches.len() - i,
        {
            let branch = Branch {
                owner: self.branches[i].owner.clone(),
                blocks: clone_blocks(&self.branches[i].blocks),
            };
            branches.push(branch);
            i = i + 1;
        }
        proof {
            lemma_table_copy(self.branches@, branches@, as_chain());
        }
        LedgerSnapshot {
            main_chain: clone_blocks(&self.main_chain),
            branches,
            wallets: self.wallet_manager.addresses(),
            validators: self.validators.list_validators(),
            pending_requests: self.validators.open_requests(),
        }
    }

    /// Whether `address` is the governance authority of this ledger.
    pub fn is_authority(&self, address: &str) -> (governs: bool)
        ensures
            governs == self.governs(address@),
    {
        str_eq(address, self.authority.as_str())
    }

    /// Enters a transfer of `amount` from `sender` to `receiver` into the
    /// main chain, stamped with the current time.
    ///
    /// Refused, in this order, with `UnknownWallet` where either has no
    /// wallet, with `UnauthorizedValidator` where the sender is the
    /// authority and the receiver is no validator, and with
    /// `InsufficientFunds` where the sender holds less than `amount`; a
    /// refusal changes nothing. Otherwise the funds move and a block with
    /// the one transaction is appended to the main chain; where the
    /// authority funds a department without a branch, that block also
    /// becomes the first entry of a new branch of the receiver. Returns a
    /// copy of the block. The two timestamps are whatever the clock reads.
    pub fn add_transaction(&mut self, sender: &str, receiver: &str, amount: u64) -> (result: Result<
        Block,
        TxError,
    >)
        requires
            old(self).wf(),
        ensures
            final(self).wf(),
            total_balance(final(self).wallet_manager@) == total_balance(old(self).wallet_manager@),
            match result {
                Ok(block) => old(self).main_rejection(sender@, receiver@, amount) is None && old(
                    self,
                ).main_accepted(
                    final(self),
                    block@,
                    sender@,
                    receiver@,
                    amount,
                    block@.transactions[0].timestamp,
                    block@.timestamp,
                ),
                Err(error) => old(self).main_rejection(sender@, receiver@, amount) == Some(error)
                    && final(self).same_state(old(self)),
            },
    {
        let tx_time = now();
        let block_time = now();
        self.add_transaction_at(sender, receiver, amount, tx_time, block_time)
    }

    /// Enters a transfer of `amount` from `sender` to `receiver` into the
    /// main chain, the transaction stamped with `tx_time` and the block with
    /// `block_time`. In all else this is [`Blockchain::add_transaction`].
    pub fn add_transaction_at(
        &mut self,
        sender: &str,
        receiver: &str,
        amount: u64,
        tx_time: u128,
        block_time: u128,
    ) -> (result: Result<Block, TxError>)
        requires
            old(self).wf(),
        ensures
            final(self).wf(),
            total_balance(final(self).wallet_manager@) == total_balance(old(self).wallet_manager@),
            match result {
                Ok(block) => old(self).main_rejection(sender@, receiver@, amount) is None && old(
                    self,
                ).main_accepted(final(self), block@, sender@, receiver@, amount, tx_time, block_time),
                Err(error) => old(self).main_rejection(sender@, receiver@, amount) == Some(error)
                    && final(self).same_state(old(self)),
            },
    {
        if !self.wallet_manager.has_wallet(sender) || !self.wallet_manager.has_wallet(receiver) {
            return Err(TxError::UnknownWallet);
        }
        if self.is_authority(sender) && !self.validators.contains(receiver) {
            return Err(TxError::UnauthorizedValidator);
        }
        if self.wallet_manager.send_funds(sender, receiver, amount).is_err() {
            return Err(TxError::InsufficientFunds);
        }
        let ghost chain = self.main_chain_view();
        proof {
            lemma_main_chain_index(chain, chain.len() - 1);
        }
        let tx = Transaction::with_timestamp(sender, receiver, amount, tx_time);
        let mut transactions: Vec<Transaction> = Vec::new();
        transactions.push(tx);
        let last = &self.main_chain[self.main_chain.len() - 1];
        let block = Block::with_timestamp(
            last.index + 1,
            last.hash.as_str(),
            "MAIN",
            transactions,
            block_time,
        );
        let receipt = block.clone();
        proof {
            assert(transaction_views(transactions@) =~= seq![
                TransactionView::record(sender@, receiver@, amount, tx_time),
            ]);
            assert(block@ == old(self).next_main_block(
                sender@,
                receiver@,
                amount,
                tx_time,
                block_time,
            ));
            lemma_linked_push(chain, block@);
            assert(block_views(self.main_chain@.push(block)) =~= chain.push(block@));
            let longer = chain.push(block@);
            assert(longer[0] == chain[0]);
            assert forall|i: int|
                0 <= i < longer.len() implies (#[trigger] longer[i]).sealed_through()
                && longer[i].branch_id == main_chain_id() by {
                if i < chain.len() {
                    assert(longer[i] == chain[i]);
                }
            }
            assert forall|i: int| 0 <= i < self.branches.len() implies valid_branch(
                (#[trigger] self.branches[i]).owner@,
                block_views(self.branches[i].blocks@),
                longer,
            ) by {
                let first = block_views(self.branches[i].blocks@)[0];
                let k = chain.index_of(first);
                assert(longer[k] == first);
            }
            assert(longer[chain.len() as int] == block@);
        }
        if self.is_authority(sender) {
            let anchor = block.clone();
            self.main_chain.push(block);
            self.create_branch(receiver, anchor);
        } else {
            self.main_chain.push(block);
        }
        Ok(receipt)
    }

    /// Opens a branch for `department_id` that starts with `genesis_block`,
    /// a block of the main chain, unless the department has a branch.
    ///
    /// Returns whether it did; the branch of a department that has one is
    /// left as it is.
    pub fn create_branch(&mut self, department_id: &str, genesis_block: Block) -> (created: bool)
        requires
            old(self).wf(),
            old(self).main_chain_view().contains(genesis_block@),
        ensures
            final(self).wf(),
            created == !old(self).branches_view().dom().contains(department_id@),
            final(self).branches_view() == if created {
                old(self).branches_view().insert(department_id@, seq![genesis_block@])
            } else {
                old(self).branches_view()
            },
            final(self).main_chain_view() == old(self).main_chain_view(),
            final(self).wallet_manager == old(self).wallet_manager,
            final(self).validators == old(self).validators,
            final(self).authority == old(self).authority,
    {
        if position(&self.branches, department_id).is_some() {
            return false;
        }
        let mut blocks: Vec<Block> = Vec::new();
        blocks.push(genesis_block);
        let branch = Branch { owner: department_id.to_owned(), blocks };
        proof {
            assert(block_views(branch.blocks@) =~= seq![genesis_block@]);
            lemma_table_push(self.branches@, as_chain(), branch);
        }
        self.branches.push(branch);
        true
    }

    /// Enters a transfer of `amount` from `department_id` to `receiver` into
    /// the branch of that department, stamped with the current time.
    ///
    /// Refused, in this order, with `UnknownWallet` where either has no
    /// wallet, with `UnauthorizedValidator` where the department is no
    /// validator, with `UnknownBranch` where it has no branch, with
    /// `ChainFull` where the index after that of the last block of the
    /// branch does not fit in 64 bits, and with `InsufficientFunds` where
    /// the department holds less than `amount`; a refusal changes nothing.
    /// Otherwise the funds move and a block with the one transaction is
    /// appended to that branch, and to no other chain. Returns a copy of the
    /// block. The two timestamps are whatever the clock reads.
    pub fn add_branch_transaction(&mut self, department_id: &str, receiver: &str, amount: u64) -> (result:
        Result<Block, TxError>)
        requires
            old(self).wf(),
        ensures
            final(self).wf(),
            total_balance(final(self).wallet_manager@) == total_balance(old(self).wallet_manager@),
            match result {
                Ok(block) => old(self).branch_rejection(department_id@, receiver@, amount) is None
                    && old(self).branch_accepted(
                    final(self),
                    block@,
                    department_id@,
                    receiver@,
                    amount,
                    block@.transactions[0].timestamp,
                    block@.timestamp,
                ),
                Err(error) => old(self).branch_rejection(department_id@, receiver@, amount) == Some(
                    error,
                ) && final(self).same_state(old(self)),
            },
    {
        let tx_time = now();
        let block_time = now();
        self.add_branch_transaction_at(department_id, receiver, amount, tx_time, block_time)
    }

    /// Enters a transfer of `amount` from `department_id` to `receiver` into
    /// the branch of that department, the transaction stamped with `tx_time`
    /// and the block with `block_time`. In all else this is
    /// [`Blockchain::add_branch_transaction`].
    pub fn add_branch_transaction_at(
        &mut self,
        department_id: &str,
        receiver: &str,
        amount: u64,
        tx_time: u128,
        block_time: u128,
    ) -> (result: Result<Block, TxError>)
        requires
            old(self).wf(),
        ensures
            final(self).wf(),
            total_balance(final(self).wallet_manager@) == total_balance(old(self).wallet_manager@),
            match result {
                Ok(block) => old(self).branch_rejection(department_id@, receiver@, amount) is None
                    && old(self).branch_accepted(
                    final(self),
                    block@,
                    department_id@,
                    receiver@,
                    amount,
                    tx_time,
                    block_time,
                ),
                Err(error) => old(self).branch_rejection(department_id@, receiver@, amount) == Some(
                    error,
                ) && final(self).same_state(old(self)),
            },
    {
        if !self.wallet_manager.has_wallet(department_id) || !self.wallet_manager.has_wallet(
            receiver,
        ) {
            return Err(TxError::UnknownWallet);
        }
        if !self.validators.contains(department_id) {
            return Err(TxError::UnauthorizedValidator);
        }
        let at = match position(&self.branches, department_id) {
            Some(i) => i,
            None => {
                return Err(TxError::UnknownBranch);
            },
        };
        let ghost branches = self.branches@;
        let ghost chain = block_views(branches[at as int].blocks@);
        proof {
            lemma_table_entry(branches, as_chain(), at as int);
        }
        let length = self.branches[at].blocks.len();
        let index = match self.branches[at].blocks[length - 1].index.checked_add(1) {
            Some(next) => next,
            None => {
                return Err(TxError::ChainFull);
            },
        };
        if self.wallet_manager.send_funds(department_id, receiver, amount).is_err() {
            return Err(TxError::InsufficientFunds);
        }
        let tx = Transaction::with_timestamp(department_id, receiver, amount, tx_time);
        let mut transactions: Vec<Transaction> = Vec::new();
        transactions.push(tx);
        let mut chain_id = "BRANCH-".to_owned();
        chain_id.append(department_id);
        let block = Block::with_timestamp(
            index,
            self.branches[at].blocks[length - 1].hash.as_str(),
            chain_id.as_str(),
            transactions,
            block_time,
        );
        let receipt = block.clone();
        proof {
            assert(transaction_views(transactions@) =~= seq![
                TransactionView::record(department_id@, receiver@, amount, tx_time),
            ]);
            assert(block@ == old(self).next_branch_block(
                department_id@,
                receiver@,
                amount,
                tx_time,
                block_time,
            ));
            lemma_linked_push(chain, block@);
        }
        self.branches[at].blocks.push(block);
        proof {
            let grown = self.branches@;
            let longer = chain.push(block@);
            assert(grown =~= branches.update(at as int, grown[at as int]));
            assert(block_views(grown[at as int].blocks@) =~= longer);
            lemma_table_update(branches, as_chain(), at as int, grown[at as int]);
            assert(longer[0] == chain[0]);
            assert forall|i: int|
                0 <= i < longer.len() implies (#[trigger] longer[i]).sealed_through() by {
                if i < chain.len() {
                    assert(longer[i] == chain[i]);
                }
            }
            assert forall|i: int| 0 < i < longer.len() implies (#[trigger] longer[i]).branch_id
                == branch_chain_id(department_id@) by {
                if i < chain.len() {
                    assert(longer[i] == chain[i]);
                }
            }
            assert forall|i: int| 0 <= i < grown.len() implies valid_branch(
                (#[trigger] grown[i]).owner@,
                block_views(grown[i].blocks@),
                self.main_chain_view(),
            ) by {
                if i != at {
                    assert(grown[i] == branches[i]);
                }
            }
        }
        Ok(receipt)
    }
}

} // verus!
