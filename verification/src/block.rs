//! Blocks: the entries of a chain, each identified by the content hash of
//! its position, its parent, its chain and the transfers it carries.

use crate::clock::now;
use crate::digest::{content_digest, content_hash};
use crate::text::{decimal, to_decimal};
use crate::transaction::{Transaction, TransactionView};
use vstd::prelude::*;
use vstd::string::*;

verus! {

/// An entry of a chain.
#[derive(Debug)]
pub struct Block {
    pub index: u64,
    pub timestamp: u128,
    pub parent_hash: String,
    pub branch_id: String,
    pub transactions: Vec<Transaction>,
    pub hash: String,
}

/// What a [`Block`] holds, as mathematical values.
pub struct BlockView {
    pub index: u64,
    pub timestamp: u128,
    pub parent_hash: Seq<char>,
    pub branch_id: Seq<char>,
    pub transactions: Seq<TransactionView>,
    pub hash: Seq<char>,
}

/// The views of a sequence of transactions, in order.
pub open spec fn transaction_views(transactions: Seq<Transaction>) -> Seq<TransactionView> {
    transactions.map_values(|tx: Transaction| tx@)
}

/// The renderings of `transactions`, in order, separated by a comma and a
/// space.
pub open spec fn rendered_items(transactions: Seq<TransactionView>) -> Seq<char>
    decreases transactions.len(),
{
    if transactions.len() == 0 {
        Seq::empty()
    } else if transactions.len() == 1 {
        transactions[0].rendering()
    } else {
        rendered_items(transactions.drop_last()) + ", "@ + transactions.last().rendering()
    }
}

/// The text that identifies a block: its index in decimal, the hash of its
/// parent, the name of its chain, and its transactions as a list in square
/// brackets, joined by hyphens. The timestamp is no part of it.
pub open spec fn block_preimage(
    index: u64,
    parent_hash: Seq<char>,
    branch_id: Seq<char>,
    transactions: Seq<TransactionView>,
) -> Seq<char> {
    decimal(index as nat) + "-"@ + parent_hash + "-"@ + branch_id + "-"@ + "["@ + rendered_items(
        transactions,
    ) + "]"@
}

/// The hash of a block: the content hash of its preimage.
pub open spec fn block_hash(
    index: u64,
    parent_hash: Seq<char>,
    branch_id: Seq<char>,
    transactions: Seq<TransactionView>,
) -> Seq<char> {
    content_digest(block_preimage(index, parent_hash, branch_id, transactions))
}

impl BlockView {
    /// The block with the given content, under the hash that the content
    /// gives.
    pub open spec fn assemble(
        index: u64,
        timestamp: u128,
        parent_hash: Seq<char>,
        branch_id: Seq<char>,
        transactions: Seq<TransactionView>,
    ) -> BlockView {
        BlockView {
            index,
            timestamp,
            parent_hash,
            branch_id,
            transactions,
            hash: block_hash(index, parent_hash, branch_id, transactions),
        }
    }

    /// The hash that the stored index, parent hash, chain name and
    /// transactions give.
    pub open spec fn digest(self) -> Seq<char> {
        block_hash(self.index, self.parent_hash, self.branch_id, self.transactions)
    }

    /// Whether the stored hash is the one that the stored fields give.
    pub open spec fn sealed(self) -> bool {
        self.hash == self.digest()
    }

    /// Whether the block is sealed and so is every transaction in it: each
    /// is stored under the identifier that its own fields give.
    pub open spec fn sealed_through(self) -> bool {
        &&& self.sealed()
        &&& forall|i: int|
            0 <= i < self.transactions.len() ==> (#[trigger] self.transactions[i]).sealed()
    }
}

impl View for Block {
    type V = BlockView;

    open spec fn view(&self) -> BlockView {
        BlockView {
            index: self.index,
            timestamp: self.timestamp,
            parent_hash: self.parent_hash@,
            branch_id: self.branch_id@,
            transactions: transaction_views(self.transactions@),
            hash: self.hash@,
        }
    }
}

/// Copies a list of transactions.
pub fn clone_transactions(transactions: &Vec<Transaction>) -> (copy: Vec<Transaction>)
    ensures
        transaction_views(copy@) == transaction_views(transactions@),
{
    let mut copy: Vec<Transaction> = Vec::new();
    let mut i: usize = 0;
    while i < transactions.len()
        invariant
            i <= transactions.len(),
            copy.len() == i,
            forall|j: int| 0 <= j < i ==> copy[j]@ == transactions[j]@,
        decreases transactions.len() - i,
    {
        copy.push(transactions[i].clone());
        i = i + 1;
    }
    assert(transaction_views(copy@) =~= transaction_views(transactions@));
    copy
}

impl Clone for Block {
    fn clone(&self) -> (copy: Self)
        ensures
            copy@ == self@,
    {
        Block {
            index: self.index,
            timestamp: self.timestamp,
            parent_hash: self.parent_hash.clone(),
            branch_id: self.branch_id.clone(),
            transactions: clone_transactions(&self.transactions),
            hash: self.hash.clone(),
        }
    }
}

/// The views of a sequence of blocks, in order.
pub open spec fn block_views(blocks: Seq<Block>) -> Seq<BlockView> {
    blocks.map_values(|block: Block| block@)
}

/// Copies a list of blocks.
pub fn clone_blocks(blocks: &Vec<Block>) -> (copy: Vec<Block>)
    ensures
        block_views(copy@) == block_views(blocks@),
{
    let mut copy: Vec<Block> = Vec::new();
    let mut i: usize = 0;
    while i < blocks.len()
        invariant
            i <= blocks.len(),
            copy.len() == i,
            forall|j: int| 0 <= j < i ==> copy[j]@ == blocks[j]@,
        decreases blocks.len() - i,
    {
        copy.push(blocks[i].clone());
        i = i + 1;
    }
    assert(block_views(copy@) =~= block_views(blocks@));
    copy
}

/// Writes out the preimage of a block.
pub fn block_preimage_text(
    index: u64,
    parent_hash: &str,
    branch_id: &str,
    transactions: &Vec<Transaction>,
) -> (text: String)
    ensures
        text@ == block_preimage(index, parent_hash@, branch_id@, transaction_views(transactions@)),
{
    let mut text = to_decimal(index as u128);
    text.append("-");
    text.append(parent_hash);
    text.append("-");
    text.append(branch_id);
    text.append("-");
    text.append("[");
    let ghost head = text@;
    let ghost views = transaction_views(transactions@);
    let mut i: usize = 0;
    while i < transactions.len()
        invariant
            i <= transactions.len(),
            views == transaction_views(transactions@),
            text@ == head + rendered_items(views.subrange(0, i as int)),
        decreases transactions.len() - i,
    {
        proof {
            let done = views.subrange(0, i + 1);
            assert(done.drop_last() =~= views.subrange(0, i as int));
            assert(done.last() == transactions[i as int]@);
            assert(done[0] == views[0]);
        }
        if i > 0 {
            text.append(", ");
        }
        text.append(transactions[i].render().as_str());
        assert(text@ =~= head + rendered_items(views.subrange(0, i + 1)));
        i = i + 1;
    }
    assert(views.subrange(0, i as int) =~= views);
    text.append("]");
    text
}

impl Block {
    /// Builds the block at `index` of the chain `branch_id`, after the block
    /// with hash `parent_hash`, stamped with the current time.
    ///
    /// The timestamp is whatever the clock reads, and is no part of the hash.
    pub fn new(index: u64, parent_hash: &str, branch_id: &str, transactions: Vec<Transaction>) -> (block:
        Self)
        ensures
            block@ == BlockView::assemble(
                index,
                block.timestamp,
                parent_hash@,
                branch_id@,
                transaction_views(transactions@),
            ),
            block@.sealed(),
    {
        Block::with_timestamp(index, parent_hash, branch_id, transactions, now())
    }

    /// Builds the block at `index` of the chain `branch_id`, after the block
    /// with hash `parent_hash`, stamped with `timestamp`.
    pub fn with_timestamp(
        index: u64,
        parent_hash: &str,
        branch_id: &str,
        transactions: Vec<Transaction>,
        timestamp: u128,
    ) -> (block: Self)
        ensures
            block@ == BlockView::assemble(
                index,
                timestamp,
                parent_hash@,
                branch_id@,
                transaction_views(transactions@),
            ),
            block@.sealed(),
    {
        let preimage = block_preimage_text(index, parent_hash, branch_id, &transactions);
        Block {
            index,
            timestamp,
            parent_hash: parent_hash.to_owned(),
            branch_id: branch_id.to_owned(),
            transactions,
            hash: content_hash(preimage.as_str()),
        }
    }

    /// Computes the hash anew from the stored fields.
    pub fn recompute_hash(&self) -> (hash: String)
        ensures
            hash@ == self@.digest(),
            self@.sealed() ==> hash@ == self@.hash,
    {
        let preimage = block_preimage_text(
            self.index,
            self.parent_hash.as_str(),
            self.branch_id.as_str(),
            &self.transactions,
        );
        content_hash(preimage.as_str())
    }
}

} // verus!
