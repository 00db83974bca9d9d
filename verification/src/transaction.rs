//! Transfers, each identified by the content hash of what it records.

use crate::clock::now;
use crate::digest::{content_digest, content_hash};
use crate::text::{decimal, quoted, to_decimal, to_quoted};
use vstd::prelude::*;
use vstd::string::*;

verus! {

/// A transfer of `amount` from `sender` to `receiver`, made at `timestamp`
/// (milliseconds since the Unix epoch) and identified by `tx_id`.
#[derive(Debug)]
pub struct Transaction {
    pub tx_id: String,
    pub sender: String,
    pub receiver: String,
    pub amount: u64,
    pub timestamp: u128,
}

/// What a [`Transaction`] holds, as mathematical values.
pub struct TransactionView {
    pub tx_id: Seq<char>,
    pub sender: Seq<char>,
    pub receiver: Seq<char>,
    pub amount: u64,
    pub timestamp: u128,
}

/// The text that identifies a transfer: sender, receiver, amount and
/// timestamp, the numbers in decimal, joined by hyphens.
pub open spec fn transaction_preimage(
    sender: Seq<char>,
    receiver: Seq<char>,
    amount: u64,
    timestamp: u128,
) -> Seq<char> {
    sender + "-"@ + receiver + "-"@ + decimal(amount as nat) + "-"@ + decimal(timestamp as nat)
}

/// The identifier of a transfer: the content hash of its preimage.
pub open spec fn transaction_id(
    sender: Seq<char>,
    receiver: Seq<char>,
    amount: u64,
    timestamp: u128,
) -> Seq<char> {
    content_digest(transaction_preimage(sender, receiver, amount, timestamp))
}

impl TransactionView {
    /// The record of a transfer, under the identifier that its content gives.
    pub open spec fn record(
        sender: Seq<char>,
        receiver: Seq<char>,
        amount: u64,
        timestamp: u128,
    ) -> TransactionView {
        TransactionView {
            tx_id: transaction_id(sender, receiver, amount, timestamp),
            sender,
            receiver,
            amount,
            timestamp,
        }
    }

    /// The identifier that the stored sender, receiver, amount and timestamp
    /// give.
    pub open spec fn digest(self) -> Seq<char> {
        transaction_id(self.sender, self.receiver, self.amount, self.timestamp)
    }

    /// Whether the stored identifier is the one that the stored fields give.
    pub open spec fn sealed(self) -> bool {
        self.tx_id == self.digest()
    }

    /// The rendering of the record that enters the hash of a block: the
    /// fields by name, texts quoted and numbers in decimal.
    pub open spec fn rendering(self) -> Seq<char> {
        "Transaction { tx_id: "@ + quoted(self.tx_id) + ", sender: "@ + quoted(self.sender)
            + ", receiver: "@ + quoted(self.receiver) + ", amount: "@ + decimal(self.amount as nat)
            + ", timestamp: "@ + decimal(self.timestamp as nat) + " }"@
    }
}

impl View for Transaction {
    type V = TransactionView;

    open spec fn view(&self) -> TransactionView {
        TransactionView {
            tx_id: self.tx_id@,
            sender: self.sender@,
            receiver: self.receiver@,
            amount: self.amount,
            timestamp: self.timestamp,
        }
    }
}

impl Clone for Transaction {
    fn clone(&self) -> (copy: Self)
        ensures
            copy@ == self@,
    {
        Transaction {
            tx_id: self.tx_id.clone(),
            sender: self.sender.clone(),
            receiver: self.receiver.clone(),
            amount: self.amount,
            timestamp: self.timestamp,
        }
    }
}

/// Writes out the preimage of a transfer.
pub fn transaction_preimage_text(sender: &str, receiver: &str, amount: u64, timestamp: u128) -> (text:
    String)
    ensures
        text@ == transaction_preimage(sender@, receiver@, amount, timestamp),
{
    let mut text = sender.to_owned();
    text.append("-");
    text.append(receiver);
    text.append("-");
    text.append(to_decimal(amount as u128).as_str());
    text.append("-");
    text.append(to_decimal(timestamp).as_str());
    text
}

impl Transaction {
    /// Records a transfer made now.
    ///
    /// The timestamp is whatever the clock reads; the identifier is the one
    /// that the content, with that timestamp, gives.
    pub fn new(sender: &str, receiver: &str, amount: u64) -> (tx: Self)
        ensures
            tx@ == TransactionView::record(sender@, receiver@, amount, tx.timestamp),
            tx@.sealed(),
    {
        Transaction::with_timestamp(sender, receiver, amount, now())
    }

    /// Records a transfer made at `timestamp`.
    pub fn with_timestamp(sender: &str, receiver: &str, amount: u64, timestamp: u128) -> (tx: Self)
        ensures
            tx@ == TransactionView::record(sender@, receiver@, amount, timestamp),
            tx@.sealed(),
    {
        let preimage = transaction_preimage_text(sender, receiver, amount, timestamp);
        Transaction {
            tx_id: content_hash(preimage.as_str()),
            sender: sender.to_owned(),
            receiver: receiver.to_owned(),
            amount,
            timestamp,
        }
    }

    /// Computes the identifier anew from the stored fields.
    pub fn recompute_id(&self) -> (id: String)
        ensures
            id@ == self@.digest(),
            self@.sealed() ==> id@ == self@.tx_id,
    {
        let preimage = transaction_preimage_text(
            self.sender.as_str(),
            self.receiver.as_str(),
            self.amount,
            self.timestamp,
        );
        content_hash(preimage.as_str())
    }

    /// Writes out the rendering that enters the hash of a block.
    pub fn render(&self) -> (text: String)
        ensures
            text@ == self@.rendering(),
    {
        let mut text = "Transaction { tx_id: ".to_owned();
        text.append(to_quoted(self.tx_id.as_str()).as_str());
        text.append(", sender: ");
        text.append(to_quoted(self.sender.as_str()).as_str());
        text.append(", receiver: ");
        text.append(to_quoted(self.receiver.as_str()).as_str());
        text.append(", amount: ");
        text.append(to_decimal(self.amount as u128).as_str());
        text.append(", timestamp: ");
        text.append(to_decimal(self.timestamp).as_str());
        text.append(" }");
        text
    }
}

} // verus!
