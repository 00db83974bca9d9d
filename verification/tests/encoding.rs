use branch_ledger::block::{block_preimage_text, Block};
use branch_ledger::digest::content_hash;
use branch_ledger::text::{str_eq, to_decimal, to_lower_hex};
use branch_ledger::transaction::{transaction_preimage_text, Transaction};
use sha2::{Digest, Sha256};

#[test]
fn decimal_of_small_numbers() {
    assert_eq!(to_decimal(0), "0");
    assert_eq!(to_decimal(7), "7");
    assert_eq!(to_decimal(10), "10");
    assert_eq!(to_decimal(120), "120");
    assert_eq!(to_decimal(1_000_000), "1000000");
}

#[test]
fn decimal_of_largest_numbers() {
    assert_eq!(to_decimal(u64::MAX as u128), "18446744073709551615");
    assert_eq!(to_decimal(u128::MAX), "340282366920938463463374607431768211455");
}

#[test]
fn decimal_agrees_with_display() {
    let samples: Vec<u128> = vec![1, 9, 11, 99, 100, 101, 4096, 65_535, 1_700_000_000_000];
    for n in samples {
        assert_eq!(to_decimal(n), format!("{}", n));
    }
}

#[test]
fn hex_of_bytes() {
    assert_eq!(to_lower_hex(&[]), "");
    assert_eq!(to_lower_hex(&[10, 20, 30]), "0a141e");
    assert_eq!(to_lower_hex(&[0x00, 0xff, 0xab, 0x09]), "00ffab09");
}

#[test]
fn hex_has_two_digits_a_byte() {
    let bytes: Vec<u8> = (0..=255).collect();
    let text = to_lower_hex(&bytes);
    assert_eq!(text.len(), 512);
    let mut expected = String::new();
    for b in &bytes {
        expected.push_str(&format!("{:02x}", b));
    }
    assert_eq!(text, expected);
}

#[test]
fn str_eq_tells_equal_from_different() {
    assert!(str_eq("", ""));
    assert!(str_eq("Dept_A", "Dept_A"));
    assert!(!str_eq("Dept_A", "Dept_B"));
    assert!(!str_eq("Dept_A", "Dept_"));
    assert!(!str_eq("", "x"));
    assert!(str_eq("zähler→✓", "zähler→✓"));
    assert!(!str_eq("zähler", "zahler"));
}

#[test]
fn content_hash_of_known_texts() {
    assert_eq!(
        content_hash(""),
        "e3b0c44298fc1c149afbf4c8996fb92427ae41e4649b934ca495991b7852b855"
    );
    assert_eq!(
        content_hash("abc"),
        "ba7816bf8f01cfea414140de5dae2223b00361a396177a9cb410ff61f20015ad"
    );
}

#[test]
fn content_hash_is_sha256_in_hex() {
    let text = "CentralGov-Dept_A-100000-1700000000000";
    assert_eq!(content_hash(text), format!("{:x}", Sha256::digest(text.as_bytes())));
}

#[test]
fn transaction_preimage_joins_fields_with_hyphens() {
    assert_eq!(transaction_preimage_text("a", "b", 5, 7), "a-b-5-7");
    assert_eq!(
        transaction_preimage_text("CentralGov", "Dept_A", 100000, 1_700_000_000_000),
        "CentralGov-Dept_A-100000-1700000000000"
    );
}

#[test]
fn transaction_id_is_hash_of_preimage() {
    let tx = Transaction::with_timestamp("a", "b", 5, 7);
    assert_eq!(tx.sender, "a");
    assert_eq!(tx.receiver, "b");
    assert_eq!(tx.amount, 5);
    assert_eq!(tx.timestamp, 7);
    assert_eq!(tx.tx_id, format!("{:x}", Sha256::digest(b"a-b-5-7")));
    assert_eq!(tx.tx_id.len(), 64);
}

#[test]
fn transaction_id_depends_on_timestamp() {
    let first = Transaction::with_timestamp("a", "b", 5, 7);
    let second = Transaction::with_timestamp("a", "b", 5, 8);
    assert_ne!(first.tx_id, second.tx_id);
}

#[test]
fn transaction_recompute_reproduces_id() {
    let tx = Transaction::with_timestamp("Dept_A", "Vendor_X", 50000, 1_700_000_000_123);
    assert_eq!(tx.recompute_id(), tx.tx_id);
    let now = Transaction::new("Dept_A", "Vendor_X", 50000);
    assert_eq!(now.recompute_id(), now.tx_id);
}

#[test]
fn transaction_recompute_detects_tampering() {
    let mut tx = Transaction::with_timestamp("Dept_A", "Vendor_X", 50000, 1);
    tx.amount = 50001;
    assert_ne!(tx.recompute_id(), tx.tx_id);
}

#[test]
fn transaction_new_reads_the_clock() {
    let tx = Transaction::new("a", "b", 1);
    // After the first of January 2020, and within the range of the clock.
    assert!(tx.timestamp > 1_577_836_800_000);
    assert!(tx.timestamp <= i64::MAX as u128);
}

#[test]
fn transaction_render_is_the_debug_form() {
    let tx = Transaction::with_timestamp("a", "b", 5, 7);
    assert_eq!(
        tx.render(),
        format!(
            "Transaction {{ tx_id: \"{}\", sender: \"a\", receiver: \"b\", amount: 5, timestamp: 7 }}",
            tx.tx_id
        )
    );
    assert_eq!(tx.render(), format!("{:?}", tx));
}

#[test]
fn transaction_render_escapes_quotes() {
    let tx = Transaction::with_timestamp("a\"b", "line\nbreak", 1, 2);
    let text = tx.render();
    assert!(text.contains("sender: \"a\\\"b\""));
    assert!(text.contains("receiver: \"line\\nbreak\""));
    assert_eq!(text, format!("{:?}", tx));
}

#[test]
fn block_preimage_of_empty_block() {
    let none: Vec<Transaction> = Vec::new();
    assert_eq!(block_preimage_text(0, "0", "MAIN", &none), "0-0-MAIN-[]");
}

#[test]
fn block_preimage_lists_transactions() {
    let one = vec![Transaction::with_timestamp("a", "b", 5, 7)];
    assert_eq!(
        block_preimage_text(3, "ff", "MAIN", &one),
        format!("{}-{}-{}-{:?}", 3, "ff", "MAIN", one)
    );
    let two = vec![
        Transaction::with_timestamp("a", "b", 5, 7),
        Transaction::with_timestamp("c", "d", 6, 8),
    ];
    let text = block_preimage_text(4, "ab", "BRANCH-a", &two);
    assert_eq!(text, format!("{}-{}-{}-{:?}", 4, "ab", "BRANCH-a", two));
    assert!(text.contains(" }, Transaction { "));
}

#[test]
fn block_hash_is_hash_of_preimage() {
    let block = Block::with_timestamp(0, "0", "MAIN", Vec::new(), 99);
    assert_eq!(block.index, 0);
    assert_eq!(block.timestamp, 99);
    assert_eq!(block.parent_hash, "0");
    assert_eq!(block.branch_id, "MAIN");
    assert!(block.transactions.is_empty());
    assert_eq!(block.hash, format!("{:x}", Sha256::digest(b"0-0-MAIN-[]")));
}

#[test]
fn block_hash_ignores_timestamp() {
    let early = Block::with_timestamp(1, "aa", "MAIN", Vec::new(), 1);
    let late = Block::with_timestamp(1, "aa", "MAIN", Vec::new(), 2);
    assert_eq!(early.hash, late.hash);
    let other = Block::with_timestamp(2, "aa", "MAIN", Vec::new(), 1);
    assert_ne!(early.hash, other.hash);
}

#[test]
fn block_recompute_reproduces_hash() {
    let txs = vec![Transaction::with_timestamp("a", "b", 5, 7)];
    let block = Block::with_timestamp(1, "aa", "MAIN", txs, 3);
    assert_eq!(block.recompute_hash(), block.hash);
    let stamped = Block::new(2, &block.hash, "MAIN", Vec::new());
    assert_eq!(stamped.recompute_hash(), stamped.hash);
    assert!(stamped.timestamp > 1_577_836_800_000);
}

#[test]
fn block_recompute_detects_tampering() {
    let txs = vec![Transaction::with_timestamp("a", "b", 5, 7)];
    let mut block = Block::with_timestamp(1, "aa", "MAIN", txs, 3);
    block.transactions[0].amount = 6;
    assert_ne!(block.recompute_hash(), block.hash);
}

#[test]
fn block_clone_keeps_every_field() {
    let txs = vec![Transaction::with_timestamp("a", "b", 5, 7)];
    let block = Block::with_timestamp(1, "aa", "MAIN", txs, 3);
    let copy = block.clone();
    assert_eq!(copy.index, block.index);
    assert_eq!(copy.timestamp, block.timestamp);
    assert_eq!(copy.parent_hash, block.parent_hash);
    assert_eq!(copy.branch_id, block.branch_id);
    assert_eq!(copy.hash, block.hash);
    assert_eq!(copy.transactions.len(), 1);
    assert_eq!(copy.transactions[0].tx_id, block.transactions[0].tx_id);
}
