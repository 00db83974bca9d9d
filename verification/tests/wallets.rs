use branch_ledger::digest::content_hash;
use branch_ledger::wallet::{Wallet, WalletError, WalletManager};

#[test]
fn wallet_new_holds_initial_balance() {
    let wallet = Wallet::new("Dept_A", None, 42);
    assert_eq!(wallet.address, "Dept_A");
    assert_eq!(wallet.address(), "Dept_A");
    assert_eq!(wallet.check_balance(), 42);
    assert_eq!(wallet.get_pass(), None);
}

#[test]
fn wallet_keeps_digest_of_secret() {
    let wallet = Wallet::new("Dept_A", Some("s3cret"), 0);
    assert_eq!(wallet.get_pass(), Some(content_hash("s3cret")));
    assert_ne!(wallet.get_pass(), Some("s3cret".to_string()));
}

#[test]
fn wallet_authenticate_with_credential() {
    let wallet = Wallet::new("Dept_A", Some("s3cret"), 0);
    assert!(wallet.authenticate(Some("s3cret")));
    assert!(!wallet.authenticate(Some("s3cre")));
    assert!(!wallet.authenticate(Some("")));
    assert!(!wallet.authenticate(None));
}

#[test]
fn wallet_authenticate_without_credential() {
    let wallet = Wallet::new("Dept_A", None, 0);
    assert!(wallet.authenticate(None));
    assert!(wallet.authenticate(Some("anything")));
}

#[test]
fn wallet_send_funds_debits() {
    let mut wallet = Wallet::new("a", None, 10);
    assert!(wallet.send_funds(4));
    assert_eq!(wallet.check_balance(), 6);
    assert!(wallet.send_funds(6));
    assert_eq!(wallet.check_balance(), 0);
}

#[test]
fn wallet_send_funds_refuses_overdraft() {
    let mut wallet = Wallet::new("a", None, 10);
    assert!(!wallet.send_funds(11));
    assert_eq!(wallet.check_balance(), 10);
}

#[test]
fn wallet_receive_funds_credits() {
    let mut wallet = Wallet::new("a", None, 10);
    wallet.receive_funds(5);
    assert_eq!(wallet.check_balance(), 15);
    wallet.receive_funds(u64::MAX - 15);
    assert_eq!(wallet.check_balance(), u64::MAX);
}

#[test]
fn wallet_clone_keeps_every_field() {
    let wallet = Wallet::new("a", Some("pw"), 10);
    let copy = wallet.clone();
    assert_eq!(copy.address, "a");
    assert_eq!(copy.check_balance(), 10);
    assert_eq!(copy.get_pass(), wallet.get_pass());
}

#[test]
fn manager_starts_empty() {
    let manager = WalletManager::new();
    assert_eq!(manager.total_supply(), 0);
    assert!(manager.addresses().is_empty());
    assert!(!manager.has_wallet("a"));
}

#[test]
fn manager_create_wallet_inserts() {
    let mut manager = WalletManager::new();
    assert_eq!(manager.create_wallet("a", None, 7), Ok(()));
    assert!(manager.has_wallet("a"));
    assert_eq!(manager.get_balance("a", None), Ok(7));
    assert_eq!(manager.total_supply(), 7);
    assert_eq!(manager.addresses(), vec!["a".to_string()]);
}

#[test]
fn manager_create_wallet_rejects_duplicate() {
    let mut manager = WalletManager::new();
    assert_eq!(manager.create_wallet("a", None, 7), Ok(()));
    assert_eq!(manager.create_wallet("a", Some("pw"), 9), Err(WalletError::WalletAlreadyExists));
    assert_eq!(manager.get_balance("a", None), Ok(7));
    assert_eq!(manager.total_supply(), 7);
    assert_eq!(manager.addresses().len(), 1);
}

#[test]
fn manager_create_wallet_rejects_supply_overflow() {
    let mut manager = WalletManager::new();
    assert_eq!(manager.create_wallet("a", None, u64::MAX), Ok(()));
    assert_eq!(manager.create_wallet("b", None, 1), Err(WalletError::SupplyOverflow));
    assert!(!manager.has_wallet("b"));
    assert_eq!(manager.create_wallet("b", None, 0), Ok(()));
    assert_eq!(manager.total_supply(), u64::MAX);
}

#[test]
fn manager_send_funds_moves_amount() {
    let mut manager = WalletManager::new();
    manager.create_wallet("a", None, 100).unwrap();
    manager.create_wallet("b", None, 5).unwrap();
    assert_eq!(manager.send_funds("a", "b", 30), Ok(()));
    assert_eq!(manager.get_balance("a", None), Ok(70));
    assert_eq!(manager.get_balance("b", None), Ok(35));
}

#[test]
fn manager_send_funds_unknown_wallet() {
    let mut manager = WalletManager::new();
    manager.create_wallet("a", None, 100).unwrap();
    assert_eq!(manager.send_funds("a", "nobody", 1), Err(WalletError::UnknownWallet));
    assert_eq!(manager.send_funds("nobody", "a", 1), Err(WalletError::UnknownWallet));
    assert_eq!(manager.send_funds("nobody", "nobody", 0), Err(WalletError::UnknownWallet));
    assert_eq!(manager.get_balance("a", None), Ok(100));
}

#[test]
fn manager_send_funds_insufficient_funds() {
    let mut manager = WalletManager::new();
    manager.create_wallet("a", None, 100).unwrap();
    manager.create_wallet("b", None, 5).unwrap();
    assert_eq!(manager.send_funds("a", "b", 101), Err(WalletError::InsufficientFunds));
    assert_eq!(manager.get_balance("a", None), Ok(100));
    assert_eq!(manager.get_balance("b", None), Ok(5));
    assert_eq!(manager.send_funds("a", "b", 100), Ok(()));
    assert_eq!(manager.get_balance("a", None), Ok(0));
}

#[test]
fn manager_send_funds_to_self_changes_nothing() {
    let mut manager = WalletManager::new();
    manager.create_wallet("a", None, 100).unwrap();
    assert_eq!(manager.send_funds("a", "a", 40), Ok(()));
    assert_eq!(manager.get_balance("a", None), Ok(100));
    assert_eq!(manager.send_funds("a", "a", 101), Err(WalletError::InsufficientFunds));
    assert_eq!(manager.total_supply(), 100);
}

#[test]
fn manager_send_funds_at_the_limit() {
    let mut manager = WalletManager::new();
    manager.create_wallet("a", None, u64::MAX - 1).unwrap();
    manager.create_wallet("b", None, 1).unwrap();
    assert_eq!(manager.send_funds("a", "b", u64::MAX - 1), Ok(()));
    assert_eq!(manager.get_balance("b", None), Ok(u64::MAX));
    assert_eq!(manager.get_balance("a", None), Ok(0));
}

#[test]
fn manager_conserves_total_over_transfers() {
    let mut manager = WalletManager::new();
    manager.create_wallet("a", None, 1000).unwrap();
    manager.create_wallet("b", None, 200).unwrap();
    manager.create_wallet("c", None, 0).unwrap();
    assert_eq!(manager.total_supply(), 1200);
    let steps: Vec<(&str, &str, u64)> = vec![
        ("a", "b", 300),
        ("b", "c", 450),
        ("c", "a", 1),
        ("c", "b", 1000),
        ("a", "zz", 5),
        ("b", "b", 50),
        ("a", "c", 701),
    ];
    for (sender, receiver, amount) in steps {
        let _ = manager.send_funds(sender, receiver, amount);
        let sum = manager.get_balance("a", None).unwrap()
            + manager.get_balance("b", None).unwrap()
            + manager.get_balance("c", None).unwrap();
        assert_eq!(sum, 1200);
        assert_eq!(manager.total_supply(), 1200);
    }
    assert_eq!(manager.get_balance("a", None), Ok(0));
    assert_eq!(manager.get_balance("b", None), Ok(50));
    assert_eq!(manager.get_balance("c", None), Ok(1150));
}

#[test]
fn manager_get_balance_errors() {
    let mut manager = WalletManager::new();
    manager.create_wallet("a", Some("pw"), 10).unwrap();
    assert_eq!(manager.get_balance("b", None), Err(WalletError::UnknownWallet));
    assert_eq!(manager.get_balance("b", Some("pw")), Err(WalletError::UnknownWallet));
    assert_eq!(manager.get_balance("a", None), Err(WalletError::AuthenticationFailed));
    assert_eq!(manager.get_balance("a", Some("no")), Err(WalletError::AuthenticationFailed));
    assert_eq!(manager.get_balance("a", Some("pw")), Ok(10));
}

#[test]
fn manager_get_wallet_checks_credential() {
    let mut manager = WalletManager::new();
    manager.create_wallet("a", Some("pw"), 10).unwrap();
    manager.create_wallet("open", None, 3).unwrap();
    assert!(manager.get_wallet("a", Some("no")).is_none());
    assert!(manager.get_wallet("a", None).is_none());
    assert!(manager.get_wallet("b", Some("pw")).is_none());
    let wallet = manager.get_wallet("a", Some("pw")).unwrap();
    assert_eq!(wallet.address, "a");
    assert_eq!(wallet.check_balance(), 10);
    let open = manager.get_wallet("open", None).unwrap();
    assert_eq!(open.check_balance(), 3);
}

#[test]
fn manager_addresses_in_order_of_creation() {
    let mut manager = WalletManager::new();
    manager.create_wallet("c", None, 1).unwrap();
    manager.create_wallet("a", None, 2).unwrap();
    manager.create_wallet("b", None, 3).unwrap();
    assert_eq!(
        manager.addresses(),
        vec!["c".to_string(), "a".to_string(), "b".to_string()]
    );
}
