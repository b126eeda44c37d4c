use crypto::digest::Digest;
use crypto::sha2::Sha256;

use plasma::codec::{
    float_encode, AMOUNT_EXPONENT_BIT_WIDTH, AMOUNT_MANTISSA_BIT_WIDTH, FEE_EXPONENT_BIT_WIDTH,
    FEE_MANTISSA_BIT_WIDTH,
};
use plasma::field::{fel_copy, fel_from_u128, fel_zero, fr_add, fr_sub, Fel};
use plasma::prover::{BabyProver, BabyProverErr, Block, Transaction, TxSignature, BATCH_SIZE};
use plasma::tree::{AccountLeaf, BalanceTree};

fn make_leaf(balance: u128, nonce: u128) -> AccountLeaf {
    AccountLeaf {
        balance: fel_from_u128(balance),
        nonce: fel_from_u128(nonce),
        pub_x: fel_from_u128(11),
        pub_y: fel_from_u128(12),
    }
}

fn leaf_clone(l: &AccountLeaf) -> AccountLeaf {
    AccountLeaf {
        balance: fel_copy(&l.balance),
        nonce: fel_copy(&l.nonce),
        pub_x: fel_copy(&l.pub_x),
        pub_y: fel_copy(&l.pub_y),
    }
}

fn make_tx(from: u32, to: u32, amount_m: u64, amount_e: u64, fee_m: u64, fee_e: u64) -> Transaction {
    Transaction {
        from: fel_from_u128(from as u128),
        to: fel_from_u128(to as u128),
        amount: float_encode(amount_m, amount_e, AMOUNT_EXPONENT_BIT_WIDTH,
            AMOUNT_MANTISSA_BIT_WIDTH),
        fee: float_encode(fee_m, fee_e, FEE_EXPONENT_BIT_WIDTH, FEE_MANTISSA_BIT_WIDTH),
        nonce: fel_zero(),
        good_until_block: fel_from_u128(1000),
        signature: TxSignature {
            r_x: fel_from_u128(1),
            r_y: fel_from_u128(2),
            s: fel_from_u128(3),
        },
    }
}

fn snapshot() -> Vec<(u32, AccountLeaf)> {
    vec![(1u32, make_leaf(100_000, 0)), (2u32, make_leaf(50_000, 5))]
}

fn snapshot_root(accounts: &Vec<(u32, AccountLeaf)>) -> Fel {
    let mut tree = BalanceTree::new_tree();
    for (k, l) in accounts.iter() {
        tree.insert(*k, leaf_clone(l));
    }
    tree.root_hash()
}

fn standard_block() -> Block {
    let mut txs = Vec::new();
    for _ in 0..BATCH_SIZE {
        txs.push(make_tx(1, 2, 5, 2, 1, 0));
    }
    Block { block_number: 7, transactions: txs }
}

fn make_prover() -> BabyProver {
    let accounts = snapshot();
    let root = snapshot_root(&accounts);
    BabyProver::new(&accounts, &root).unwrap()
}

#[test]
fn construction_succeeds_on_matching_root() {
    let accounts = snapshot();
    let root = snapshot_root(&accounts);
    assert!(BabyProver::new(&accounts, &root).is_ok());
}

#[test]
fn construction_fails_on_wrong_root() {
    let accounts = snapshot();
    let bad_root = fel_from_u128(99);
    let r = BabyProver::new(&accounts, &bad_root);
    assert!(matches!(r, Err(BabyProverErr::Unknown)));
}

#[test]
fn construction_fails_on_perturbed_leaf() {
    let accounts = snapshot();
    let root = snapshot_root(&accounts);
    let mut perturbed = snapshot();
    perturbed[1].1.balance = fel_from_u128(50_001);
    let r = BabyProver::new(&perturbed, &root);
    assert!(matches!(r, Err(BabyProverErr::Unknown)));
}

#[test]
fn empty_tree_root_is_deterministic() {
    let a = BalanceTree::new_tree();
    let b = BalanceTree::new_tree();
    assert_eq!(a.root_hash().b, b.root_hash().b);
}

#[test]
fn insert_changes_root() {
    let mut t = BalanceTree::new_tree();
    let before = t.root_hash();
    t.insert(1, make_leaf(10, 0));
    let after = t.root_hash();
    assert_ne!(before.b, after.b);
}

#[test]
fn batch_arity_is_enforced_before_mutation() {
    let mut p = make_prover();
    let before = p.accounts_tree.root_hash();
    let block = Block { block_number: 7, transactions: vec![make_tx(1, 2, 5, 2, 1, 0)] };
    let r = p.apply_block(&block);
    assert!(matches!(r, Err(BabyProverErr::Unknown)));
    assert_eq!(p.accounts_tree.root_hash().b, before.b);
}

#[test]
fn missing_sender_is_rejected() {
    let mut p = make_prover();
    let mut block = standard_block();
    block.transactions[0] = make_tx(5, 2, 5, 2, 1, 0);
    let r = p.apply_block(&block);
    assert!(matches!(r, Err(BabyProverErr::InvalidSender)));
}

#[test]
fn malformed_amount_is_rejected() {
    let mut p = make_prover();
    let mut block = standard_block();
    block.transactions[0].amount = fel_from_u128(1 << 20);
    let r = p.apply_block(&block);
    assert!(matches!(r, Err(BabyProverErr::InvalidAmountEncoding)));
}

#[test]
fn apply_block_updates_balances_and_fees() {
    let mut p = make_prover();
    let block = standard_block();
    let art = p.apply_block(&block).unwrap();
    // 128 transfers of 500 with fee 1 each.
    assert_eq!(art.total_fee.b, fel_from_u128(128).b);
    let sender = p.accounts_tree.lookup(1).unwrap();
    assert_eq!(sender.balance.b, fel_from_u128(100_000 - 128 * 501).b);
    assert_eq!(sender.nonce.b, fel_from_u128(128).b);
    let recipient = p.accounts_tree.lookup(2).unwrap();
    assert_eq!(recipient.balance.b, fel_from_u128(50_000 + 128 * 500).b);
    assert_eq!(recipient.nonce.b, fel_from_u128(5).b);
    assert_eq!(art.witnesses.len(), BATCH_SIZE);
    assert_eq!(art.new_root.b, p.accounts_tree.root_hash().b);
    assert_ne!(art.old_root.b, art.new_root.b);
}

#[test]
fn witness_of_second_tx_sees_state_after_first() {
    let mut p = make_prover();
    let block = standard_block();
    let art = p.apply_block(&block).unwrap();
    // Rebuild the state tx0 leaves behind, by hand.
    let mut t = BalanceTree::new_tree();
    let accounts = snapshot();
    for (k, l) in accounts.iter() {
        t.insert(*k, leaf_clone(l));
    }
    let amount = fel_from_u128(500);
    let fee = fel_from_u128(1);
    let one = fel_from_u128(1);
    let s0 = leaf_clone(t.lookup(1).unwrap());
    let r0 = leaf_clone(t.lookup(2).unwrap());
    let s1 = AccountLeaf {
        balance: fr_sub(&fr_sub(&s0.balance, &amount), &fee),
        nonce: fr_add(&s0.nonce, &one),
        pub_x: s0.pub_x,
        pub_y: s0.pub_y,
    };
    let r1 = AccountLeaf {
        balance: fr_add(&r0.balance, &amount),
        nonce: r0.nonce,
        pub_x: r0.pub_x,
        pub_y: r0.pub_y,
    };
    t.insert(1, s1);
    t.insert(2, r1);
    let expected_path = t.merkle_path(1);
    let w1 = &art.witnesses[1].1;
    assert_eq!(expected_path.len(), w1.auth_path_from.len());
    for (a, b) in expected_path.iter().zip(w1.auth_path_from.iter()) {
        assert_eq!(a.0.b, b.0.b);
        assert_eq!(a.1, b.1);
    }
    // The batch's very first witness sees the untouched state instead:
    // its level-1 sibling covers the recipient, which tx0 changed.
    let w0 = &art.witnesses[0].1;
    assert_ne!(
        expected_path[1].0.b,
        w0.auth_path_from[1].0.b,
        "tx0's path must predate tx0's own update"
    );
}

#[test]
fn commitment_is_deterministic() {
    let mut p1 = make_prover();
    let mut p2 = make_prover();
    let a1 = p1.apply_block(&standard_block()).unwrap();
    let a2 = p2.apply_block(&standard_block()).unwrap();
    assert_eq!(a1.public_data_commitment.b, a2.public_data_commitment.b);
}

#[test]
fn commitment_changes_with_any_transaction() {
    let mut p1 = make_prover();
    let mut p2 = make_prover();
    let a1 = p1.apply_block(&standard_block()).unwrap();
    let mut other = standard_block();
    other.transactions[127] = make_tx(1, 2, 6, 2, 1, 0);
    let a2 = p2.apply_block(&other).unwrap();
    assert_ne!(a1.public_data_commitment.b, a2.public_data_commitment.b);
}

#[test]
fn encode_transactions_layout() {
    let block = standard_block();
    let bytes = BabyProver::encode_transactions(&block).unwrap();
    assert_eq!(bytes.len(), BATCH_SIZE * 9);
    // from = 1 (24 bits), to = 2 (24 bits), amount window = 2 << 11 | 5,
    // fee window = 1.
    assert_eq!(&bytes[0..9], &[0, 0, 1, 0, 0, 2, 0x10, 0x05, 0x01]);
}

#[test]
fn commitment_matches_independent_recomputation() {
    let mut p = make_prover();
    let block = standard_block();
    let art = p.apply_block(&block).unwrap();
    let tx_bytes = BabyProver::encode_transactions(&block).unwrap();
    let mut header = vec![0u8; 64];
    header[31] = 7; // block number, big-endian
    header[62] = 0; // total fee = 128, big-endian
    header[63] = 128;
    let mut h = Sha256::new();
    h.input(&header);
    let mut h1 = [0u8; 32];
    h.result(&mut h1);
    let mut second = Vec::new();
    second.extend_from_slice(&h1);
    second.extend_from_slice(&tx_bytes);
    let mut h = Sha256::new();
    h.input(&second);
    let mut h2 = [0u8; 32];
    h.result(&mut h2);
    h2[0] &= 0x1f;
    assert_eq!(art.public_data_commitment.b, h2.to_vec());
}

#[test]
fn error_descriptions() {
    assert_eq!(BabyProverErr::Unknown.description(), "Unknown error");
    assert_eq!(
        BabyProverErr::InvalidAmountEncoding.description(),
        "transfer amount is malformed or too large"
    );
    assert_eq!(
        BabyProverErr::InvalidFeeEncoding.description(),
        "transfer fee is malformed or too large"
    );
    assert_eq!(BabyProverErr::InvalidSender.description(), "sender account is unknown");
    assert_eq!(BabyProverErr::InvalidRecipient.description(), "recipient account is unknown");
    assert_eq!(BabyProverErr::IoError.description(), "encountered an I/O error");
}

#[test]
fn value_is_conserved_across_the_batch() {
    let mut p = make_prover();
    let art = p.apply_block(&standard_block()).unwrap();
    // Balances start at 100_000 and 50_000; deltas plus fees cancel.
    let sender = p.accounts_tree.lookup(1).unwrap();
    let recipient = p.accounts_tree.lookup(2).unwrap();
    assert_eq!(sender.balance.b, fel_from_u128(35_872).b);
    assert_eq!(recipient.balance.b, fel_from_u128(114_000).b);
    let delta_sum: i128 = (35_872 - 100_000) + (114_000 - 50_000);
    assert_eq!(delta_sum + 128, 0);
    assert_eq!(art.total_fee.b, fel_from_u128(128).b);
}

#[test]
fn self_transfer_keeps_the_recipient_write() {
    // When sender and recipient coincide, the recipient's credited leaf
    // is written last and wins: the balance only grows and the nonce
    // stays, though the fee still enters the total.
    let mut p = make_prover();
    let mut txs = Vec::new();
    for _ in 0..BATCH_SIZE {
        txs.push(make_tx(1, 1, 5, 2, 1, 0));
    }
    let block = Block { block_number: 9, transactions: txs };
    let art = p.apply_block(&block).unwrap();
    let leaf = p.accounts_tree.lookup(1).unwrap();
    assert_eq!(leaf.balance.b, fel_from_u128(100_000 + 128 * 500).b);
    assert_eq!(leaf.nonce.b, fel_zero().b);
    assert_eq!(art.total_fee.b, fel_from_u128(128).b);
}
