//! The batch prover: state mirroring, transaction replay and the data a
//! proving circuit consumes.
//!
//! `BabyProver::new` mirrors an authoritative account snapshot into the
//! balance tree and refuses to proceed unless the recomputed root equals
//! the supplied one.  `apply_block` replays a fixed-size batch strictly
//! in order: each transaction's witness pairs the authentication paths
//! and leaf values of the state left by all earlier transactions in the
//! batch, and the batch yields the new root, the accumulated fee and the
//! public-data commitment.  Proof creation and self-verification over
//! these artifacts are the proving system's job, outside this crate.

use vstd::prelude::*;

verus! {

use vstd::arithmetic::div_mod::{lemma_fundamental_div_mod, lemma_mod_multiples_vanish,
    lemma_small_mod};
use crate::bewords::{be_value, lemma_be_value_bound, lemma_pow256_values, lemma_be_bytes_canon};
use crate::field::{Fel, fel_v, fel_wf, fr_modulus, fr_add, fr_sub, fel_from_u128, fel_zero,
    fel_copy, fel_eq, field_element_to_u32};
use crate::codec::{float_decode, float_decode_v, AMOUNT_EXPONENT_BIT_WIDTH,
    AMOUNT_MANTISSA_BIT_WIDTH, FEE_EXPONENT_BIT_WIDTH, FEE_MANTISSA_BIT_WIDTH};
use crate::tree::{AccountLeaf, BalanceTree, LeafVals, leaf_v, leaf_wf, leaf_copy, root_v,
    path_ok, TREE_CAPACITY};
use crate::commit::{commitment_v, public_data_commitment};

/// Number of transactions a batch must hold: the circuit's arity.
pub const BATCH_SIZE: usize = 128;

/// The terminal failures of a batch.
#[derive(Clone, Copy, PartialEq, Eq, Structural, Debug)]
pub enum BabyProverErr {
    /// An internal invariant broke: root mismatch at construction, a
    /// batch of the wrong size, or a proving-system failure.
    Unknown,
    /// A transaction's packed amount (or fee) does not decode.
    InvalidAmountEncoding,
    /// Reserved for a fee that does not decode, where a caller wants it
    /// told apart from a bad amount.
    InvalidFeeEncoding,
    /// The sender or the recipient index is not in the tree.
    InvalidSender,
    /// Reserved for a missing recipient, where a caller wants it told
    /// apart from a missing sender.
    InvalidRecipient,
    /// Reading the proving parameters failed.
    IoError,
}

impl BabyProverErr {
    /// A short, fixed description of the failure.
    pub fn description(&self) -> (r: &'static str)
        ensures
            *self is Unknown ==> r@ == "Unknown error"@,
            *self is InvalidAmountEncoding ==> r@ == "transfer amount is malformed or too large"@,
            *self is InvalidFeeEncoding ==> r@ == "transfer fee is malformed or too large"@,
            *self is InvalidSender ==> r@ == "sender account is unknown"@,
            *self is InvalidRecipient ==> r@ == "recipient account is unknown"@,
            *self is IoError ==> r@ == "encountered an I/O error"@,
    {
        match self {
            BabyProverErr::Unknown => "Unknown error",
            BabyProverErr::InvalidAmountEncoding => "transfer amount is malformed or too large",
            BabyProverErr::InvalidFeeEncoding => "transfer fee is malformed or too large",
            BabyProverErr::InvalidSender => "sender account is unknown",
            BabyProverErr::InvalidRecipient => "recipient account is unknown",
            BabyProverErr::IoError => "encountered an I/O error",
        }
    }
}

/// A transfer's signature, carried through to the witness unread.
pub struct TxSignature {
    pub r_x: Fel,
    pub r_y: Fel,
    pub s: Fel,
}

/// One transfer: sender and recipient indices embedded in field
/// elements, packed amount and fee, and replay-protection fields.
pub struct Transaction {
    pub from: Fel,
    pub to: Fel,
    pub amount: Fel,
    pub fee: Fel,
    pub nonce: Fel,
    pub good_until_block: Fel,
    pub signature: TxSignature,
}

pub open spec fn tx_wf(tx: Transaction) -> bool {
    &&& fel_wf(tx.from)
    &&& fel_wf(tx.to)
    &&& fel_wf(tx.amount)
    &&& fel_wf(tx.fee)
    &&& fel_wf(tx.nonce)
    &&& fel_wf(tx.good_until_block)
    &&& fel_wf(tx.signature.r_x)
    &&& fel_wf(tx.signature.r_y)
    &&& fel_wf(tx.signature.s)
}

/// Two transactions with the same field values.
pub open spec fn tx_matches(a: Transaction, b: Transaction) -> bool {
    &&& a.from.b@ == b.from.b@
    &&& a.to.b@ == b.to.b@
    &&& a.amount.b@ == b.amount.b@
    &&& a.fee.b@ == b.fee.b@
    &&& a.nonce.b@ == b.nonce.b@
    &&& a.good_until_block.b@ == b.good_until_block.b@
    &&& a.signature.r_x.b@ == b.signature.r_x.b@
    &&& a.signature.r_y.b@ == b.signature.r_y.b@
    &&& a.signature.s.b@ == b.signature.s.b@
}

/// A batch: its number and its ordered transfers.
pub struct Block {
    pub block_number: u32,
    pub transactions: Vec<Transaction>,
}

/// What the circuit needs per transaction: the authentication paths at
/// the pre-update state, and the pre-update leaf values of both parties.
pub struct TransactionWitness {
    pub auth_path_from: Vec<(Fel, bool)>,
    pub balance_from: Fel,
    pub nonce_from: Fel,
    pub pub_x_from: Fel,
    pub pub_y_from: Fel,
    pub auth_path_to: Vec<(Fel, bool)>,
    pub balance_to: Fel,
    pub nonce_to: Fel,
    pub pub_x_to: Fel,
    pub pub_y_to: Fel,
}

/// Everything a batch yields for the proving system: both roots, the
/// commitment, the block number and total fee as field elements, and the
/// ordered witnesses.
pub struct ProverArtifacts {
    pub old_root: Fel,
    pub new_root: Fel,
    pub public_data_commitment: Fel,
    pub block_number: Fel,
    pub total_fee: Fel,
    pub witnesses: Vec<(Transaction, TransactionWitness)>,
}

/// The account index in the low 32 bits of a field element.
pub open spec fn idx_of(f: Fel) -> u32 {
    be_value(f.b@.skip(28)) as u32
}

pub open spec fn amount_of(tx: Transaction) -> Option<nat> {
    float_decode_v(fel_v(tx.amount), AMOUNT_EXPONENT_BIT_WIDTH as nat,
        AMOUNT_MANTISSA_BIT_WIDTH as nat)
}

pub open spec fn fee_of(tx: Transaction) -> Option<nat> {
    float_decode_v(fel_v(tx.fee), FEE_EXPONENT_BIT_WIDTH as nat, FEE_MANTISSA_BIT_WIDTH as nat)
}

/// Why a transaction is rejected against a state, if it is.
pub open spec fn tx_err_v(m: Map<u32, LeafVals>, tx: Transaction) -> Option<BabyProverErr> {
    if !m.contains_key(idx_of(tx.from)) || !m.contains_key(idx_of(tx.to)) {
        Some(BabyProverErr::InvalidSender)
    } else if amount_of(tx) is None || fee_of(tx) is None {
        Some(BabyProverErr::InvalidAmountEncoding)
    } else {
        None
    }
}

/// Addition in the scalar field.
pub open spec fn add_v(a: nat, b: nat) -> nat {
    (a + b) % fr_modulus()
}

/// Subtraction in the scalar field, for operands below the order.
pub open spec fn sub_v(a: nat, b: nat) -> nat {
    (((a + fr_modulus() - b)) % (fr_modulus() as int)) as nat
}

/// The state a transaction leaves behind: `amount + fee` out of the
/// sender, whose nonce rises by one; `amount` into the recipient.  The
/// recipient's leaf is written last, from its pre-update value.
pub open spec fn tx_apply_v(m: Map<u32, LeafVals>, tx: Transaction) -> Map<u32, LeafVals> {
    let sk = idx_of(tx.from);
    let rk = idx_of(tx.to);
    let a = amount_of(tx).unwrap();
    let fe = fee_of(tx).unwrap();
    let s = m[sk];
    let r0 = m[rk];
    let s1 = (sub_v(sub_v(s.0, a), fe), add_v(s.1, 1), s.2, s.3);
    let r1 = (add_v(r0.0, a), r0.1, r0.2, r0.3);
    m.insert(sk, s1).insert(rk, r1)
}

/// The state after the first `i` transactions of a batch.
pub open spec fn apply_upto(m: Map<u32, LeafVals>, txs: Seq<Transaction>, i: int) -> Map<
    u32,
    LeafVals,
>
    decreases i,
{
    if i <= 0 {
        m
    } else {
        tx_apply_v(apply_upto(m, txs, i - 1), txs[i - 1])
    }
}

/// The first `i` transactions all apply without error.
pub open spec fn ok_upto(m: Map<u32, LeafVals>, txs: Seq<Transaction>, i: int) -> bool {
    forall|j: int| 0 <= j < i ==> tx_err_v(apply_upto(m, txs, j), #[trigger] txs[j]) is None
}

/// The decoded fees of the first `i` transactions, summed in the field.
pub open spec fn fee_sum(txs: Seq<Transaction>, i: int) -> nat
    decreases i,
{
    if i <= 0 {
        0
    } else {
        add_v(
            fee_sum(txs, i - 1),
            if fee_of(txs[i - 1]) is Some {
                fee_of(txs[i - 1]).unwrap()
            } else {
                0
            },
        )
    }
}

/// One transaction's public data: the low 24 bits of the sender and
/// recipient indices, the 16-bit packed amount and the 8-bit packed fee,
/// big-endian — nine bytes.
pub open spec fn tx_public_bytes_v(tx: Transaction) -> Seq<u8> {
    tx.from.b@.skip(29) + tx.to.b@.skip(29) + tx.amount.b@.skip(30) + tx.fee.b@.skip(31)
}

/// The packed public data of the first `i` transactions, in order.
pub open spec fn txdata_v(txs: Seq<Transaction>, i: int) -> Seq<u8>
    decreases i,
{
    if i <= 0 {
        Seq::<u8>::empty()
    } else {
        txdata_v(txs, i - 1) + tx_public_bytes_v(txs[i - 1])
    }
}

/// A witness is correct against a state: both authentication paths are
/// the state's, and the leaf fields are the state's pre-update values.
pub open spec fn witness_ok(w: TransactionWitness, m: Map<u32, LeafVals>, tx: Transaction) -> bool {
    let sk = idx_of(tx.from);
    let rk = idx_of(tx.to);
    &&& m.contains_key(sk)
    &&& m.contains_key(rk)
    &&& path_ok(w.auth_path_from@, m, sk as nat)
    &&& path_ok(w.auth_path_to@, m, rk as nat)
    &&& fel_v(w.balance_from) == m[sk].0
    &&& fel_v(w.nonce_from) == m[sk].1
    &&& fel_v(w.pub_x_from) == m[sk].2
    &&& fel_v(w.pub_y_from) == m[sk].3
    &&& fel_v(w.balance_to) == m[rk].0
    &&& fel_v(w.nonce_to) == m[rk].1
    &&& fel_v(w.pub_x_to) == m[rk].2
    &&& fel_v(w.pub_y_to) == m[rk].3
}

/// The state built from an account snapshot, later pairs overwriting
/// earlier ones.
pub open spec fn snapshot_map(s: Seq<(u32, AccountLeaf)>, i: int) -> Map<u32, LeafVals>
    decreases i,
{
    if i <= 0 {
        Map::<u32, LeafVals>::empty()
    } else {
        snapshot_map(s, i - 1).insert(s[i - 1].0, leaf_v(s[i - 1].1))
    }
}

/// A by-value copy of a transaction.
pub fn tx_copy(tx: &Transaction) -> (r: Transaction)
    ensures
        tx_matches(r, *tx),
{
    Transaction {
        from: fel_copy(&tx.from),
        to: fel_copy(&tx.to),
        amount: fel_copy(&tx.amount),
        fee: fel_copy(&tx.fee),
        nonce: fel_copy(&tx.nonce),
        good_until_block: fel_copy(&tx.good_until_block),
        signature: TxSignature {
            r_x: fel_copy(&tx.signature.r_x),
            r_y: fel_copy(&tx.signature.r_y),
            s: fel_copy(&tx.signature.s),
        },
    }
}


/// Apply one transaction to the tree: validate, capture both
/// authentication paths at the pre-update state, debit the sender,
/// credit the recipient, and hand back the witness and the decoded fee.
#[verifier::rlimit(100)]
fn apply_one(tree: &mut BalanceTree, tx: &Transaction) -> (r: Result<
    (TransactionWitness, Fel),
    BabyProverErr,
>)
    requires
        old(tree).wf(),
        tx_wf(*tx),
    ensures
        final(tree).wf(),
        match r {
            Ok(pair) => {
                &&& tx_err_v(old(tree).model(), *tx) is None
                &&& final(tree).model() == tx_apply_v(old(tree).model(), *tx)
                &&& witness_ok(pair.0, old(tree).model(), *tx)
                &&& fel_wf(pair.1)
                &&& fel_v(pair.1) == fee_of(*tx).unwrap()
            },
            Err(e) => {
                &&& tx_err_v(old(tree).model(), *tx) == Some(e)
                &&& final(tree).model() == old(tree).model()
            },
        },
{
    let ghost mi = tree.model();
    let sender_leaf_number = field_element_to_u32(&tx.from);
    let recipient_leaf_number = field_element_to_u32(&tx.to);
    proof {
        lemma_be_value_bound(tx.from.b@.skip(28));
        lemma_be_value_bound(tx.to.b@.skip(28));
        lemma_pow256_values();
        assert(sender_leaf_number == idx_of(tx.from));
        assert(recipient_leaf_number == idx_of(tx.to));
    }
    let sender_leaf = match tree.lookup(sender_leaf_number) {
        Some(l) => leaf_copy(l),
        None => {
            return Err(BabyProverErr::InvalidSender);
        },
    };
    let recipient_leaf = match tree.lookup(recipient_leaf_number) {
        Some(l) => leaf_copy(l),
        None => {
            return Err(BabyProverErr::InvalidSender);
        },
    };
    let amount128: u128 = match float_decode(
        &tx.amount,
        AMOUNT_EXPONENT_BIT_WIDTH,
        AMOUNT_MANTISSA_BIT_WIDTH,
    ) {
        Some(a) => a,
        None => {
            return Err(BabyProverErr::InvalidAmountEncoding);
        },
    };
    let fee128: u128 = match float_decode(&tx.fee, FEE_EXPONENT_BIT_WIDTH, FEE_MANTISSA_BIT_WIDTH) {
        Some(f) => f,
        None => {
            return Err(BabyProverErr::InvalidAmountEncoding);
        },
    };
    let amount_fe = fel_from_u128(amount128);
    let fee_fe = fel_from_u128(fee128);
    let path_from = tree.merkle_path(sender_leaf_number);
    let path_to = tree.merkle_path(recipient_leaf_number);
    let one = fel_from_u128(1);
    let updated_sender = AccountLeaf {
        balance: fr_sub(&fr_sub(&sender_leaf.balance, &amount_fe), &fee_fe),
        nonce: fr_add(&sender_leaf.nonce, &one),
        pub_x: fel_copy(&sender_leaf.pub_x),
        pub_y: fel_copy(&sender_leaf.pub_y),
    };
    let updated_recipient = AccountLeaf {
        balance: fr_add(&recipient_leaf.balance, &amount_fe),
        nonce: fel_copy(&recipient_leaf.nonce),
        pub_x: fel_copy(&recipient_leaf.pub_x),
        pub_y: fel_copy(&recipient_leaf.pub_y),
    };
    tree.insert(sender_leaf_number, updated_sender);
    tree.insert(recipient_leaf_number, updated_recipient);
    let witness = TransactionWitness {
        auth_path_from: path_from,
        balance_from: fel_copy(&sender_leaf.balance),
        nonce_from: fel_copy(&sender_leaf.nonce),
        pub_x_from: fel_copy(&sender_leaf.pub_x),
        pub_y_from: fel_copy(&sender_leaf.pub_y),
        auth_path_to: path_to,
        balance_to: fel_copy(&recipient_leaf.balance),
        nonce_to: fel_copy(&recipient_leaf.nonce),
        pub_x_to: fel_copy(&recipient_leaf.pub_x),
        pub_y_to: fel_copy(&recipient_leaf.pub_y),
    };
    proof {
        assert(tx_err_v(mi, *tx) is None);
        assert(tree.model() =~= tx_apply_v(mi, *tx));
    }
    Ok((witness, fee_fe))
}

/// The prover: its configured batch size and the mirrored tree.
pub struct BabyProver {
    pub batch_size: usize,
    pub accounts_tree: BalanceTree,
}

impl BabyProver {
    pub open spec fn wf(&self) -> bool {
        &&& self.accounts_tree.wf()
        &&& self.batch_size == BATCH_SIZE
    }

    /// Mirror an authoritative snapshot and check its root.  Succeeds
    /// exactly when every snapshot index fits the tree and the rebuilt
    /// root equals the supplied one.
    #[verifier::loop_isolation(false)]
    pub fn new(accounts: &Vec<(u32, AccountLeaf)>, supplied_root: &Fel) -> (r: Result<
        BabyProver,
        BabyProverErr,
    >)
        requires
            forall|i: int|
                0 <= i < accounts@.len() ==> leaf_wf((#[trigger] accounts@[i]).1),
            fel_wf(*supplied_root),
        ensures
            match r {
                Ok(p) => {
                    &&& p.wf()
                    &&& p.accounts_tree.model() == snapshot_map(accounts@, accounts@.len() as int)
                    &&& forall|i: int|
                        0 <= i < accounts@.len() ==> (#[trigger] accounts@[i]).0 < TREE_CAPACITY
                    &&& root_v(snapshot_map(accounts@, accounts@.len() as int)) == fel_v(
                        *supplied_root,
                    )
                },
                Err(e) => {
                    &&& e == BabyProverErr::Unknown
                    &&& ((exists|i: int|
                        0 <= i < accounts@.len() && (#[trigger] accounts@[i]).0 >= TREE_CAPACITY)
                        || root_v(snapshot_map(accounts@, accounts@.len() as int)) != fel_v(
                        *supplied_root,
                    ))
                },
            },
    {
        let mut tree = BalanceTree::new_tree();
        let n = accounts.len();
        let mut i: usize = 0;
        while i < n
            invariant
                i <= n,
                tree.wf(),
                tree.model() == snapshot_map(accounts@, i as int),
                forall|j: int| 0 <= j < i ==> (#[trigger] accounts@[j]).0 < TREE_CAPACITY,
            decreases n - i,
        {
            let k: u32 = accounts[i].0;
            if k >= TREE_CAPACITY {
                return Err(BabyProverErr::Unknown);
            }
            let lc = leaf_copy(&accounts[i].1);
            tree.insert(k, lc);
            i = i + 1;
        }
        let root = tree.root_hash();
        if fel_eq(&root, supplied_root) {
            proof {
                lemma_be_bytes_canon(root.b@);
                lemma_be_bytes_canon(supplied_root.b@);
            }
            Ok(BabyProver { batch_size: BATCH_SIZE, accounts_tree: tree })
        } else {
            proof {
                lemma_be_bytes_canon(root.b@);
                lemma_be_bytes_canon(supplied_root.b@);
            }
            Err(BabyProverErr::Unknown)
        }
    }

    /// Pack every transaction's public data, in order, for the
    /// commitment and for submission.
    #[verifier::loop_isolation(false)]
    pub fn encode_transactions(block: &Block) -> (r: Result<Vec<u8>, BabyProverErr>)
        requires
            forall|i: int|
                0 <= i < block.transactions@.len() ==> tx_wf(#[trigger] block.transactions@[i]),
        ensures
            r is Ok,
            match r {
                Ok(v) => v@ == txdata_v(block.transactions@, block.transactions@.len() as int),
                Err(_) => false,
            },
    {
        let mut out: Vec<u8> = Vec::new();
        let n = block.transactions.len();
        let mut i: usize = 0;
        while i < n
            invariant
                i <= n,
                out@ == txdata_v(block.transactions@, i as int),
            decreases n - i,
        {
            let tx = &block.transactions[i];
            out.push(tx.from.b[29]);
            out.push(tx.from.b[30]);
            out.push(tx.from.b[31]);
            out.push(tx.to.b[29]);
            out.push(tx.to.b[30]);
            out.push(tx.to.b[31]);
            out.push(tx.amount.b[30]);
            out.push(tx.amount.b[31]);
            out.push(tx.fee.b[31]);
            proof {
                assert(out@ =~= txdata_v(block.transactions@, i + 1));
            }
            i = i + 1;
        }
        Ok(out)
    }

    /// Replay a batch against the mirror, strictly in order, producing
    /// the artifacts the proving system consumes.  A batch of the wrong
    /// size is refused before any mutation; a failing transaction stops
    /// the replay and leaves the mutations of the earlier ones in place.
    pub fn apply_block(&mut self, block: &Block) -> (r: Result<ProverArtifacts, BabyProverErr>)
        requires
            old(self).wf(),
            forall|i: int|
                0 <= i < block.transactions@.len() ==> tx_wf(#[trigger] block.transactions@[i]),
        ensures
            final(self).wf(),
            ({
                let m0 = old(self).accounts_tree.model();
                let txs = block.transactions@;
                let n = txs.len() as int;
                match r {
                    Ok(art) => {
                        &&& n == BATCH_SIZE
                        &&& ok_upto(m0, txs, n)
                        &&& final(self).accounts_tree.model() == apply_upto(m0, txs, n)
                        &&& fel_wf(art.old_root) && fel_v(art.old_root) == root_v(m0)
                        &&& fel_wf(art.new_root) && fel_v(art.new_root) == root_v(
                            apply_upto(m0, txs, n),
                        )
                        &&& fel_wf(art.total_fee) && fel_v(art.total_fee) == fee_sum(txs, n)
                        &&& fel_wf(art.block_number) && fel_v(art.block_number)
                            == block.block_number as nat
                        &&& fel_wf(art.public_data_commitment) && fel_v(art.public_data_commitment)
                            == commitment_v(block.block_number as nat, fee_sum(txs, n), txdata_v(
                            txs,
                            n,
                        ))
                        &&& art.witnesses@.len() == n
                        &&& forall|i: int|
                            0 <= i < n ==> witness_ok(
                                (#[trigger] art.witnesses@[i]).1,
                                apply_upto(m0, txs, i),
                                txs[i],
                            )
                        &&& forall|i: int|
                            0 <= i < n ==> tx_matches((#[trigger] art.witnesses@[i]).0, txs[i])
                    },
                    Err(e) => {
                        ||| (n != BATCH_SIZE && e == BabyProverErr::Unknown
                            && final(self).accounts_tree.model() == m0)
                        ||| (n == BATCH_SIZE && exists|i: int|
                            0 <= i < n && ok_upto(m0, txs, i) && (#[trigger] tx_err_v(
                                apply_upto(m0, txs, i),
                                txs[i],
                            )) == Some(e) && final(self).accounts_tree.model() == apply_upto(
                                m0,
                                txs,
                                i,
                            ))
                    },
                }
            }),
    {
        let public_data: Vec<u8> = match Self::encode_transactions(block) {
            Ok(v) => v,
            Err(e) => {
                proof {
                    assert(false);
                }
                return Err(e);
            },
        };
        let n = block.transactions.len();
        if n != self.batch_size {
            return Err(BabyProverErr::Unknown);
        }
        let initial_root = self.accounts_tree.root_hash();
        match apply_batch(&mut self.accounts_tree, &block.transactions) {
            Ok(pair) => {
                let (witnesses, total_fees) = pair;
                let final_root = self.accounts_tree.root_hash();
                let block_number_fe = fel_from_u128(block.block_number as u128);
                let commitment = public_data_commitment(
                    &block_number_fe,
                    &total_fees,
                    &public_data,
                );
                Ok(
                    ProverArtifacts {
                        old_root: initial_root,
                        new_root: final_root,
                        public_data_commitment: commitment,
                        block_number: block_number_fe,
                        total_fee: total_fees,
                        witnesses,
                    },
                )
            },
            Err(e) => Err(e),
        }
    }
}

/// Replay every transaction of a batch in order against the tree,
/// collecting the witnesses and the field sum of the decoded fees.
#[verifier::loop_isolation(false)]
#[verifier::rlimit(100)]
fn apply_batch(tree: &mut BalanceTree, txs: &Vec<Transaction>) -> (r: Result<
    (Vec<(Transaction, TransactionWitness)>, Fel),
    BabyProverErr,
>)
    requires
        old(tree).wf(),
        forall|i: int| 0 <= i < txs@.len() ==> tx_wf(#[trigger] txs@[i]),
    ensures
        final(tree).wf(),
        ({
            let m0 = old(tree).model();
            let n = txs@.len() as int;
            match r {
                Ok(pair) => {
                    &&& ok_upto(m0, txs@, n)
                    &&& final(tree).model() == apply_upto(m0, txs@, n)
                    &&& pair.0@.len() == n
                    &&& forall|i: int|
                        0 <= i < n ==> witness_ok(
                            (#[trigger] pair.0@[i]).1,
                            apply_upto(m0, txs@, i),
                            txs@[i],
                        )
                    &&& forall|i: int| 0 <= i < n ==> tx_matches((#[trigger] pair.0@[i]).0, txs@[i])
                    &&& fel_wf(pair.1)
                    &&& fel_v(pair.1) == fee_sum(txs@, n)
                },
                Err(e) => {
                    exists|i: int|
                        0 <= i < n && ok_upto(m0, txs@, i) && (#[trigger] tx_err_v(
                            apply_upto(m0, txs@, i),
                            txs@[i],
                        )) == Some(e) && final(tree).model() == apply_upto(m0, txs@, i)
                },
            }
        }),
{
    let n = txs.len();
    let mut witnesses: Vec<(Transaction, TransactionWitness)> = Vec::new();
    let mut total_fees = fel_zero();
    let mut i: usize = 0;
    while i < n
        invariant
            i <= n,
            tree.wf(),
            tree.model() == apply_upto(old(tree).model(), txs@, i as int),
            ok_upto(old(tree).model(), txs@, i as int),
            witnesses@.len() == i,
            forall|j: int|
                0 <= j < i ==> witness_ok(
                    (#[trigger] witnesses@[j]).1,
                    apply_upto(old(tree).model(), txs@, j),
                    txs@[j],
                ),
            forall|j: int| 0 <= j < i ==> tx_matches((#[trigger] witnesses@[j]).0, txs@[j]),
            fel_wf(total_fees),
            fel_v(total_fees) == fee_sum(txs@, i as int),
        decreases n - i,
    {
        let ghost m0 = old(tree).model();
        let ghost mi = tree.model();
        let tx = &txs[i];
        match apply_one(tree, tx) {
            Ok(pair) => {
                let (witness, fee_fe) = pair;
                total_fees = fr_add(&total_fees, &fee_fe);
                witnesses.push((tx_copy(tx), witness));
                proof {
                    assert(apply_upto(m0, txs@, i + 1) == tx_apply_v(mi, txs@[i as int]));
                    assert(fee_sum(txs@, i + 1) == add_v(
                        fee_sum(txs@, i as int),
                        fee_of(txs@[i as int]).unwrap(),
                    ));
                }
            },
            Err(e) => {
                proof {
                    assert(ok_upto(m0, txs@, i as int) && tx_err_v(
                        apply_upto(m0, txs@, i as int),
                        txs@[i as int],
                    ) == Some(e));
                }
                return Err(e);
            },
        }
        i = i + 1;
    }
    Ok((witnesses, total_fees))
}


/// Sequential dependency: in a two-transaction batch, the second
/// transaction's witness is checked against the state the first left
/// behind, not the batch's initial state.
pub proof fn lemma_sequential_dependency(
    m0: Map<u32, LeafVals>,
    tx1: Transaction,
    tx2: Transaction,
    w: TransactionWitness,
)
    requires
        witness_ok(w, apply_upto(m0, seq![tx1, tx2], 1), tx2),
    ensures
        witness_ok(w, tx_apply_v(m0, tx1), tx2),
{
    assert(apply_upto(m0, seq![tx1, tx2], 0) == m0);
    assert(seq![tx1, tx2][0] == tx1);
    assert(apply_upto(m0, seq![tx1, tx2], 1) == tx_apply_v(m0, tx1));
}

proof fn lemma_mod_absorb(x: int, y: int, p: int)
    requires
        p > 0,
    ensures
        ((x % p) + y) % p == (x + y) % p,
{
    lemma_fundamental_div_mod(x, p);
    lemma_mod_multiples_vanish(x / p, (x % p) + y, p);
}

/// Value conservation: a transfer between two distinct accounts moves
/// `amount + fee` out of the sender and `amount` into the recipient, so
/// the two balances plus the fee are conserved modulo the field order;
/// every other leaf is untouched.  (A self-transfer is not conserved:
/// the recipient write overwrites the sender's debit.)
pub proof fn lemma_value_conservation(m: Map<u32, LeafVals>, tx: Transaction)
    requires
        tx_err_v(m, tx) is None,
        idx_of(tx.from) != idx_of(tx.to),
        m[idx_of(tx.from)].0 < fr_modulus(),
        m[idx_of(tx.to)].0 < fr_modulus(),
        fee_of(tx).unwrap() < fr_modulus(),
    ensures
        ({
            let m1 = tx_apply_v(m, tx);
            add_v(add_v(m1[idx_of(tx.from)].0, m1[idx_of(tx.to)].0), fee_of(tx).unwrap())
                == add_v(m[idx_of(tx.from)].0, m[idx_of(tx.to)].0)
        }),
        forall|k: u32|
            k != idx_of(tx.from) && k != idx_of(tx.to) ==> ((#[trigger] tx_apply_v(
                m,
                tx,
            ).contains_key(k)) <==> m.contains_key(k)) && (m.contains_key(k) ==> tx_apply_v(
                m,
                tx,
            )[k] == m[k]),
{
    let p = fr_modulus() as int;
    let sk = idx_of(tx.from);
    let rk = idx_of(tx.to);
    let a = amount_of(tx).unwrap() as int;
    let fe = fee_of(tx).unwrap() as int;
    let b = m[sk].0 as int;
    let c = m[rk].0 as int;
    let m1 = tx_apply_v(m, tx);
    let b1 = (b + p - a) % p;
    let b2 = (b1 + p - fe) % p;
    let c1 = (c + a) % p;
    assert(m1[sk].0 == b2 && m1[rk].0 == c1);
    lemma_mod_absorb(b2 + c1, fe, p);
    lemma_mod_absorb(b1 + p - fe, c1 + fe, p);
    lemma_mod_absorb(c + a, b1 + p, p);
    lemma_mod_absorb(b + p - a, c + a + p, p);
    assert((b2 + c1 + fe) % p == ((b1 + p - fe) + c1 + fe) % p);
    assert(((b1 + p - fe) + c1 + fe) % p == (b1 + p + c1) % p);
    assert((b1 + p + c1) % p == (b1 + p + c + a) % p);
    assert((b1 + p + c + a) % p == (b + p - a + c + a + p) % p);
    lemma_mod_multiples_vanish(2, b + c, p);
    assert((b + p - a + c + a + p) % p == (b + c) % p);
    lemma_small_mod(fee_of(tx).unwrap(), fr_modulus());
    assert(add_v(add_v(m1[sk].0, m1[rk].0), fee_of(tx).unwrap()) == ((b2 + c1) % p + fe) % p);
}

} // verus!
