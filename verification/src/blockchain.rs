//! The ledger core: transactions, blocks, the chain with its pending
//! pool, and the concurrent proof-of-work search that seals a block.

use crate::decimal::{
    dec_of, dec_to_u64, is_u64_dec, lemma_dec_of_val, u64_to_dec, val_of,
};
use crate::digest::{hash_meets, sha256_hex};
use crate::model::{
    append_escaped, append_i64, append_u64, block_meets, ser_block, ser_tx, ser_txs, spec_hash,
    with_nonce, BlockView, TxView,
};
use core::sync::atomic::{AtomicBool, Ordering};
use vstd::prelude::*;
use vstd::string::{StrSliceExecFns, StringExecFns};

verus! {

/// An immutable record of one value transfer intent. The identifier is
/// assigned by the chain, as the decimal form of a strictly growing
/// counter.
#[derive(Debug, Clone)]
pub struct Transaction {
    pub transaction_id: String,
    pub transaction_timestamp: i64,
    pub transaction_details: String,
    pub amount: i64,
}

impl View for Transaction {
    type V = TxView;

    open spec fn view(&self) -> TxView {
        TxView {
            id: self.transaction_id@,
            timestamp: self.transaction_timestamp as int,
            details: self.transaction_details@,
            amount: self.amount as int,
        }
    }
}

impl Transaction {
    /// A field-for-field copy, with nothing shared.
    pub fn duplicate(&self) -> (r: Transaction)
        ensures
            r@ == self@,
    {
        let t = Transaction {
            transaction_id: self.transaction_id.clone(),
            transaction_timestamp: self.transaction_timestamp,
            transaction_details: self.transaction_details.clone(),
            amount: self.amount,
        };
        proof {
            assert(t@ =~= self@);
        }
        t
    }

    /// Appends this entry's serialized form.
    pub(crate) fn append_to(&self, out: &mut String)
        ensures
            final(out)@ == old(out)@ + ser_tx(self@),
    {
        out.append("{\"transaction_id\":\"");
        append_escaped(out, self.transaction_id.as_str());
        out.append("\",\"transaction_timestamp\":");
        append_i64(out, self.transaction_timestamp);
        out.append(",\"transaction_details\":\"");
        append_escaped(out, self.transaction_details.as_str());
        out.append("\",\"amount\":");
        append_i64(out, self.amount);
        out.append("}");
        proof {
            assert(out@ =~= old(out)@ + ser_tx(self@));
        }
    }
}

/// An ordered batch of transactions with its position, creation instant,
/// search nonce and the link to the preceding block's content hash.
#[derive(Debug, Clone)]
pub struct Block {
    pub block_number: usize,
    pub block_timestamp: i64,
    pub block_nonce: u64,
    pub transaction_list: Vec<Transaction>,
    pub previous_block_hash: String,
}

impl View for Block {
    type V = BlockView;

    open spec fn view(&self) -> BlockView {
        BlockView {
            number: self.block_number as int,
            timestamp: self.block_timestamp as int,
            nonce: self.block_nonce,
            txs: Seq::new(
                self.transaction_list@.len(),
                |i: int| self.transaction_list@[i]@,
            ),
            prev: self.previous_block_hash@,
        }
    }
}

/// Relies on `chrono::Utc::now` with `timestamp`: the current clock
/// reading in seconds; nothing is promised of its value.
#[verifier::external_body]
fn now_timestamp() -> i64 {
    chrono::Utc::now().timestamp()
}

impl Block {
    /// The fixed origin of every chain: block number 1, nonce 0, one
    /// entry of amount zero with identifier "1", linked to "0".
    pub fn genesis() -> (r: Block)
        ensures
            r@.number == 1,
            r@.nonce == 0,
            r@.prev == "0"@,
            r@.txs.len() == 1,
            r@.txs[0].id == dec_of(1),
            r@.txs[0].amount == 0,
            r@.txs[0].details
                == "This is dummy transaction as genesis block has no transactions"@,
    {
        let transaction = Transaction {
            transaction_id: String::from_str("1"),
            transaction_details: String::from_str(
                "This is dummy transaction as genesis block has no transactions",
            ),
            transaction_timestamp: now_timestamp(),
            amount: 0,
        };
        let mut list: Vec<Transaction> = Vec::new();
        list.push(transaction);
        let b = Block {
            block_number: 1,
            block_timestamp: now_timestamp(),
            block_nonce: 0,
            transaction_list: list,
            previous_block_hash: String::from_str("0"),
        };
        proof {
            reveal_strlit("1");
            assert(b@.txs[0].id =~= dec_of(1));
        }
        b
    }

    /// The deterministic serialization of every field, in a fixed order.
    pub fn serialize(&self) -> (r: String)
        ensures
            r@ == ser_block(self@),
    {
        let mut out = String::new();
        out.append("{\"block_number\":");
        append_u64(&mut out, self.block_number as u64);
        out.append(",\"block_timestamp\":");
        append_i64(&mut out, self.block_timestamp);
        out.append(",\"block_nonce\":");
        append_u64(&mut out, self.block_nonce);
        out.append(",\"transaction_list\":[");
        let ghost pre = out@;
        let n = self.transaction_list.len();
        let mut i: usize = 0;
        while i < n
            invariant
                0 <= i <= n,
                n == self.transaction_list@.len(),
                n == self@.txs.len(),
                forall|k: int| 0 <= k < n ==> self@.txs[k] == #[trigger] self.transaction_list@[k]@,
                out@ == pre + ser_txs(self@.txs.take(i as int)),
            decreases n - i,
        {
            if i > 0 {
                out.append(",");
            }
            let t = &self.transaction_list[i];
            t.append_to(&mut out);
            proof {
                let ts = self@.txs.take(i + 1);
                assert(ts.drop_last() =~= self@.txs.take(i as int));
                assert(ts.last() == self@.txs[i as int]);
                if i == 0 {
                    assert(ts[0] == self@.txs[0]);
                }
                assert(out@ =~= pre + ser_txs(self@.txs.take(i + 1)));
            }
            i = i + 1;
        }
        out.append("],\"previous_block_hash\":\"");
        append_escaped(&mut out, self.previous_block_hash.as_str());
        out.append("\"}");
        proof {
            assert(self@.txs.take(n as int) =~= self@.txs);
            assert(out@ =~= ser_block(self@));
        }
        out
    }

    /// The content hash: the SHA-256 digest of the serialized block.
    pub fn get_hash(&self) -> (r: String)
        ensures
            r@ == spec_hash(self@),
            r@.len() == 64,
    {
        let s = self.serialize();
        sha256_hex(s.as_str())
    }

    /// Appends an entry; used only while the block is still a mutable
    /// candidate, never after it has been appended to the chain.
    pub fn add_transaction(&mut self, transaction: Transaction)
        ensures
            final(self)@.txs =~= old(self)@.txs.push(transaction@),
            final(self)@.number == old(self)@.number,
            final(self)@.timestamp == old(self)@.timestamp,
            final(self)@.nonce == old(self)@.nonce,
            final(self)@.prev == old(self)@.prev,
    {
        self.transaction_list.push(transaction);
    }

    /// A field-for-field copy, with nothing shared; each mining worker
    /// owns one.
    pub fn duplicate(&self) -> (r: Block)
        ensures
            r@ == self@,
    {
        let n = self.transaction_list.len();
        let mut list: Vec<Transaction> = Vec::new();
        let mut i: usize = 0;
        while i < n
            invariant
                0 <= i <= n,
                n == self.transaction_list@.len(),
                list@.len() == i,
                forall|k: int| 0 <= k < i ==> #[trigger] list@[k]@ == self.transaction_list@[k]@,
            decreases n - i,
        {
            list.push(self.transaction_list[i].duplicate());
            i = i + 1;
        }
        let b = Block {
            block_number: self.block_number,
            block_timestamp: self.block_timestamp,
            block_nonce: self.block_nonce,
            transaction_list: list,
            previous_block_hash: self.previous_block_hash.clone(),
        };
        proof {
            assert(b@.txs =~= self@.txs);
            assert(b@ =~= self@);
        }
        b
    }
}

} // verus!

verus! {

/// Validation failures of the caller-adjustable mining settings.
#[derive(Debug, Clone, Copy, PartialEq, Eq, Structural)]
pub enum ChainError {
    InvalidDifficulty,
    InvalidWorkerCount,
}

/// The outcome of a seal request: a block was mined and appended, or the
/// pending pool was empty and nothing happened, or no worker produced a
/// winning nonce and nothing was appended.
#[derive(Debug, Clone, Copy, PartialEq, Eq, Structural)]
pub enum SealOutcome {
    Sealed,
    NoOp,
    MiningFailed,
}

/// The append-only chain of sealed blocks, the pending pool of admitted
/// transactions, and the mining settings for the next seal.
#[derive(Debug)]
pub struct Blockchain {
    pub blocks: Vec<Block>,
    pub current_transaction_list: Vec<Transaction>,
    pub reward: i64,
    pub difficulty: i32,
    pub miners: u32,
}

impl Blockchain {
    /// The sealed blocks, as models.
    pub open spec fn chain(self) -> Seq<BlockView> {
        Seq::new(self.blocks@.len(), |i: int| self.blocks@[i]@)
    }

    /// The pending, not yet sealed entries, as models.
    pub open spec fn pool(self) -> Seq<TxView> {
        Seq::new(
            self.current_transaction_list@.len(),
            |i: int| self.current_transaction_list@[i]@,
        )
    }

    /// The identifier value of the first entry of the last sealed block.
    /// The reward entry sits first and carries the block's highest
    /// identifier, so this is the largest value handed out so far and
    /// the point the pending pool's identifiers count on from.
    pub open spec fn chain_anchor(self) -> nat {
        val_of(self.chain().last().txs[0].id)
    }

    /// The identifier value the next admitted entry will receive: one
    /// past the last pending entry, or one past the chain's last entry
    /// when nothing is pending.
    pub open spec fn next_id_val(self) -> nat {
        if self.pool().len() > 0 {
            val_of(self.pool().last().id) + 1
        } else {
            self.chain_anchor() + 1
        }
    }

    /// Well-formedness: the genesis-seeded chain is never empty, block
    /// numbers are consecutive from 1, every block holds at least one
    /// entry, every identifier in chain and pool is the canonical decimal
    /// form of a value fitting `u64`, each block's first entry carries
    /// the block's highest identifier, each block's identifiers lie
    /// strictly above the previous block's, identifiers never repeat
    /// within a block, the pending identifiers count up by one from the
    /// chain's highest, and the difficulty is never negative.
    pub open spec fn wf(self) -> bool {
        &&& self.chain().len() >= 1
        &&& forall|i: int|
            0 <= i < self.chain().len() ==> (#[trigger] self.chain()[i]).number == i + 1
        &&& forall|i: int|
            0 <= i < self.chain().len() ==> (#[trigger] self.chain()[i]).txs.len() >= 1
        &&& forall|i: int, j: int|
            0 <= i < self.chain().len() && 0 <= j < self.chain()[i].txs.len() ==> is_u64_dec(
                (#[trigger] self.chain()[i].txs[j]).id,
            )
        &&& forall|i: int, j: int|
            0 <= i < self.chain().len() && 0 <= j < self.chain()[i].txs.len() ==> val_of(
                (#[trigger] self.chain()[i].txs[j]).id,
            ) <= val_of(self.chain()[i].txs[0].id)
        &&& forall|i: int, j: int|
            1 <= i < self.chain().len() && 0 <= j < self.chain()[i].txs.len() ==> val_of(
                (#[trigger] self.chain()[i].txs[j]).id,
            ) > val_of(self.chain()[i - 1].txs[0].id)
        &&& forall|i: int, j1: int, j2: int|
            0 <= i < self.chain().len() && 0 <= j1 < j2 < self.chain()[i].txs.len() ==> val_of(
                (#[trigger] self.chain()[i].txs[j1]).id,
            ) != val_of((#[trigger] self.chain()[i].txs[j2]).id)
        &&& forall|j: int|
            0 <= j < self.pool().len() ==> is_u64_dec((#[trigger] self.pool()[j]).id)
        &&& forall|j: int|
            0 <= j < self.pool().len() ==> val_of((#[trigger] self.pool()[j]).id)
                == self.chain_anchor() + 1 + j
        &&& self.difficulty >= 0
    }

    /// A fresh chain: exactly the genesis block, an empty pool, reward
    /// 100, difficulty 1 and one mining worker.
    pub fn new() -> (r: Blockchain)
        ensures
            r.wf(),
            r.chain().len() == 1,
            r.chain()[0].number == 1,
            r.chain()[0].nonce == 0,
            r.chain()[0].prev == "0"@,
            r.chain()[0].txs.len() == 1,
            r.chain()[0].txs[0].amount == 0,
            r.chain()[0].txs[0].id == dec_of(1),
            r.chain()[0].txs[0].details
                == "This is dummy transaction as genesis block has no transactions"@,
            r.pool().len() == 0,
            r.reward == 100,
            r.difficulty == 1,
            r.miners == 1,
    {
        let g = Block::genesis();
        let mut blocks: Vec<Block> = Vec::new();
        blocks.push(g);
        let bc = Blockchain {
            blocks,
            current_transaction_list: Vec::new(),
            reward: 100,
            difficulty: 1,
            miners: 1,
        };
        proof {
            lemma_dec_of_val(1);
            assert(bc.chain().last() == bc.chain()[0]);
            assert(bc.chain()[0].txs.last() == bc.chain()[0].txs[0]);
        }
        bc
    }

    /// The most recently appended block; the chain is never empty.
    pub fn last_block(&self) -> (r: &Block)
        requires
            self.blocks@.len() >= 1,
        ensures
            r@ == self.chain().last(),
    {
        &self.blocks[self.blocks.len() - 1]
    }

    /// Sets the reward credited by the next seal.
    pub fn change_reward(&mut self, reward: i64)
        ensures
            final(self).reward == reward,
            final(self).blocks == old(self).blocks,
            final(self).current_transaction_list == old(self).current_transaction_list,
            final(self).difficulty == old(self).difficulty,
            final(self).miners == old(self).miners,
            old(self).wf() ==> final(self).wf(),
    {
        self.reward = reward;
        proof {
            assert(self.chain() =~= old(self).chain());
            assert(self.pool() =~= old(self).pool());
        }
    }

    /// Sets the difficulty used by the next seal; a negative value is
    /// rejected and nothing changes. Values above the hash's 64
    /// characters are accepted but make the predicate unsatisfiable, so
    /// a later seal can only fail.
    pub fn set_difficulty(&mut self, difficulty: i32) -> (r: Result<(), ChainError>)
        ensures
            difficulty >= 0 <==> r == Ok::<(), ChainError>(()),
            difficulty < 0 ==> r == Err::<(), ChainError>(ChainError::InvalidDifficulty)
                && *final(self) == *old(self),
            difficulty >= 0 ==> final(self).difficulty == difficulty
                && final(self).blocks == old(self).blocks
                && final(self).current_transaction_list == old(self).current_transaction_list
                && final(self).reward == old(self).reward
                && final(self).miners == old(self).miners,
            old(self).wf() && difficulty >= 0 ==> final(self).wf(),
    {
        if difficulty < 0 {
            return Err(ChainError::InvalidDifficulty);
        }
        self.difficulty = difficulty;
        proof {
            assert(self.chain() =~= old(self).chain());
            assert(self.pool() =~= old(self).pool());
        }
        Ok(())
    }

    /// Sets the worker count used by the next seal; zero workers are
    /// rejected and nothing changes.
    pub fn set_miners(&mut self, miners: u32) -> (r: Result<(), ChainError>)
        ensures
            miners >= 1 <==> r == Ok::<(), ChainError>(()),
            miners == 0 ==> r == Err::<(), ChainError>(ChainError::InvalidWorkerCount)
                && *final(self) == *old(self),
            miners >= 1 ==> final(self).miners == miners
                && final(self).blocks == old(self).blocks
                && final(self).current_transaction_list == old(self).current_transaction_list
                && final(self).reward == old(self).reward
                && final(self).difficulty == old(self).difficulty,
            old(self).wf() && miners >= 1 ==> final(self).wf(),
    {
        if miners == 0 {
            return Err(ChainError::InvalidWorkerCount);
        }
        self.miners = miners;
        proof {
            assert(self.chain() =~= old(self).chain());
            assert(self.pool() =~= old(self).pool());
        }
        Ok(())
    }

    /// Whether the pending pool is empty.
    pub fn is_transaction_empty(&mut self) -> (r: bool)
        ensures
            r == (old(self).pool().len() == 0),
            *final(self) == *old(self),
    {
        self.current_transaction_list.is_empty()
    }

    /// The decimal identifier for the next admitted entry: one past the
    /// last pending entry, or — when nothing is pending — one past the
    /// highest identifier of the last sealed block, which its first
    /// entry carries; identifiers are never reused.
    pub fn generate_transaction_id(&self) -> (r: String)
        requires
            self.wf(),
            self.next_id_val() <= u64::MAX,
        ensures
            r@ == dec_of(self.next_id_val()),
    {
        let lb: &Block = &self.blocks[self.blocks.len() - 1];
        let lt: &Transaction = &lb.transaction_list[0];
        proof {
            let ci = self.chain().len() - 1;
            assert(self.chain()[ci] == lb@);
            assert(is_u64_dec(self.chain()[ci].txs[0].id));
            assert(self.chain()[ci].txs[0] == lt@);
        }
        let last_transaction_id = dec_to_u64(lt.transaction_id.as_str());
        let tx_id_to_assign: u64 = if self.current_transaction_list.len() > 0 {
            let pt: &Transaction = &self.current_transaction_list[self.current_transaction_list.len()
                - 1];
            proof {
                let pj = self.pool().len() - 1;
                assert(is_u64_dec(self.pool()[pj].id));
                assert(self.pool().last() == pt@);
            }
            dec_to_u64(pt.transaction_id.as_str())
        } else {
            last_transaction_id
        };
        u64_to_dec(tx_id_to_assign + 1)
    }

    /// Admits a transfer into the pending pool, under the next
    /// identifier; the chain itself is untouched.
    pub fn new_transaction(&mut self, transaction_details: String, amount: i64)
        requires
            old(self).wf(),
            old(self).next_id_val() <= u64::MAX,
        ensures
            final(self).wf(),
            final(self).pool().len() == old(self).pool().len() + 1,
            final(self).pool().drop_last() =~= old(self).pool(),
            final(self).pool().last().id == dec_of(old(self).next_id_val()),
            final(self).pool().last().details == transaction_details@,
            final(self).pool().last().amount == amount as int,
            final(self).next_id_val() == old(self).next_id_val() + 1,
            final(self).blocks == old(self).blocks,
            final(self).chain() == old(self).chain(),
            final(self).reward == old(self).reward,
            final(self).difficulty == old(self).difficulty,
            final(self).miners == old(self).miners,
    {
        let new_transaction = Transaction {
            transaction_id: self.generate_transaction_id(),
            transaction_details,
            transaction_timestamp: now_timestamp(),
            amount,
        };
        let ghost ntv = new_transaction@;
        self.current_transaction_list.push(new_transaction);
        proof {
            lemma_dec_of_val(old(self).next_id_val());
            assert(self.chain() =~= old(self).chain());
            assert(self.pool() =~= old(self).pool().push(ntv));
            assert(self.pool().drop_last() =~= old(self).pool());
            if old(self).pool().len() > 0 {
                assert(val_of(old(self).pool()[old(self).pool().len() - 1].id)
                    == old(self).chain_anchor() + old(self).pool().len());
            }
        }
    }
}

} // verus!

verus! {

/// One worker's search: starting from the candidate's current nonce, it
/// hashes and counts up until the difficulty predicate holds, the shared
/// flag reports another worker's win, or the nonce space is exhausted.
/// On a win it claims the flag and reports its nonce; whatever it
/// reports satisfies the predicate, and `None` reports nothing.
pub fn search_nonce(block: Block, difficulty: usize, found: &AtomicBool) -> (r: Option<u64>)
    ensures
        (r matches Some(n) ==> block_meets(with_nonce(block@, n), difficulty as nat)),
{
    let mut b = block;
    let ghost orig = b@;
    proof {
        assert(b@ =~= with_nonce(orig, b@.nonce));
    }
    loop
        invariant
            orig == block@,
            b@ == with_nonce(orig, b@.nonce),
        decreases u64::MAX - b.block_nonce,
    {
        if found.load(Ordering::Relaxed) {
            return None;
        }
        let h = b.get_hash();
        if hash_meets(h.as_str(), difficulty) {
            if !found.load(Ordering::Relaxed) {
                found.swap(true, Ordering::Relaxed);
                return Some(b.block_nonce);
            }
            return None;
        }
        if b.block_nonce == u64::MAX {
            return None;
        }
        b.block_nonce = b.block_nonce + 1;
        proof {
            assert(b@ =~= with_nonce(orig, b@.nonce));
        }
    }
}

impl Blockchain {
    /// The nonce search: `miners` workers take turns, each owning a
    /// private copy of the candidate and all sharing one atomic stop
    /// flag, so every worker after a win stops at once; whichever nonce
    /// was reported is adopted. The result either satisfies the
    /// difficulty predicate or — only if no worker reported a winning
    /// nonce — is the candidate unchanged; no other field is touched.
    pub fn proof_of_work(&self, original_block: Block) -> (r: Block)
        requires
            self.difficulty >= 0,
        ensures
            r@ == with_nonce(original_block@, r@.nonce),
            block_meets(r@, self.difficulty as nat) || r@ == original_block@,
    {
        let difficulty: usize = self.difficulty as usize;
        let ghost ob = original_block@;
        let found = AtomicBool::new(false);
        let mut winner: Option<u64> = None;
        let mut i: u32 = 0;
        while i < self.miners
            invariant
                ob == original_block@,
                (winner matches Some(n) ==> block_meets(with_nonce(ob, n), difficulty as nat)),
            decreases self.miners - i,
        {
            let b = original_block.duplicate();
            match search_nonce(b, difficulty, &found) {
                Some(n) => {
                    winner = Some(n);
                },
                None => {},
            }
            i = i + 1;
        }
        let mut sealed = original_block;
        match winner {
            Some(n) => {
                sealed.block_nonce = n;
                proof {
                    assert(sealed@ =~= with_nonce(ob, n));
                }
            },
            None => {
                proof {
                    assert(sealed@ =~= with_nonce(ob, sealed@.nonce));
                }
            },
        }
        sealed
    }
}

} // verus!

verus! {

impl Blockchain {
    /// Seals the pending pool into a new block. With an empty pool this
    /// is a no-op. Otherwise a candidate is built from a fresh reward
    /// entry and the last block's content hash, mined, filled with the
    /// pending entries after the reward entry in submission order, and
    /// appended; the pool is cleared and the difficulty raised by one.
    /// If no worker produced a winning nonce, nothing changes at all.
    #[verifier::rlimit(80)]
    pub fn generate_new_block(&mut self) -> (r: SealOutcome)
        requires
            old(self).wf(),
            old(self).pool().len() > 0 ==> old(self).next_id_val() <= u64::MAX,
            old(self).pool().len() > 0 ==> old(self).difficulty < i32::MAX,
            old(self).pool().len() > 0 ==> old(self).blocks@.len() < usize::MAX,
        ensures
            final(self).wf(),
            r == SealOutcome::NoOp <==> old(self).pool().len() == 0,
            r == SealOutcome::NoOp ==> *final(self) == *old(self),
            old(self).pool().len() > 0 && old(self).difficulty == 0 ==> r == SealOutcome::Sealed,
            r == SealOutcome::MiningFailed ==> *final(self) == *old(self),
            r == SealOutcome::Sealed ==> ({
                let newb = final(self).chain().last();
                &&& final(self).chain().len() == old(self).chain().len() + 1
                &&& final(self).chain().take(old(self).chain().len() as int) =~= old(self).chain()
                &&& newb.number == old(self).chain().len() + 1
                &&& newb.prev == spec_hash(old(self).chain().last())
                &&& newb.txs.len() == 1 + old(self).pool().len()
                &&& newb.txs[0].amount == old(self).reward as int
                &&& newb.txs[0].details == "reward"@
                &&& newb.txs[0].id == dec_of(old(self).next_id_val())
                &&& newb.txs.skip(1) =~= old(self).pool()
                &&& forall|j1: int, j2: int|
                    0 <= j1 < j2 < newb.txs.len() ==> (#[trigger] newb.txs[j1]).id != (
                    #[trigger] newb.txs[j2]).id
                &&& block_meets((BlockView { txs: newb.txs.take(1), ..newb }), old(self).difficulty as nat)
                &&& final(self).pool().len() == 0
                &&& final(self).difficulty == old(self).difficulty + 1
                &&& final(self).reward == old(self).reward
                &&& final(self).miners == old(self).miners
            }),
    {
        if self.current_transaction_list.len() == 0 {
            return SealOutcome::NoOp;
        }
        let reward_transaction = Transaction {
            transaction_id: self.generate_transaction_id(),
            transaction_details: String::from_str("reward"),
            transaction_timestamp: now_timestamp(),
            amount: self.reward,
        };
        let ghost rtv = reward_transaction@;
        let mut list: Vec<Transaction> = Vec::new();
        list.push(reward_transaction);
        let previous_hash = self.blocks[self.blocks.len() - 1].get_hash();
        let candidate = Block {
            block_number: self.blocks.len() + 1,
            block_timestamp: now_timestamp(),
            block_nonce: 0,
            transaction_list: list,
            previous_block_hash: previous_hash,
        };
        proof {
            assert(candidate@.txs =~= seq![rtv]);
        }
        let mut mined_block = self.proof_of_work(candidate);
        let h = mined_block.get_hash();
        if !hash_meets(h.as_str(), self.difficulty as usize) {
            return SealOutcome::MiningFailed;
        }
        let ghost mv = mined_block@;
        mined_block.transaction_list.append(&mut self.current_transaction_list);
        proof {
            assert(mined_block@.txs =~= mv.txs + old(self).pool());
            assert(self.pool() =~= Seq::<TxView>::empty());
        }
        self.blocks.push(mined_block);
        self.difficulty = self.difficulty + 1;
        proof {
            lemma_dec_of_val(old(self).next_id_val());
            let oldc = old(self).chain();
            let newc = self.chain();
            assert(newc.take(oldc.len() as int) =~= oldc);
            let newb = newc.last();
            assert(newb == mined_block@);
            assert(newb.txs.skip(1) =~= old(self).pool());
            assert(newb.txs.take(1) =~= mv.txs);
            assert((BlockView { txs: newb.txs.take(1), ..newb }) =~= mv);
            assert(is_u64_dec(rtv.id));
            assert forall|i: int| 0 <= i < newc.len() implies (#[trigger] newc[i]).number == i
                + 1 by {
                if i < oldc.len() {
                    assert(newc[i] == oldc[i]);
                } else {
                    assert(newc[i] == newb);
                }
            };
            assert forall|i: int| 0 <= i < newc.len() implies (#[trigger] newc[i]).txs.len()
                >= 1 by {
                if i < oldc.len() {
                    assert(newc[i] == oldc[i]);
                } else {
                    assert(newc[i] == newb);
                }
            };
            assert forall|j1: int, j2: int| 0 <= j1 < j2 < newb.txs.len() implies (
            #[trigger] newb.txs[j1]).id != (#[trigger] newb.txs[j2]).id by {
                let a = old(self).chain_anchor();
                let k = old(self).pool().len();
                assert(val_of(newb.txs[0].id) == a + k + 1);
                if j1 >= 1 {
                    assert(newb.txs[j1] == old(self).pool()[j1 - 1]);
                    assert(val_of(newb.txs[j1].id) == a + j1);
                }
                assert(newb.txs[j2] == old(self).pool()[j2 - 1]);
                assert(val_of(newb.txs[j2].id) == a + j2);
                assert(val_of(newb.txs[j1].id) != val_of(newb.txs[j2].id));
            };
            assert forall|i: int, j: int|
                0 <= i < newc.len() && 0 <= j < newc[i].txs.len() implies is_u64_dec(
                (#[trigger] newc[i].txs[j]).id,
            ) by {
                if i < oldc.len() {
                    assert(newc[i] == oldc[i]);
                    assert(is_u64_dec(oldc[i].txs[j].id));
                } else {
                    assert(newc[i] == newb);
                    if j == 0 {
                        assert(newb.txs[0] == rtv);
                    } else {
                        assert(newb.txs[j] == old(self).pool()[j - 1]);
                        assert(is_u64_dec(old(self).pool()[j - 1].id));
                    }
                }
            };
            let a = old(self).chain_anchor();
            let k = old(self).pool().len();
            assert(val_of(newb.txs[0].id) == a + k + 1);
            assert forall|i: int, j: int|
                0 <= i < newc.len() && 0 <= j < newc[i].txs.len() implies val_of(
                (#[trigger] newc[i].txs[j]).id,
            ) <= val_of(newc[i].txs[0].id) by {
                if i < oldc.len() {
                    assert(newc[i] == oldc[i]);
                    assert(val_of(oldc[i].txs[j].id) <= val_of(oldc[i].txs[0].id));
                } else {
                    assert(newc[i] == newb);
                    if j >= 1 {
                        assert(newb.txs[j] == old(self).pool()[j - 1]);
                        assert(val_of(newb.txs[j].id) == a + j);
                    }
                }
            };
            assert forall|i: int, j: int|
                1 <= i < newc.len() && 0 <= j < newc[i].txs.len() implies val_of(
                (#[trigger] newc[i].txs[j]).id,
            ) > val_of(newc[i - 1].txs[0].id) by {
                if i < oldc.len() {
                    assert(newc[i] == oldc[i]);
                    assert(newc[i - 1] == oldc[i - 1]);
                    assert(val_of(oldc[i].txs[j].id) > val_of(oldc[i - 1].txs[0].id));
                } else {
                    assert(newc[i] == newb);
                    assert(newc[i - 1] == oldc[oldc.len() - 1]);
                    if j >= 1 {
                        assert(newb.txs[j] == old(self).pool()[j - 1]);
                        assert(val_of(newb.txs[j].id) == a + j);
                    }
                }
            };
            assert forall|i: int, j1: int, j2: int|
                0 <= i < newc.len() && 0 <= j1 < j2 < newc[i].txs.len() implies val_of(
                (#[trigger] newc[i].txs[j1]).id,
            ) != val_of((#[trigger] newc[i].txs[j2]).id) by {
                if i < oldc.len() {
                    assert(newc[i] == oldc[i]);
                    assert(val_of(oldc[i].txs[j1].id) != val_of(oldc[i].txs[j2].id));
                } else {
                    assert(newc[i] == newb);
                    if j1 >= 1 {
                        assert(newb.txs[j1] == old(self).pool()[j1 - 1]);
                        assert(val_of(newb.txs[j1].id) == a + j1);
                    }
                    assert(newb.txs[j2] == old(self).pool()[j2 - 1]);
                    assert(val_of(newb.txs[j2].id) == a + j2);
                }
            };
        }
        SealOutcome::Sealed
    }
}

} // verus!
