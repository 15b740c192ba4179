//! Properties of the ledger that relate several operations, stated and
//! proved once over the models the operation contracts use.

use crate::blockchain::Blockchain;
use crate::decimal::val_of;
use crate::model::{spec_hash, BlockView};
use vstd::prelude::*;

verus! {

/// Identifier monotonicity across admissions: in a well-formed chain the
/// pending identifiers strictly increase, one by one, from the chain's
/// highest identifier on, so no two pending entries ever share an
/// identifier.
pub proof fn lemma_pool_ids_strictly_increase(bc: Blockchain)
    requires
        bc.wf(),
    ensures
        forall|j1: int, j2: int|
            0 <= j1 < j2 < bc.pool().len() ==> val_of((#[trigger] bc.pool()[j1]).id) < val_of(
                (#[trigger] bc.pool()[j2]).id,
            ),
        forall|j1: int, j2: int|
            0 <= j1 < j2 < bc.pool().len() ==> (#[trigger] bc.pool()[j1]).id != (
            #[trigger] bc.pool()[j2]).id,
{
    assert forall|j1: int, j2: int| 0 <= j1 < j2 < bc.pool().len() implies val_of(
        (#[trigger] bc.pool()[j1]).id,
    ) < val_of((#[trigger] bc.pool()[j2]).id) by {
        assert(val_of(bc.pool()[j1].id) == bc.chain_anchor() + 1 + j1);
        assert(val_of(bc.pool()[j2].id) == bc.chain_anchor() + 1 + j2);
    };
}

/// No gaps: the identifier value the next admitted entry receives is
/// exactly one past the identifiers already handed out, counted from the
/// chain's highest identifier across the whole pending pool.
pub proof fn lemma_next_id_no_gap(bc: Blockchain)
    requires
        bc.wf(),
    ensures
        bc.next_id_val() == bc.chain_anchor() + bc.pool().len() + 1,
{
    if bc.pool().len() > 0 {
        assert(val_of(bc.pool()[bc.pool().len() - 1].id) == bc.chain_anchor() + bc.pool().len());
    }
}

/// The first entry of each later block carries a strictly larger
/// identifier value than the first entry of each earlier one: sealing
/// always advances the chain's highest identifier.
pub proof fn lemma_anchor_monotone(bc: Blockchain, i1: int, i2: int)
    requires
        bc.wf(),
        0 <= i1 <= i2 < bc.chain().len(),
    ensures
        val_of(bc.chain()[i1].txs[0].id) <= val_of(bc.chain()[i2].txs[0].id),
        i1 < i2 ==> val_of(bc.chain()[i1].txs[0].id) < val_of(bc.chain()[i2].txs[0].id),
    decreases i2 - i1,
{
    if i1 < i2 {
        assert(val_of(bc.chain()[i2].txs[0].id) > val_of(bc.chain()[i2 - 1].txs[0].id));
        lemma_anchor_monotone(bc, i1, i2 - 1);
    }
}

/// Identifier uniqueness across the chain: entries at two distinct
/// positions of the chain never share an identifier.
pub proof fn lemma_chain_ids_unique(bc: Blockchain, i1: int, j1: int, i2: int, j2: int)
    requires
        bc.wf(),
        0 <= i1 < bc.chain().len(),
        0 <= j1 < bc.chain()[i1].txs.len(),
        0 <= i2 < bc.chain().len(),
        0 <= j2 < bc.chain()[i2].txs.len(),
        i1 != i2 || j1 != j2,
    ensures
        bc.chain()[i1].txs[j1].id != bc.chain()[i2].txs[j2].id,
{
    if i1 == i2 {
        assert(val_of(bc.chain()[i1].txs[j1].id) != val_of(bc.chain()[i2].txs[j2].id));
    } else if i1 < i2 {
        assert(val_of(bc.chain()[i1].txs[j1].id) <= val_of(bc.chain()[i1].txs[0].id));
        lemma_anchor_monotone(bc, i1, i2 - 1);
        assert(val_of(bc.chain()[i2].txs[j2].id) > val_of(bc.chain()[i2 - 1].txs[0].id));
    } else {
        assert(val_of(bc.chain()[i2].txs[j2].id) <= val_of(bc.chain()[i2].txs[0].id));
        lemma_anchor_monotone(bc, i2, i1 - 1);
        assert(val_of(bc.chain()[i1].txs[j1].id) > val_of(bc.chain()[i1 - 1].txs[0].id));
    }
}

/// No pending entry shares an identifier with any sealed entry: the
/// pending values lie strictly above every identifier in the chain, so
/// identifiers are unique across pool and chain combined.
pub proof fn lemma_pool_chain_ids_distinct(bc: Blockchain, p: int, i: int, j: int)
    requires
        bc.wf(),
        0 <= p < bc.pool().len(),
        0 <= i < bc.chain().len(),
        0 <= j < bc.chain()[i].txs.len(),
    ensures
        val_of(bc.pool()[p].id) > val_of(bc.chain()[i].txs[j].id),
        bc.pool()[p].id != bc.chain()[i].txs[j].id,
{
    let last = bc.chain().len() - 1;
    assert(bc.chain().last() == bc.chain()[last]);
    assert(val_of(bc.pool()[p].id) == bc.chain_anchor() + 1 + p);
    assert(val_of(bc.chain()[i].txs[j].id) <= val_of(bc.chain()[i].txs[0].id));
    lemma_anchor_monotone(bc, i, last);
}

/// Hash determinism: the content hash is a pure function of the block's
/// fields — two blocks whose fields agree, nonce included, have the same
/// content hash.
pub proof fn lemma_content_hash_deterministic(a: BlockView, b: BlockView)
    requires
        a.number == b.number,
        a.timestamp == b.timestamp,
        a.nonce == b.nonce,
        a.txs =~= b.txs,
        a.prev == b.prev,
    ensures
        spec_hash(a) == spec_hash(b),
{
    assert(a =~= b);
}

} // verus!
