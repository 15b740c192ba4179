//! The mathematical model of ledger entries and blocks, and the
//! deterministic serialization that the content hash is computed over.
//!
//! A block is serialized as a JSON-shaped text with its fields in a
//! fixed order; only quote and backslash are escaped in string fields,
//! control characters stand as themselves. The content hash of a block
//! is the SHA-256 digest of that text, so equal field values always
//! give equal hashes.

use crate::decimal::{dec_of, push_char, u64_to_dec};
use crate::digest::{sha256_hex_of, spec_meets};
use vstd::prelude::*;
use vstd::string::{StrSliceExecFns, StringExecFns};

verus! {

/// The model of a ledger entry: its identifier and payload text as
/// character sequences, its numeric fields as mathematical integers.
#[verifier::ext_equal]
pub ghost struct TxView {
    pub id: Seq<char>,
    pub timestamp: int,
    pub details: Seq<char>,
    pub amount: int,
}

/// The model of a block: position, creation instant, search nonce, the
/// ordered entries, and the content hash of the preceding block.
#[verifier::ext_equal]
pub ghost struct BlockView {
    pub number: int,
    pub timestamp: int,
    pub nonce: u64,
    pub txs: Seq<TxView>,
    pub prev: Seq<char>,
}

/// The same block with its nonce replaced: the value the mining engine
/// searches over, all other fields fixed.
pub open spec fn with_nonce(b: BlockView, n: u64) -> BlockView {
    BlockView { nonce: n, ..b }
}

/// A string character in serialized form: quote and backslash are
/// preceded by a backslash, every other character stands as itself.
pub open spec fn esc_char(c: char) -> Seq<char> {
    if c == '"' || c == '\\' {
        seq!['\\', c]
    } else {
        seq![c]
    }
}

/// A whole string in serialized form.
pub open spec fn esc(s: Seq<char>) -> Seq<char>
    decreases s.len(),
{
    if s.len() == 0 {
        Seq::empty()
    } else {
        esc(s.drop_last()) + esc_char(s.last())
    }
}

/// A signed number in decimal, a minus sign before the magnitude.
pub open spec fn dec_i64(v: int) -> Seq<char> {
    if v >= 0 {
        dec_of(v as nat)
    } else {
        seq!['-'] + dec_of((-v) as nat)
    }
}

/// The serialized form of one ledger entry.
pub open spec fn ser_tx(t: TxView) -> Seq<char> {
    "{\"transaction_id\":\""@ + esc(t.id) + "\",\"transaction_timestamp\":"@ + dec_i64(t.timestamp)
        + ",\"transaction_details\":\""@ + esc(t.details) + "\",\"amount\":"@ + dec_i64(t.amount)
        + "}"@
}

/// The serialized form of an entry list, comma-separated.
pub open spec fn ser_txs(ts: Seq<TxView>) -> Seq<char>
    decreases ts.len(),
{
    if ts.len() == 0 {
        Seq::empty()
    } else if ts.len() == 1 {
        ser_tx(ts[0])
    } else {
        ser_txs(ts.drop_last()) + ","@ + ser_tx(ts.last())
    }
}

/// The serialized form of a block: every field, in a fixed order.
pub open spec fn ser_block(b: BlockView) -> Seq<char> {
    "{\"block_number\":"@ + dec_of(b.number as nat) + ",\"block_timestamp\":"@ + dec_i64(
        b.timestamp,
    ) + ",\"block_nonce\":"@ + dec_of(b.nonce as nat) + ",\"transaction_list\":["@ + ser_txs(b.txs)
        + "],\"previous_block_hash\":\""@ + esc(b.prev) + "\"}"@
}

/// The content hash of a block: the SHA-256 digest of its serialized form.
pub open spec fn spec_hash(b: BlockView) -> Seq<char> {
    sha256_hex_of(ser_block(b))
}

/// A block whose hash text satisfies the difficulty predicate.
pub open spec fn block_meets(b: BlockView, d: nat) -> bool {
    spec_meets(spec_hash(b), d)
}

/// Appends a number in decimal.
pub(crate) fn append_u64(out: &mut String, n: u64)
    ensures
        final(out)@ == old(out)@ + dec_of(n as nat),
{
    let s = u64_to_dec(n);
    out.append(s.as_str());
}

/// Appends a signed number in decimal.
pub(crate) fn append_i64(out: &mut String, v: i64)
    ensures
        final(out)@ == old(out)@ + dec_i64(v as int),
{
    if v >= 0 {
        append_u64(out, v as u64);
    } else {
        push_char(out, '-');
        let m: u64 = if v == i64::MIN {
            9223372036854775808u64
        } else {
            (-v) as u64
        };
        append_u64(out, m);
        proof {
            assert(old(out)@.push('-') + dec_of(m as nat) =~= old(out)@ + dec_i64(v as int));
        }
    }
}

/// Appends a string in serialized (escaped) form.
pub(crate) fn append_escaped(out: &mut String, s: &str)
    ensures
        final(out)@ == old(out)@ + esc(s@),
{
    let len = s.unicode_len();
    let mut i: usize = 0;
    while i < len
        invariant
            0 <= i <= len,
            len == s@.len(),
            out@ == old(out)@ + esc(s@.take(i as int)),
        decreases len - i,
    {
        let c = s.get_char(i);
        if c == '"' || c == '\\' {
            push_char(out, '\\');
            push_char(out, c);
        } else {
            push_char(out, c);
        }
        proof {
            assert(s@.take(i + 1).drop_last() =~= s@.take(i as int));
            assert(s@.take(i + 1).last() == s@[i as int]);
            assert(out@ =~= old(out)@ + esc(s@.take(i + 1)));
        }
        i = i + 1;
    }
    proof {
        assert(s@.take(len as int) =~= s@);
    }
}

} // verus!
