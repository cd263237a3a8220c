//! What holds between encoding and decoding.

use vstd::prelude::*;
use crate::decode::{body_of, input_at, inputs_at, output_at, outputs_at, transaction_of};
use crate::encode::{
    body_bytes, input_bytes, inputs_bytes, output_bytes, outputs_bytes, transaction_bytes,
};
use crate::transaction::{LegacyTransaction, TransactionView, TxInputView, TxOutputView};
use crate::wire::{
    compact_size_at, compact_size_bytes, holds_at, le32_at, le32_bytes, le64_bytes, lemma_compact_size_roundtrip,
    lemma_le32_roundtrip, lemma_le64_roundtrip, signed32, unsigned32,
};

verus! {

/// Whether an input can be written: its transaction id has 32 bytes and
/// its script length fits the 64 bits of a compact size.
pub open spec fn input_fits(input: TxInputView) -> bool {
    &&& input.previous_output.txid.len() == 32
    &&& input.script_sig.len() <= u64::MAX
}

/// Whether an output can be written: its script length fits the 64 bits
/// of a compact size.
pub open spec fn output_fits(output: TxOutputView) -> bool {
    output.script_pubkey.len() <= u64::MAX
}

/// Whether a transaction can be written: its counts fit the 64 bits of a
/// compact size, and so does each of its inputs and outputs.
pub open spec fn transaction_fits(tx: TransactionView) -> bool {
    &&& tx.inputs.len() <= u64::MAX
    &&& tx.outputs.len() <= u64::MAX
    &&& forall|i: int| 0 <= i < tx.inputs.len() ==> input_fits(#[trigger] tx.inputs[i])
    &&& forall|i: int| 0 <= i < tx.outputs.len() ==> output_fits(#[trigger] tx.outputs[i])
}

/// A buffer holds itself at its start.
proof fn lemma_holds_itself(buf: Seq<u8>)
    ensures
        holds_at(buf, 0, buf),
{
    assert(buf.subrange(0, buf.len() as int) =~= buf);
}

/// Where two pieces stand in a buffer one after the other, each of them
/// stands there.
proof fn lemma_parts_hold(buf: Seq<u8>, at: int, first: Seq<u8>, rest: Seq<u8>)
    requires
        holds_at(buf, at, first + rest),
    ensures
        holds_at(buf, at, first),
        holds_at(buf, at + first.len(), rest),
        (first + rest).len() == first.len() + rest.len(),
{
    let both = first + rest;
    let mid: int = first.len() as int;
    let end: int = both.len() as int;
    assert(buf.subrange(at, at + mid) =~= buf.subrange(at, at + end).subrange(0, mid));
    assert(both.subrange(0, mid) =~= first);
    assert(buf.subrange(at + mid, at + end) =~= buf.subrange(at, at + end).subrange(mid, end));
    assert(both.subrange(mid, end) =~= rest);
}

/// An input that was written at `at` is read back from there, and the
/// reader stops right behind it.
pub proof fn lemma_input_roundtrip(buf: Seq<u8>, at: int, input: TxInputView)
    requires
        input_fits(input),
        holds_at(buf, at, input_bytes(input)),
    ensures
        input_at(buf, at) == Some((input, at + input_bytes(input).len())),
{
    let txid = input.previous_output.txid;
    let vout = le32_bytes(input.previous_output.vout as int);
    let script = input.script_sig;
    let size = compact_size_bytes(script.len() as u64);
    let sequence = le32_bytes(input.sequence as int);
    assert(vout.len() == 4 && sequence.len() == 4);
    lemma_parts_hold(buf, at, txid + vout + size + script, sequence);
    lemma_parts_hold(buf, at, txid + vout + size, script);
    lemma_parts_hold(buf, at, txid + vout, size);
    lemma_parts_hold(buf, at, txid, vout);
    let a: int = 36 + (size.len() as int);
    let b: int = a + script.len();
    lemma_le32_roundtrip(buf, at + 32, input.previous_output.vout as int);
    lemma_compact_size_roundtrip(buf, at + 36, script.len() as u64);
    lemma_le32_roundtrip(buf, at + b, input.sequence as int);
}

/// An output that was written at `at` is read back from there, and the
/// reader stops right behind it.
pub proof fn lemma_output_roundtrip(buf: Seq<u8>, at: int, output: TxOutputView)
    requires
        output_fits(output),
        holds_at(buf, at, output_bytes(output)),
    ensures
        output_at(buf, at) == Some((output, at + output_bytes(output).len())),
{
    let value = le64_bytes(output.value as int);
    let script = output.script_pubkey;
    let size = compact_size_bytes(script.len() as u64);
    assert(value.len() == 8);
    lemma_parts_hold(buf, at, value + size, script);
    lemma_parts_hold(buf, at, value, size);
    lemma_le64_roundtrip(buf, at, output.value as int);
    lemma_compact_size_roundtrip(buf, at + 8, script.len() as u64);
}

/// Inputs that were written one after another from `at` on are read back
/// from there, in their order, and the reader stops behind the last.
pub proof fn lemma_inputs_roundtrip(buf: Seq<u8>, at: int, list: Seq<TxInputView>)
    requires
        forall|i: int| 0 <= i < list.len() ==> input_fits(#[trigger] list[i]),
        holds_at(buf, at, inputs_bytes(list)),
    ensures
        inputs_at(buf, at, list.len()) == Some((list, at + inputs_bytes(list).len())),
    decreases list.len(),
{
    if list.len() == 0 {
        assert(list =~= Seq::empty());
    } else {
        let head = list.drop_last();
        let first = inputs_bytes(head);
        lemma_parts_hold(buf, at, first, input_bytes(list.last()));
        lemma_inputs_roundtrip(buf, at, head);
        lemma_input_roundtrip(buf, at + first.len(), list.last());
        assert(head.push(list.last()) =~= list);
    }
}

/// Outputs that were written one after another from `at` on are read
/// back from there, in their order, and the reader stops behind the last.
pub proof fn lemma_outputs_roundtrip(buf: Seq<u8>, at: int, list: Seq<TxOutputView>)
    requires
        forall|i: int| 0 <= i < list.len() ==> output_fits(#[trigger] list[i]),
        holds_at(buf, at, outputs_bytes(list)),
    ensures
        outputs_at(buf, at, list.len()) == Some((list, at + outputs_bytes(list).len())),
    decreases list.len(),
{
    if list.len() == 0 {
        assert(list =~= Seq::empty());
    } else {
        let head = list.drop_last();
        let first = outputs_bytes(head);
        lemma_parts_hold(buf, at, first, output_bytes(list.last()));
        lemma_outputs_roundtrip(buf, at, head);
        lemma_output_roundtrip(buf, at + first.len(), list.last());
        assert(head.push(list.last()) =~= list);
    }
}

/// In any buffer that starts with the body of a transaction, the reader
/// finds that transaction's version pattern, inputs and outputs, and
/// stops right behind the body, whatever follows it.
pub proof fn lemma_body_roundtrip(buf: Seq<u8>, tx: TransactionView)
    requires
        transaction_fits(tx),
        holds_at(buf, 0, body_bytes(tx)),
    ensures
        body_of(buf) == Some((tx.inputs, tx.outputs, body_bytes(tx).len() as int)),
        le32_at(buf, 0) == unsigned32(tx.version as int),
        body_bytes(tx).len() >= 6,
{
    let version = le32_bytes(unsigned32(tx.version as int));
    let count_in = compact_size_bytes(tx.inputs.len() as u64);
    let ins = inputs_bytes(tx.inputs);
    let count_out = compact_size_bytes(tx.outputs.len() as u64);
    let outs = outputs_bytes(tx.outputs);
    assert(body_bytes(tx) == version + count_in + ins + count_out + outs) by {
        reveal(body_bytes);
    }
    assert(version.len() == 4);
    lemma_parts_hold(buf, 0, version + count_in + ins + count_out, outs);
    lemma_parts_hold(buf, 0, version + count_in + ins, count_out);
    lemma_parts_hold(buf, 0, version + count_in, ins);
    lemma_parts_hold(buf, 0, version, count_in);
    let a: int = 4 + (count_in.len() as int);
    let b: int = a + ins.len();
    let c: int = b + count_out.len();
    lemma_le32_roundtrip(buf, 0, unsigned32(tx.version as int));
    lemma_compact_size_roundtrip(buf, 4, tx.inputs.len() as u64);
    lemma_inputs_roundtrip(buf, a, tx.inputs);
    lemma_compact_size_roundtrip(buf, b, tx.outputs.len() as u64);
    lemma_outputs_roundtrip(buf, c, tx.outputs);
    assert(body_of(buf) == Some((tx.inputs, tx.outputs, body_bytes(tx).len() as int))) by {
        reveal(body_of);
    }
}

/// Signed 32-bit numbers and their two's complement patterns correspond.
proof fn lemma_signed_pattern(x: i32)
    ensures
        0 <= unsigned32(x as int) < 0x1_0000_0000,
        signed32(unsigned32(x as int)) == x,
{
}

/// Decoding undoes encoding: the wire form of a transaction that can be
/// written decodes to that transaction.
pub proof fn lemma_decode_encode(tx: TransactionView)
    requires
        transaction_fits(tx),
    ensures
        transaction_of(transaction_bytes(tx)) == Some(tx),
{
    let body = body_bytes(tx);
    let lock = le32_bytes(tx.lock_time as int);
    let buf = body + lock;
    let end: int = body.len() as int;
    assert(lock.len() == 4);
    lemma_holds_itself(buf);
    lemma_parts_hold(buf, 0, body, lock);
    lemma_body_roundtrip(buf, tx);
    lemma_le32_roundtrip(buf, end, tx.lock_time as int);
    lemma_signed_pattern(tx.version);
}

/// The view of a transaction value can always be written.
pub proof fn lemma_view_fits(tx: LegacyTransaction)
    ensures
        transaction_fits(tx@),
{
    assert(tx.inputs.len() == tx.inputs@.len());
    assert(tx.outputs.len() == tx.outputs@.len());
    assert forall|i: int| 0 <= i < tx@.inputs.len() implies input_fits(
        #[trigger] tx@.inputs[i],
    ) by {
        let input = tx.inputs@[i];
        assert(tx@.inputs[i] == input@);
        assert(input.script_sig.len() == input.script_sig@.len());
        assert(input.previous_output.txid@.len() == 32);
    }
    assert forall|i: int| 0 <= i < tx@.outputs.len() implies output_fits(
        #[trigger] tx@.outputs[i],
    ) by {
        let output = tx.outputs@[i];
        assert(tx@.outputs[i] == output@);
        assert(output.script_pubkey.len() == output.script_pubkey@.len());
    }
}

/// What `encode` gives for a transaction value decodes to a transaction
/// with the same view.
pub proof fn lemma_roundtrip(tx: LegacyTransaction)
    ensures
        transaction_of(transaction_bytes(tx@)) == Some(tx@),
{
    lemma_view_fits(tx);
    lemma_decode_encode(tx@);
}

/// A buffer whose fields do not end four bytes before its end is
/// rejected.
proof fn lemma_wrong_end_rejected(buf: Seq<u8>)
    requires
        body_of(buf) is Some,
        body_of(buf).unwrap().2 + 4 != buf.len(),
    ensures
        transaction_of(buf) is None,
{
}

/// Bytes put between the last output and the lock time are not
/// swallowed: the buffer is rejected.
pub proof fn lemma_bytes_before_lock_time_rejected(tx: TransactionView, extra: Seq<u8>)
    requires
        transaction_fits(tx),
        extra.len() > 0,
    ensures
        transaction_of(body_bytes(tx) + extra + le32_bytes(tx.lock_time as int)) is None,
{
    let body = body_bytes(tx);
    let lock = le32_bytes(tx.lock_time as int);
    let buf = body + extra + lock;
    lemma_holds_itself(buf);
    lemma_parts_hold(buf, 0, body + extra, lock);
    lemma_parts_hold(buf, 0, body, extra);
    lemma_body_roundtrip(buf, tx);
    assert(lock.len() == 4);
    lemma_wrong_end_rejected(buf);
}

/// Bytes put behind a whole transaction are not swallowed: the buffer is
/// rejected.
pub proof fn lemma_bytes_behind_rejected(tx: TransactionView, extra: Seq<u8>)
    requires
        transaction_fits(tx),
        extra.len() > 0,
    ensures
        transaction_of(transaction_bytes(tx) + extra) is None,
{
    let body = body_bytes(tx);
    let lock = le32_bytes(tx.lock_time as int);
    let buf = body + lock + extra;
    lemma_holds_itself(buf);
    lemma_parts_hold(buf, 0, body + lock, extra);
    lemma_parts_hold(buf, 0, body, lock);
    lemma_body_roundtrip(buf, tx);
    assert(lock.len() == 4);
    lemma_wrong_end_rejected(buf);
}

/// A buffer agrees with what it starts with, byte for byte and range
/// for range.
proof fn lemma_head_agrees(buf: Seq<u8>, head: Seq<u8>)
    requires
        holds_at(buf, 0, head),
    ensures
        forall|i: int| 0 <= i < head.len() ==> head[i] == buf[i],
        forall|i: int, j: int|
            0 <= i <= j <= head.len() ==> #[trigger] head.subrange(i, j) == buf.subrange(i, j),
{
    assert forall|i: int| 0 <= i < head.len() implies head[i] == buf[i] by {
        assert(buf.subrange(0, head.len() as int)[i] == buf[i]);
    }
    assert forall|i: int, j: int| 0 <= i <= j <= head.len() implies #[trigger] head.subrange(i, j)
        == buf.subrange(i, j) by {
        assert(head.subrange(i, j) =~= buf.subrange(i, j));
    }
}

/// A compact size that is read from the head of a buffer is read from
/// the buffer too.
proof fn lemma_compact_size_extends(buf: Seq<u8>, head: Seq<u8>, at: int)
    requires
        holds_at(buf, 0, head),
        compact_size_at(head, at) is Some,
    ensures
        compact_size_at(buf, at) == compact_size_at(head, at),
{
    lemma_head_agrees(buf, head);
}

/// An input that is read from the head of a buffer is read from the
/// buffer too.
proof fn lemma_input_extends(buf: Seq<u8>, head: Seq<u8>, at: int)
    requires
        holds_at(buf, 0, head),
        input_at(head, at) is Some,
    ensures
        input_at(buf, at) == input_at(head, at),
{
    lemma_head_agrees(buf, head);
    lemma_compact_size_extends(buf, head, at + 36);
}

/// An output that is read from the head of a buffer is read from the
/// buffer too.
proof fn lemma_output_extends(buf: Seq<u8>, head: Seq<u8>, at: int)
    requires
        holds_at(buf, 0, head),
        output_at(head, at) is Some,
    ensures
        output_at(buf, at) == output_at(head, at),
{
    lemma_head_agrees(buf, head);
    lemma_compact_size_extends(buf, head, at + 8);
}

/// Inputs that are read from the head of a buffer are read from the
/// buffer too.
proof fn lemma_inputs_extend(buf: Seq<u8>, head: Seq<u8>, at: int, count: nat)
    requires
        holds_at(buf, 0, head),
        inputs_at(head, at, count) is Some,
    ensures
        inputs_at(buf, at, count) == inputs_at(head, at, count),
    decreases count,
{
    if count > 0 {
        let fewer = (count - 1) as nat;
        lemma_inputs_extend(buf, head, at, fewer);
        lemma_input_extends(buf, head, inputs_at(head, at, fewer).unwrap().1);
    }
}

/// Outputs that are read from the head of a buffer are read from the
/// buffer too.
proof fn lemma_outputs_extend(buf: Seq<u8>, head: Seq<u8>, at: int, count: nat)
    requires
        holds_at(buf, 0, head),
        outputs_at(head, at, count) is Some,
    ensures
        outputs_at(buf, at, count) == outputs_at(head, at, count),
    decreases count,
{
    if count > 0 {
        let fewer = (count - 1) as nat;
        lemma_outputs_extend(buf, head, at, fewer);
        lemma_output_extends(buf, head, outputs_at(head, at, fewer).unwrap().1);
    }
}

/// Fields that are read from the head of a buffer are read from the
/// buffer too, and end at the same place.
proof fn lemma_body_extends(buf: Seq<u8>, head: Seq<u8>)
    requires
        holds_at(buf, 0, head),
        body_of(head) is Some,
    ensures
        body_of(buf) == body_of(head),
{
    reveal(body_of);
    lemma_compact_size_extends(buf, head, 4);
    let (input_count, used_in) = compact_size_at(head, 4).unwrap();
    lemma_inputs_extend(buf, head, 4 + used_in, input_count as nat);
    let mid = inputs_at(head, 4 + used_in, input_count as nat).unwrap().1;
    lemma_compact_size_extends(buf, head, mid);
    let (output_count, used_out) = compact_size_at(head, mid).unwrap();
    lemma_outputs_extend(buf, head, mid + used_out, output_count as nat);
}

/// No transaction's wire form is the start of a longer one: where a
/// buffer decodes, no longer buffer that starts with it does, and no
/// shorter buffer that it starts with does either.
pub proof fn lemma_proper_prefix_rejected(buf: Seq<u8>, head: Seq<u8>)
    requires
        holds_at(buf, 0, head),
        head.len() < buf.len(),
    ensures
        transaction_of(head) is Some ==> transaction_of(buf) is None,
        transaction_of(buf) is Some ==> transaction_of(head) is None,
{
    if transaction_of(head) is Some {
        lemma_body_extends(buf, head);
    }
}

/// A wire form that is cut short anywhere is rejected.
pub proof fn lemma_truncated_rejected(tx: TransactionView, keep: int)
    requires
        transaction_fits(tx),
        0 <= keep < transaction_bytes(tx).len(),
    ensures
        transaction_of(transaction_bytes(tx).subrange(0, keep)) is None,
{
    let buf = transaction_bytes(tx);
    let head = buf.subrange(0, keep);
    assert(buf.subrange(0, head.len() as int) =~= head);
    lemma_decode_encode(tx);
    lemma_proper_prefix_rejected(buf, head);
}

} // verus!
