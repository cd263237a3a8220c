//! Encoding a transaction into its wire form.

use vstd::prelude::*;
use crate::transaction::{
    inputs_view, outputs_view, LegacyTransaction, TransactionView, TxInput, TxInputView, TxOutput,
    TxOutputView,
};
use crate::wire::{
    compact_size_bytes, le32_bytes, le64_bytes, unsigned32, write_compact_size, write_le32,
    write_le64,
};

verus! {

/// The wire form of one input.
pub open spec fn input_bytes(input: TxInputView) -> Seq<u8> {
    input.previous_output.txid + le32_bytes(input.previous_output.vout as int)
        + compact_size_bytes(input.script_sig.len() as u64) + input.script_sig + le32_bytes(
        input.sequence as int,
    )
}

/// The wire form of one output.
pub open spec fn output_bytes(output: TxOutputView) -> Seq<u8> {
    le64_bytes(output.value as int) + compact_size_bytes(output.script_pubkey.len() as u64)
        + output.script_pubkey
}

/// The wire forms of the inputs, one after another.
pub open spec fn inputs_bytes(list: Seq<TxInputView>) -> Seq<u8>
    decreases list.len(),
{
    if list.len() == 0 {
        Seq::empty()
    } else {
        inputs_bytes(list.drop_last()) + input_bytes(list.last())
    }
}

/// The wire forms of the outputs, one after another.
pub open spec fn outputs_bytes(list: Seq<TxOutputView>) -> Seq<u8>
    decreases list.len(),
{
    if list.len() == 0 {
        Seq::empty()
    } else {
        outputs_bytes(list.drop_last()) + output_bytes(list.last())
    }
}

/// The wire form up to the lock time: version, input count, inputs,
/// output count, outputs.
#[verifier::opaque]
pub open spec fn body_bytes(tx: TransactionView) -> Seq<u8> {
    le32_bytes(unsigned32(tx.version as int)) + compact_size_bytes(tx.inputs.len() as u64)
        + inputs_bytes(tx.inputs) + compact_size_bytes(tx.outputs.len() as u64) + outputs_bytes(
        tx.outputs,
    )
}

/// The wire form of a transaction: its body, then the lock time.
pub open spec fn transaction_bytes(tx: TransactionView) -> Seq<u8> {
    body_bytes(tx) + le32_bytes(tx.lock_time as int)
}

/// A type that has a wire form.
pub trait BitcoinSerialize {
    /// The value's wire form.
    fn serialize(&self) -> Vec<u8>;
}

/// Appends `bytes` as they are.
fn write_bytes(out: &mut Vec<u8>, bytes: &[u8])
    ensures
        final(out)@ == old(out)@ + bytes@,
{
    let ghost before = out@;
    let mut i: usize = 0;
    while i < bytes.len()
        invariant
            i <= bytes.len(),
            out@ == before + bytes@.subrange(0, i as int),
        decreases bytes.len() - i,
    {
        out.push(bytes[i]);
        i += 1;
        assert(out@ =~= before + bytes@.subrange(0, i as int));
    }
    assert(bytes@.subrange(0, i as int) =~= bytes@);
}

/// Turns a signed number into its 32-bit two's complement pattern.
fn to_pattern(x: i32) -> (pattern: u32)
    ensures
        pattern == unsigned32(x as int),
{
    if x < 0 {
        let low: u32 = (x - i32::MIN) as u32;
        low + 0x8000_0000
    } else {
        x as u32
    }
}

/// Appends the wire form of `input`.
fn write_input(out: &mut Vec<u8>, input: &TxInput)
    ensures
        final(out)@ == old(out)@ + input_bytes(input@),
{
    let ghost before = out@;
    write_bytes(out, input.previous_output.txid.as_slice());
    write_le32(out, input.previous_output.vout);
    write_compact_size(out, input.script_sig.len() as u64);
    write_bytes(out, input.script_sig.as_slice());
    write_le32(out, input.sequence);
    assert(out@ =~= before + input_bytes(input@));
}

/// Appends the wire form of `output`.
fn write_output(out: &mut Vec<u8>, output: &TxOutput)
    ensures
        final(out)@ == old(out)@ + output_bytes(output@),
{
    let ghost before = out@;
    write_le64(out, output.value);
    write_compact_size(out, output.script_pubkey.len() as u64);
    write_bytes(out, output.script_pubkey.as_slice());
    assert(out@ =~= before + output_bytes(output@));
}

impl LegacyTransaction {
    /// Encodes the transaction: little-endian version, compact-size input
    /// count, the inputs, compact-size output count, the outputs, and the
    /// little-endian lock time.
    pub fn encode(&self) -> (out: Vec<u8>)
        ensures
            out@ == transaction_bytes(self@),
    {
        let mut out: Vec<u8> = Vec::new();
        write_le32(&mut out, to_pattern(self.version));
        write_compact_size(&mut out, self.inputs.len() as u64);
        let ghost head = out@;
        let mut i: usize = 0;
        while i < self.inputs.len()
            invariant
                i <= self.inputs.len(),
                out@ == head + inputs_bytes(inputs_view(self.inputs@).subrange(0, i as int)),
            decreases self.inputs.len() - i,
        {
            let ghost so_far = inputs_view(self.inputs@).subrange(0, i as int);
            write_input(&mut out, &self.inputs[i]);
            i += 1;
            proof {
                let now = inputs_view(self.inputs@).subrange(0, i as int);
                assert(now.drop_last() =~= so_far);
                assert(now.last() == self.inputs@[i - 1]@);
                assert(out@ =~= head + inputs_bytes(now));
            }
        }
        assert(inputs_view(self.inputs@).subrange(0, i as int) =~= inputs_view(self.inputs@));
        write_compact_size(&mut out, self.outputs.len() as u64);
        let ghost middle = out@;
        let mut j: usize = 0;
        while j < self.outputs.len()
            invariant
                j <= self.outputs.len(),
                out@ == middle + outputs_bytes(outputs_view(self.outputs@).subrange(0, j as int)),
            decreases self.outputs.len() - j,
        {
            let ghost so_far = outputs_view(self.outputs@).subrange(0, j as int);
            write_output(&mut out, &self.outputs[j]);
            j += 1;
            proof {
                let now = outputs_view(self.outputs@).subrange(0, j as int);
                assert(now.drop_last() =~= so_far);
                assert(now.last() == self.outputs@[j - 1]@);
                assert(out@ =~= middle + outputs_bytes(now));
            }
        }
        assert(outputs_view(self.outputs@).subrange(0, j as int) =~= outputs_view(self.outputs@));
        write_le32(&mut out, self.lock_time);
        proof {
            reveal(body_bytes);
        }
        assert(out@ =~= transaction_bytes(self@));
        out
    }
}

impl BitcoinSerialize for LegacyTransaction {
    /// The transaction's wire form, as `encode` gives it.
    fn serialize(&self) -> (out: Vec<u8>)
        ensures
            out@ == transaction_bytes(self@),
    {
        self.encode()
    }
}

} // verus!
