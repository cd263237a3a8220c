//! Decoding a transaction from its wire form.

use vstd::prelude::*;
use vstd::slice::*;
use crate::error::BitcoinError;
use crate::transaction::{
    inputs_view, outputs_view, LegacyTransaction, OutPoint, OutPointView, TransactionView, TxInput,
    TxInputView, TxOutput, TxOutputView,
};
use crate::wire::{
    compact_size_at, le32_at, le64_at, read_compact_size, read_le32, read_le64, signed32,
};

verus! {

/// The input that starts at `at`, and the position just behind it:
/// 32 bytes of transaction id, a 4-byte output index, a compact-size
/// script length, the script, and a 4-byte sequence number. `None` where
/// any of them runs past the end of `data`.
pub open spec fn input_at(data: Seq<u8>, at: int) -> Option<(TxInputView, int)> {
    if at < 0 || at + 36 > data.len() {
        None
    } else {
        match compact_size_at(data, at + 36) {
            None => None,
            Some((script_len, used)) => {
                let start = at + 36 + used;
                if start + script_len + 4 > data.len() {
                    None
                } else {
                    Some(
                        (
                            TxInputView {
                                previous_output: OutPointView {
                                    txid: data.subrange(at, at + 32),
                                    vout: le32_at(data, at + 32) as u32,
                                },
                                script_sig: data.subrange(start, start + script_len),
                                sequence: le32_at(data, start + script_len) as u32,
                            },
                            start + script_len + 4,
                        ),
                    )
                }
            },
        }
    }
}

/// The output that starts at `at`, and the position just behind it: an
/// 8-byte value, a compact-size script length, and the script. `None`
/// where any of them runs past the end of `data`.
pub open spec fn output_at(data: Seq<u8>, at: int) -> Option<(TxOutputView, int)> {
    if at < 0 || at + 8 > data.len() {
        None
    } else {
        match compact_size_at(data, at + 8) {
            None => None,
            Some((script_len, used)) => {
                let start = at + 8 + used;
                if start + script_len > data.len() {
                    None
                } else {
                    Some(
                        (
                            TxOutputView {
                                value: le64_at(data, at) as u64,
                                script_pubkey: data.subrange(start, start + script_len),
                            },
                            start + script_len,
                        ),
                    )
                }
            },
        }
    }
}

/// The `count` inputs that follow one another from `at` on, and the
/// position behind the last. `None` where one of them is cut short.
pub open spec fn inputs_at(data: Seq<u8>, at: int, count: nat) -> Option<(Seq<TxInputView>, int)>
    decreases count,
{
    if count == 0 {
        Some((Seq::empty(), at))
    } else {
        match inputs_at(data, at, (count - 1) as nat) {
            None => None,
            Some((head, mid)) => match input_at(data, mid) {
                None => None,
                Some((last, end)) => Some((head.push(last), end)),
            },
        }
    }
}

/// The `count` outputs that follow one another from `at` on, and the
/// position behind the last. `None` where one of them is cut short.
pub open spec fn outputs_at(data: Seq<u8>, at: int, count: nat) -> Option<
    (Seq<TxOutputView>, int),
>
    decreases count,
{
    if count == 0 {
        Some((Seq::empty(), at))
    } else {
        match outputs_at(data, at, (count - 1) as nat) {
            None => None,
            Some((head, mid)) => match output_at(data, mid) {
                None => None,
                Some((last, end)) => Some((head.push(last), end)),
            },
        }
    }
}

/// Where the fields behind the version end, and the inputs and outputs
/// found on the way: the input count and the inputs from byte 4 on, then
/// the output count and the outputs. `None` where a field is cut short.
#[verifier::opaque]
pub open spec fn body_of(data: Seq<u8>) -> Option<(Seq<TxInputView>, Seq<TxOutputView>, int)> {
    match compact_size_at(data, 4) {
        None => None,
        Some((input_count, used_in)) => match inputs_at(data, 4 + used_in, input_count as nat) {
            None => None,
            Some((inputs, mid)) => match compact_size_at(data, mid) {
                None => None,
                Some((output_count, used_out)) => match outputs_at(
                    data,
                    mid + used_out,
                    output_count as nat,
                ) {
                    None => None,
                    Some((outputs, end)) => Some((inputs, outputs, end)),
                },
            },
        },
    }
}

/// The transaction that `data` encodes, if it encodes one: at least ten
/// bytes, every field within bounds, and the lock time, which is the last
/// four bytes, right behind the last output.
pub open spec fn transaction_of(data: Seq<u8>) -> Option<TransactionView> {
    if data.len() < 10 {
        None
    } else {
        match body_of(data) {
            None => None,
            Some((inputs, outputs, end)) => if end + 4 == data.len() {
                Some(
                    TransactionView {
                        version: signed32(le32_at(data, 0)) as i32,
                        inputs,
                        outputs,
                        lock_time: le32_at(data, end) as u32,
                    },
                )
            } else {
                None
            },
        }
    }
}

/// A run of inputs that can be read has as many inputs as were asked for.
pub proof fn lemma_inputs_at_count(data: Seq<u8>, at: int, count: nat)
    ensures
        inputs_at(data, at, count) is Some ==> inputs_at(data, at, count).unwrap().0.len()
            == count,
    decreases count,
{
    if count > 0 {
        lemma_inputs_at_count(data, at, (count - 1) as nat);
    }
}

/// A run of outputs that can be read has as many outputs as were asked
/// for.
pub proof fn lemma_outputs_at_count(data: Seq<u8>, at: int, count: nat)
    ensures
        outputs_at(data, at, count) is Some ==> outputs_at(data, at, count).unwrap().0.len()
            == count,
    decreases count,
{
    if count > 0 {
        lemma_outputs_at_count(data, at, (count - 1) as nat);
    }
}

/// A decoded transaction has as many inputs and outputs as the buffer
/// declares: the input count stands at byte 4, the output count right
/// behind the last input.
pub proof fn lemma_decoded_counts(data: Seq<u8>)
    requires
        transaction_of(data) is Some,
    ensures
        compact_size_at(data, 4) is Some,
        transaction_of(data).unwrap().inputs.len() == compact_size_at(data, 4).unwrap().0,
        ({
            let (input_count, used) = compact_size_at(data, 4).unwrap();
            let inputs = inputs_at(data, 4 + used, input_count as nat);
            &&& inputs is Some
            &&& compact_size_at(data, inputs.unwrap().1) is Some
            &&& transaction_of(data).unwrap().outputs.len() == compact_size_at(
                data,
                inputs.unwrap().1,
            ).unwrap().0
        }),
{
    reveal(body_of);
    let (input_count, used_in) = compact_size_at(data, 4).unwrap();
    lemma_inputs_at_count(data, 4 + used_in, input_count as nat);
    let mid = inputs_at(data, 4 + used_in, input_count as nat).unwrap().1;
    let (output_count, used_out) = compact_size_at(data, mid).unwrap();
    lemma_outputs_at_count(data, mid + used_out, output_count as nat);
}

/// The inputs end within the buffer, at or behind the place they start.
pub proof fn lemma_inputs_at_bounds(data: Seq<u8>, at: int, count: nat)
    requires
        0 <= at <= data.len(),
    ensures
        inputs_at(data, at, count) is Some ==> at <= inputs_at(data, at, count).unwrap().1
            <= data.len(),
    decreases count,
{
    if count > 0 {
        lemma_inputs_at_bounds(data, at, (count - 1) as nat);
    }
}

/// The outputs end within the buffer, at or behind the place they start.
pub proof fn lemma_outputs_at_bounds(data: Seq<u8>, at: int, count: nat)
    requires
        0 <= at <= data.len(),
    ensures
        outputs_at(data, at, count) is Some ==> at <= outputs_at(data, at, count).unwrap().1
            <= data.len(),
    decreases count,
{
    if count > 0 {
        lemma_outputs_at_bounds(data, at, (count - 1) as nat);
    }
}

/// Once a shorter run of inputs cannot be read, no longer one can.
pub proof fn lemma_inputs_at_fails_on(data: Seq<u8>, at: int, fewer: nat, count: nat)
    requires
        fewer <= count,
        inputs_at(data, at, fewer) is None,
    ensures
        inputs_at(data, at, count) is None,
    decreases count,
{
    if fewer < count {
        lemma_inputs_at_fails_on(data, at, fewer, (count - 1) as nat);
    }
}

/// Once a shorter run of outputs cannot be read, no longer one can.
pub proof fn lemma_outputs_at_fails_on(data: Seq<u8>, at: int, fewer: nat, count: nat)
    requires
        fewer <= count,
        outputs_at(data, at, fewer) is None,
    ensures
        outputs_at(data, at, count) is None,
    decreases count,
{
    if fewer < count {
        lemma_outputs_at_fails_on(data, at, fewer, (count - 1) as nat);
    }
}

/// Copies the bytes from `from` up to `to` into a vector of their own.
fn copy_range(data: &[u8], from: usize, to: usize) -> (out: Vec<u8>)
    requires
        from <= to <= data.len(),
    ensures
        out@ == data@.subrange(from as int, to as int),
{
    slice_to_vec(slice_subrange(data, from, to))
}

/// Copies the 32 bytes from `at` on into an array.
fn read_txid(data: &[u8], at: usize) -> (txid: [u8; 32])
    requires
        at + 32 <= data.len(),
    ensures
        txid@ == data@.subrange(at as int, at + 32),
{
    let mut txid: [u8; 32] = [0u8; 32];
    let mut i: usize = 0;
    while i < 32
        invariant
            i <= 32,
            at + 32 <= data.len(),
            forall|j: int| 0 <= j < i ==> txid@[j] == data@[at + j],
        decreases 32 - i,
    {
        txid[i] = data[at + i];
        i += 1;
    }
    assert(txid@ =~= data@.subrange(at as int, at + 32));
    txid
}

/// Reads the input that starts at `at`; with it comes the position just
/// behind it.
fn read_input(data: &[u8], at: usize) -> (r: Option<(TxInput, usize)>)
    requires
        at <= data.len(),
    ensures
        match input_at(data@, at as int) {
            Some((input, end)) => r is Some && r.unwrap().0@ == input && r.unwrap().1 == end,
            None => r is None,
        },
{
    let len = data.len();
    if len - at < 36 {
        return None;
    }
    let txid = read_txid(data, at);
    let vout = read_le32(data, at + 32);
    let (script_len, used) = match read_compact_size(data, at + 36) {
        Ok(pair) => pair,
        Err(_) => { return None; },
    };
    let start = at + 36 + used;
    let left = len - start;
    if left < 4 || script_len > (left - 4) as u64 {
        return None;
    }
    let stop = start + script_len as usize;
    let script_sig = copy_range(data, start, stop);
    let sequence = read_le32(data, stop);
    Some((TxInput { previous_output: OutPoint { txid, vout }, script_sig, sequence }, stop + 4))
}

/// Reads the output that starts at `at`; with it comes the position just
/// behind it.
fn read_output(data: &[u8], at: usize) -> (r: Option<(TxOutput, usize)>)
    requires
        at <= data.len(),
    ensures
        match output_at(data@, at as int) {
            Some((output, end)) => r is Some && r.unwrap().0@ == output && r.unwrap().1 == end,
            None => r is None,
        },
{
    let len = data.len();
    if len - at < 8 {
        return None;
    }
    let value = read_le64(data, at);
    let (script_len, used) = match read_compact_size(data, at + 8) {
        Ok(pair) => pair,
        Err(_) => { return None; },
    };
    let start = at + 8 + used;
    let left = len - start;
    if script_len > left as u64 {
        return None;
    }
    let stop = start + script_len as usize;
    let script_pubkey = copy_range(data, start, stop);
    Some((TxOutput { value, script_pubkey }, stop))
}

/// Reads `count` inputs from `at` on; with them comes the position
/// behind the last.
fn read_inputs(data: &[u8], at: usize, count: u64) -> (r: Option<(Vec<TxInput>, usize)>)
    requires
        at <= data.len(),
    ensures
        match inputs_at(data@, at as int, count as nat) {
            Some((inputs, end)) => r is Some && inputs_view(r.unwrap().0@) == inputs
                && r.unwrap().1 == end,
            None => r is None,
        },
{
    let mut inputs: Vec<TxInput> = Vec::new();
    let mut cur: usize = at;
    let mut done: u64 = 0;
    assert(inputs_view(inputs@) =~= Seq::<TxInputView>::empty());
    while done < count
        invariant
            done <= count,
            at <= cur <= data.len(),
            inputs_at(data@, at as int, done as nat) == Some((inputs_view(inputs@), cur as int)),
        decreases count - done,
    {
        match read_input(data, cur) {
            None => {
                proof {
                    lemma_inputs_at_fails_on(data@, at as int, (done + 1) as nat, count as nat);
                }
                return None;
            },
            Some((input, next)) => {
                let ghost before = inputs_view(inputs@);
                inputs.push(input);
                assert(inputs_view(inputs@) =~= before.push(input@));
                cur = next;
                done += 1;
            },
        }
    }
    Some((inputs, cur))
}

/// Reads `count` outputs from `at` on; with them comes the position
/// behind the last.
fn read_outputs(data: &[u8], at: usize, count: u64) -> (r: Option<(Vec<TxOutput>, usize)>)
    requires
        at <= data.len(),
    ensures
        match outputs_at(data@, at as int, count as nat) {
            Some((outputs, end)) => r is Some && outputs_view(r.unwrap().0@) == outputs
                && r.unwrap().1 == end,
            None => r is None,
        },
{
    let mut outputs: Vec<TxOutput> = Vec::new();
    let mut cur: usize = at;
    let mut done: u64 = 0;
    assert(outputs_view(outputs@) =~= Seq::<TxOutputView>::empty());
    while done < count
        invariant
            done <= count,
            at <= cur <= data.len(),
            outputs_at(data@, at as int, done as nat) == Some(
                (outputs_view(outputs@), cur as int),
            ),
        decreases count - done,
    {
        match read_output(data, cur) {
            None => {
                proof {
                    lemma_outputs_at_fails_on(data@, at as int, (done + 1) as nat, count as nat);
                }
                return None;
            },
            Some((output, next)) => {
                let ghost before = outputs_view(outputs@);
                outputs.push(output);
                assert(outputs_view(outputs@) =~= before.push(output@));
                cur = next;
                done += 1;
            },
        }
    }
    Some((outputs, cur))
}

/// Turns a 32-bit pattern into the signed number it stands for.
fn to_signed(pattern: u32) -> (x: i32)
    ensures
        x == signed32(pattern as int),
{
    if pattern >= 0x8000_0000 {
        let low: i32 = (pattern - 0x8000_0000) as i32;
        low + i32::MIN
    } else {
        pattern as i32
    }
}

impl LegacyTransaction {
    /// Decodes a transaction from its wire form.
    ///
    /// Succeeds exactly on the buffers that `transaction_of` accepts, with
    /// the transaction it gives; every other buffer is an
    /// `InvalidTransaction`.
    pub fn decode(data: &[u8]) -> (r: Result<LegacyTransaction, BitcoinError>)
        ensures
            match transaction_of(data@) {
                Some(tx) => r is Ok && r.unwrap()@ == tx,
                None => r == Err::<LegacyTransaction, BitcoinError>(
                    BitcoinError::InvalidTransaction,
                ),
            },
    {
        proof {
            reveal(body_of);
        }
        let len = data.len();
        if len < 10 {
            return Err(BitcoinError::InvalidTransaction);
        }
        let version = to_signed(read_le32(data, 0));
        let (input_count, used_in) = match read_compact_size(data, 4) {
            Ok(pair) => pair,
            Err(_) => { return Err(BitcoinError::InvalidTransaction); },
        };
        let (inputs, mid) = match read_inputs(data, 4 + used_in, input_count) {
            Some(pair) => pair,
            None => { return Err(BitcoinError::InvalidTransaction); },
        };
        proof {
            lemma_inputs_at_bounds(data@, 4 + used_in, input_count as nat);
        }
        let (output_count, used_out) = match read_compact_size(data, mid) {
            Ok(pair) => pair,
            Err(_) => { return Err(BitcoinError::InvalidTransaction); },
        };
        let (outputs, end) = match read_outputs(data, mid + used_out, output_count) {
            Some(pair) => pair,
            None => { return Err(BitcoinError::InvalidTransaction); },
        };
        proof {
            lemma_outputs_at_bounds(data@, mid + used_out, output_count as nat);
        }
        if len - end != 4 {
            return Err(BitcoinError::InvalidTransaction);
        }
        let lock_time = read_le32(data, end);
        Ok(LegacyTransaction { version, inputs, outputs, lock_time })
    }
}

impl<'a> TryFrom<&'a [u8]> for LegacyTransaction {
    type Error = BitcoinError;

    /// Decodes a transaction from its wire form, as `decode` does.
    fn try_from(data: &'a [u8]) -> (r: Result<LegacyTransaction, BitcoinError>)
        ensures
            match transaction_of(data@) {
                Some(tx) => r is Ok && r.unwrap()@ == tx,
                None => r == Err::<LegacyTransaction, BitcoinError>(
                    BitcoinError::InvalidTransaction,
                ),
            },
    {
        LegacyTransaction::decode(data)
    }
}

impl<'a> vstd::std_specs::convert::TryFromSpecImpl<&'a [u8]> for LegacyTransaction {
    /// The conversion is stated by the contract of `try_from` itself, over
    /// views; no value-level function is given for it.
    open spec fn obeys_try_from_spec() -> bool {
        false
    }

    open spec fn try_from_spec(data: &'a [u8]) -> Result<LegacyTransaction, BitcoinError> {
        Err(BitcoinError::InvalidTransaction)
    }
}

} // verus!
