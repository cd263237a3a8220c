//! The transaction, its parts, and the builder that assembles one.

use vstd::prelude::*;

verus! {

/// A reference to one output of an earlier transaction.
#[derive(Debug, Clone)]
pub struct OutPoint {
    /// The identifier of the earlier transaction.
    pub txid: [u8; 32],
    /// The index of the output within it.
    pub vout: u32,
}

/// An input: the output it spends, the script that unlocks it, and a
/// sequence number.
#[derive(Debug, Clone)]
pub struct TxInput {
    pub previous_output: OutPoint,
    pub script_sig: Vec<u8>,
    pub sequence: u32,
}

/// An output: an amount in the smallest unit and the script that locks it.
#[derive(Debug, Clone)]
pub struct TxOutput {
    pub value: u64,
    pub script_pubkey: Vec<u8>,
}

/// A legacy transaction.
#[derive(Debug, Clone)]
pub struct LegacyTransaction {
    pub version: i32,
    pub inputs: Vec<TxInput>,
    pub outputs: Vec<TxOutput>,
    pub lock_time: u32,
}

/// The staging value from which a transaction is built.
pub struct LegacyTransactionBuilder {
    pub version: i32,
    pub inputs: Vec<TxInput>,
    pub outputs: Vec<TxOutput>,
    pub lock_time: u32,
}

/// What an `OutPoint` stands for.
pub struct OutPointView {
    pub txid: Seq<u8>,
    pub vout: u32,
}

/// What a `TxInput` stands for.
pub struct TxInputView {
    pub previous_output: OutPointView,
    pub script_sig: Seq<u8>,
    pub sequence: u32,
}

/// What a `TxOutput` stands for.
pub struct TxOutputView {
    pub value: u64,
    pub script_pubkey: Seq<u8>,
}

/// What a `LegacyTransaction` stands for.
pub struct TransactionView {
    pub version: i32,
    pub inputs: Seq<TxInputView>,
    pub outputs: Seq<TxOutputView>,
    pub lock_time: u32,
}

impl View for OutPoint {
    type V = OutPointView;

    open spec fn view(&self) -> OutPointView {
        OutPointView { txid: self.txid@, vout: self.vout }
    }
}

impl View for TxInput {
    type V = TxInputView;

    open spec fn view(&self) -> TxInputView {
        TxInputView {
            previous_output: self.previous_output@,
            script_sig: self.script_sig@,
            sequence: self.sequence,
        }
    }
}

impl View for TxOutput {
    type V = TxOutputView;

    open spec fn view(&self) -> TxOutputView {
        TxOutputView { value: self.value, script_pubkey: self.script_pubkey@ }
    }
}

/// The inputs of a list, each by its view.
pub open spec fn inputs_view(list: Seq<TxInput>) -> Seq<TxInputView> {
    Seq::new(list.len(), |i: int| list[i]@)
}

/// The outputs of a list, each by its view.
pub open spec fn outputs_view(list: Seq<TxOutput>) -> Seq<TxOutputView> {
    Seq::new(list.len(), |i: int| list[i]@)
}

impl View for LegacyTransaction {
    type V = TransactionView;

    open spec fn view(&self) -> TransactionView {
        TransactionView {
            version: self.version,
            inputs: inputs_view(self.inputs@),
            outputs: outputs_view(self.outputs@),
            lock_time: self.lock_time,
        }
    }
}

impl View for LegacyTransactionBuilder {
    type V = TransactionView;

    open spec fn view(&self) -> TransactionView {
        TransactionView {
            version: self.version,
            inputs: inputs_view(self.inputs@),
            outputs: outputs_view(self.outputs@),
            lock_time: self.lock_time,
        }
    }
}

impl LegacyTransaction {
    /// A fresh builder: version 1, no inputs, no outputs, lock time 0.
    pub fn builder() -> (b: LegacyTransactionBuilder)
        ensures
            b.version == 1,
            b.inputs@ == Seq::<TxInput>::empty(),
            b.outputs@ == Seq::<TxOutput>::empty(),
            b.lock_time == 0,
    {
        LegacyTransactionBuilder::new()
    }
}

impl Default for LegacyTransactionBuilder {
    fn default() -> (b: Self)
        ensures
            b.version == 1,
            b.inputs@ == Seq::<TxInput>::empty(),
            b.outputs@ == Seq::<TxOutput>::empty(),
            b.lock_time == 0,
    {
        LegacyTransactionBuilder {
            version: 1,
            inputs: Vec::new(),
            outputs: Vec::new(),
            lock_time: 0,
        }
    }
}

impl LegacyTransactionBuilder {
    /// A fresh builder: version 1, no inputs, no outputs, lock time 0.
    pub fn new() -> (b: Self)
        ensures
            b.version == 1,
            b.inputs@ == Seq::<TxInput>::empty(),
            b.outputs@ == Seq::<TxOutput>::empty(),
            b.lock_time == 0,
    {
        Self::default()
    }

    /// Sets the version and leaves the rest as it was.
    pub fn version(self, version: i32) -> (b: Self)
        ensures
            b.version == version,
            b.inputs == self.inputs,
            b.outputs == self.outputs,
            b.lock_time == self.lock_time,
    {
        let mut next = self;
        next.version = version;
        next
    }

    /// Appends an input and leaves the rest as it was.
    pub fn add_input(self, input: TxInput) -> (b: Self)
        ensures
            b.version == self.version,
            b.inputs@ == self.inputs@.push(input),
            b.outputs == self.outputs,
            b.lock_time == self.lock_time,
    {
        let mut next = self;
        next.inputs.push(input);
        next
    }

    /// Appends an output and leaves the rest as it was.
    pub fn add_output(self, output: TxOutput) -> (b: Self)
        ensures
            b.version == self.version,
            b.inputs == self.inputs,
            b.outputs@ == self.outputs@.push(output),
            b.lock_time == self.lock_time,
    {
        let mut next = self;
        next.outputs.push(output);
        next
    }

    /// Sets the lock time and leaves the rest as it was.
    pub fn lock_time(self, lock_time: u32) -> (b: Self)
        ensures
            b.version == self.version,
            b.inputs == self.inputs,
            b.outputs == self.outputs,
            b.lock_time == lock_time,
    {
        let mut next = self;
        next.lock_time = lock_time;
        next
    }

    /// Ends the building: the transaction has the builder's fields.
    pub fn build(self) -> (t: LegacyTransaction)
        ensures
            t.version == self.version,
            t.inputs == self.inputs,
            t.outputs == self.outputs,
            t.lock_time == self.lock_time,
            t@ == self@,
    {
        LegacyTransaction {
            version: self.version,
            inputs: self.inputs,
            outputs: self.outputs,
            lock_time: self.lock_time,
        }
    }
}

} // verus!
