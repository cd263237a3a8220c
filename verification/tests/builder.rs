use legacy_tx::{LegacyTransaction, LegacyTransactionBuilder, OutPoint, Point, TxInput, TxOutput};

fn sample_input() -> TxInput {
    TxInput {
        previous_output: OutPoint { txid: [7; 32], vout: 3 },
        script_sig: vec![1, 2, 3],
        sequence: 0xffff_ffff,
    }
}

fn sample_output() -> TxOutput {
    TxOutput { value: 5000, script_pubkey: vec![0x76, 0xa9] }
}

#[test]
fn builder_defaults() {
    let tx = LegacyTransaction::builder().build();
    assert_eq!(tx.version, 1);
    assert!(tx.inputs.is_empty());
    assert!(tx.outputs.is_empty());
    assert_eq!(tx.lock_time, 0);
}

#[test]
fn builder_new_and_default_agree() {
    let a = LegacyTransactionBuilder::new();
    let b = LegacyTransactionBuilder::default();
    assert_eq!(a.version, 1);
    assert_eq!(b.version, 1);
    assert_eq!(a.inputs.len(), 0);
    assert_eq!(b.inputs.len(), 0);
    assert_eq!(a.outputs.len(), 0);
    assert_eq!(b.outputs.len(), 0);
    assert_eq!(a.lock_time, 0);
    assert_eq!(b.lock_time, 0);
}

#[test]
fn builder_chaining() {
    let tx = LegacyTransaction::builder()
        .version(2)
        .add_input(sample_input())
        .add_output(sample_output())
        .lock_time(500)
        .build();
    assert_eq!(tx.version, 2);
    assert_eq!(tx.lock_time, 500);
    assert_eq!(tx.inputs.len(), 1);
    assert_eq!(tx.inputs[0].previous_output.txid, [7; 32]);
    assert_eq!(tx.inputs[0].previous_output.vout, 3);
    assert_eq!(tx.inputs[0].script_sig, vec![1, 2, 3]);
    assert_eq!(tx.inputs[0].sequence, 0xffff_ffff);
    assert_eq!(tx.outputs.len(), 1);
    assert_eq!(tx.outputs[0].value, 5000);
    assert_eq!(tx.outputs[0].script_pubkey, vec![0x76, 0xa9]);
}

#[test]
fn builder_keeps_the_order_of_additions() {
    let mut second = sample_input();
    second.sequence = 9;
    let tx = LegacyTransaction::builder()
        .add_input(sample_input())
        .add_input(second)
        .add_output(TxOutput { value: 1, script_pubkey: vec![] })
        .add_output(TxOutput { value: 2, script_pubkey: vec![] })
        .add_output(TxOutput { value: 3, script_pubkey: vec![] })
        .build();
    assert_eq!(tx.inputs.len(), 2);
    assert_eq!(tx.inputs[0].sequence, 0xffff_ffff);
    assert_eq!(tx.inputs[1].sequence, 9);
    assert_eq!(tx.outputs.len(), 3);
    assert_eq!(tx.outputs[0].value, 1);
    assert_eq!(tx.outputs[1].value, 2);
    assert_eq!(tx.outputs[2].value, 3);
}

#[test]
fn builder_setters_touch_one_field() {
    let b = LegacyTransaction::builder().add_input(sample_input()).lock_time(77);
    let b = b.version(-4);
    assert_eq!(b.version, -4);
    assert_eq!(b.lock_time, 77);
    assert_eq!(b.inputs.len(), 1);
    assert_eq!(b.outputs.len(), 0);
    let b = b.lock_time(78);
    assert_eq!(b.version, -4);
    assert_eq!(b.lock_time, 78);
    assert_eq!(b.inputs.len(), 1);
}

#[test]
fn point_new_keeps_coordinates() {
    let p = Point::new(3u8, 4u8);
    assert_eq!(p.x, 3);
    assert_eq!(p.y, 4);
    assert_eq!(p, Point { x: 3, y: 4 });
    assert_ne!(p, Point::new(4, 3));
    let q = Point::new("a".to_string(), "b".to_string());
    assert_eq!(q.clone(), q);
}
