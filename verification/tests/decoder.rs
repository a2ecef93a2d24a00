use fedimint_observer::decoder::{
    classify, decode_input, decode_output, decode_transaction, to_msat, DecodeError, Fault, Fields,
    InputPayload, IoRow, ModuleInput, ModuleKind, ModuleOutput, ModuleTable, OutputPayload, Side,
    Subtype, Transaction,
};

fn standard_table() -> ModuleTable {
    let mut table = ModuleTable::new();
    table.push(0, "ln".to_owned());
    table.push(1, "mint".to_owned());
    table.push(2, "wallet".to_owned());
    table.push(3, "meta".to_owned());
    table
}

fn transaction(inputs: Vec<ModuleInput>, outputs: Vec<ModuleOutput>) -> Transaction {
    Transaction { txid: vec![0xab; 32], raw: vec![1, 2, 3], inputs, outputs }
}

#[test]
fn classify_knows_three_kinds() {
    assert_eq!(classify("ln"), ModuleKind::Lightning);
    assert_eq!(classify("mint"), ModuleKind::Mint);
    assert_eq!(classify("wallet"), ModuleKind::Wallet);
    assert_eq!(classify("meta"), ModuleKind::Unrecognized);
    assert_eq!(classify(""), ModuleKind::Unrecognized);
    assert_eq!(classify("LN"), ModuleKind::Unrecognized);
    assert_eq!(classify("not-in-config"), ModuleKind::Unrecognized);
}

#[test]
fn table_resolves_listed_and_unlisted_instances() {
    let table = standard_table();
    assert_eq!(table.resolve(0), "ln");
    assert_eq!(table.resolve(2), "wallet");
    assert_eq!(table.resolve(3), "meta");
    assert_eq!(table.resolve(9), "not-in-config");
    assert_eq!(ModuleTable::new().resolve(0), "not-in-config");
}

#[test]
fn table_first_entry_for_an_instance_wins() {
    let mut table = ModuleTable::new();
    table.push(7, "mint".to_owned());
    table.push(7, "wallet".to_owned());
    assert_eq!(table.resolve(7), "mint");
}

#[test]
fn satoshi_become_millisatoshi() {
    assert_eq!(to_msat(0), Ok(0));
    assert_eq!(to_msat(1), Ok(1000));
    assert_eq!(to_msat(21_000_000 * 100_000_000), Ok(2_100_000_000_000_000_000));
    assert_eq!(to_msat(18_446_744_073_709_551), Ok(18_446_744_073_709_551_000));
    assert_eq!(to_msat(18_446_744_073_709_552), Err(Fault::Overflow));
    assert_eq!(to_msat(u64::MAX), Err(Fault::Overflow));
}

#[test]
fn wallet_output_of_one_satoshi_is_a_thousand_millisatoshi() {
    let table = standard_table();
    let tx = transaction(
        vec![],
        vec![ModuleOutput { instance_id: 2, payload: OutputPayload::Wallet { amount_sat: 1 } }],
    );
    let decoded = decode_transaction(&table, &tx).unwrap();
    assert_eq!(
        decoded.outputs,
        vec![IoRow {
            position: 0,
            kind: "wallet".to_owned(),
            subtype: None,
            amount_msat: Some(1000),
        }]
    );
    assert!(decoded.inputs.is_empty());
}

#[test]
fn wallet_input_is_normalized_too() {
    assert_eq!(
        decode_input(ModuleKind::Wallet, InputPayload::Wallet { value_sat: 5 }),
        Ok(Fields { subtype: None, amount_msat: Some(5000) })
    );
}

#[test]
fn lightning_outputs_tell_contracts_from_control_items() {
    assert_eq!(
        decode_output(
            ModuleKind::Lightning,
            OutputPayload::LightningContract { direction: Subtype::Incoming, amount_msat: 77 }
        ),
        Ok(Fields { subtype: Some(Subtype::Incoming), amount_msat: Some(77) })
    );
    assert_eq!(
        decode_output(
            ModuleKind::Lightning,
            OutputPayload::LightningContract { direction: Subtype::Outgoing, amount_msat: 78 }
        ),
        Ok(Fields { subtype: Some(Subtype::Outgoing), amount_msat: Some(78) })
    );
    assert_eq!(
        decode_output(ModuleKind::Lightning, OutputPayload::LightningOffer),
        Ok(Fields { subtype: None, amount_msat: Some(0) })
    );
    assert_eq!(
        decode_output(ModuleKind::Lightning, OutputPayload::LightningCancelOutgoing),
        Ok(Fields { subtype: None, amount_msat: Some(0) })
    );
}

#[test]
fn subtype_labels() {
    assert_eq!(Subtype::Incoming.label(), "incoming");
    assert_eq!(Subtype::Outgoing.label(), "outgoing");
}

#[test]
fn lightning_and_mint_amounts_are_read_directly() {
    assert_eq!(
        decode_input(ModuleKind::Lightning, InputPayload::Lightning { amount_msat: 42 }),
        Ok(Fields { subtype: None, amount_msat: Some(42) })
    );
    assert_eq!(
        decode_input(ModuleKind::Mint, InputPayload::Mint { amount_msat: u64::MAX }),
        Ok(Fields { subtype: None, amount_msat: Some(u64::MAX) })
    );
    assert_eq!(
        decode_output(ModuleKind::Mint, OutputPayload::Mint { amount_msat: 9 }),
        Ok(Fields { subtype: None, amount_msat: Some(9) })
    );
}

#[test]
fn unrecognized_kind_gives_null_fields_whatever_the_payload() {
    for payload in [
        InputPayload::Opaque,
        InputPayload::Mint { amount_msat: 3 },
        InputPayload::Wallet { value_sat: u64::MAX },
    ] {
        assert_eq!(
            decode_input(ModuleKind::Unrecognized, payload),
            Ok(Fields { subtype: None, amount_msat: None })
        );
    }
    assert_eq!(
        decode_output(ModuleKind::Unrecognized, OutputPayload::LightningOffer),
        Ok(Fields { subtype: None, amount_msat: None })
    );
}

#[test]
fn unknown_module_transaction_ingests_with_kind_recorded() {
    let table = standard_table();
    let tx = transaction(
        vec![
            ModuleInput { instance_id: 3, payload: InputPayload::Opaque },
            ModuleInput { instance_id: 40, payload: InputPayload::Mint { amount_msat: 1 } },
        ],
        vec![ModuleOutput { instance_id: 3, payload: OutputPayload::Opaque }],
    );
    let decoded = decode_transaction(&table, &tx).unwrap();
    assert_eq!(
        decoded.inputs,
        vec![
            IoRow { position: 0, kind: "meta".to_owned(), subtype: None, amount_msat: None },
            IoRow {
                position: 1,
                kind: "not-in-config".to_owned(),
                subtype: None,
                amount_msat: None
            },
        ]
    );
    assert_eq!(
        decoded.outputs,
        vec![IoRow { position: 0, kind: "meta".to_owned(), subtype: None, amount_msat: None }]
    );
    assert_eq!(decoded.txid, tx.txid);
    assert_eq!(decoded.raw, tx.raw);
}

#[test]
fn payload_of_another_module_is_a_mismatch() {
    assert_eq!(
        decode_input(ModuleKind::Lightning, InputPayload::Mint { amount_msat: 1 }),
        Err(Fault::Mismatch)
    );
    assert_eq!(decode_input(ModuleKind::Mint, InputPayload::Opaque), Err(Fault::Mismatch));
    assert_eq!(
        decode_input(ModuleKind::Wallet, InputPayload::Lightning { amount_msat: 1 }),
        Err(Fault::Mismatch)
    );
    assert_eq!(
        decode_output(ModuleKind::Lightning, OutputPayload::Wallet { amount_sat: 1 }),
        Err(Fault::Mismatch)
    );
    assert_eq!(
        decode_output(ModuleKind::Mint, OutputPayload::LightningOffer),
        Err(Fault::Mismatch)
    );
    assert_eq!(decode_output(ModuleKind::Wallet, OutputPayload::Opaque), Err(Fault::Mismatch));
}

#[test]
fn first_fault_fails_the_transaction() {
    let table = standard_table();
    let tx = transaction(
        vec![
            ModuleInput { instance_id: 1, payload: InputPayload::Mint { amount_msat: 5 } },
            ModuleInput { instance_id: 0, payload: InputPayload::Opaque },
            ModuleInput { instance_id: 2, payload: InputPayload::Wallet { value_sat: u64::MAX } },
        ],
        vec![ModuleOutput { instance_id: 1, payload: OutputPayload::Opaque }],
    );
    assert_eq!(
        decode_transaction(&table, &tx),
        Err(DecodeError { side: Side::Input, position: 1, fault: Fault::Mismatch })
    );
}

#[test]
fn output_fault_is_reported_when_inputs_are_sound() {
    let table = standard_table();
    let tx = transaction(
        vec![ModuleInput { instance_id: 1, payload: InputPayload::Mint { amount_msat: 5 } }],
        vec![
            ModuleOutput { instance_id: 1, payload: OutputPayload::Mint { amount_msat: 5 } },
            ModuleOutput { instance_id: 2, payload: OutputPayload::Wallet { amount_sat: u64::MAX } },
        ],
    );
    assert_eq!(
        decode_transaction(&table, &tx),
        Err(DecodeError { side: Side::Output, position: 1, fault: Fault::Overflow })
    );
}

#[test]
fn decoding_twice_gives_identical_rows() {
    let table = standard_table();
    let tx = transaction(
        vec![
            ModuleInput { instance_id: 0, payload: InputPayload::Lightning { amount_msat: 10 } },
            ModuleInput { instance_id: 2, payload: InputPayload::Wallet { value_sat: 3 } },
            ModuleInput { instance_id: 3, payload: InputPayload::Opaque },
        ],
        vec![
            ModuleOutput {
                instance_id: 0,
                payload: OutputPayload::LightningContract {
                    direction: Subtype::Outgoing,
                    amount_msat: 12,
                },
            },
            ModuleOutput { instance_id: 1, payload: OutputPayload::Mint { amount_msat: 2988 } },
        ],
    );
    let first = decode_transaction(&table, &tx).unwrap();
    let second = decode_transaction(&table, &tx).unwrap();
    assert_eq!(first, second);
    assert_eq!(first.inputs.len(), 3);
    assert_eq!(first.inputs[1].amount_msat, Some(3000));
    assert_eq!(first.outputs[0].subtype, Some(Subtype::Outgoing));
    assert_eq!(first.outputs[1].position, 1);
}

#[test]
fn empty_transaction_decodes_to_no_rows() {
    let decoded = decode_transaction(&ModuleTable::new(), &transaction(vec![], vec![])).unwrap();
    assert!(decoded.inputs.is_empty());
    assert!(decoded.outputs.is_empty());
}
