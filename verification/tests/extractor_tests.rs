use std::sync::Arc;

use pulstream_core::instruction::TransactionMetadata;
use pulstream_core::model::{
    CompiledInstruction, InnerInstruction, InnerInstructions, LoadedAddresses, Message,
    MessageHeader, Pubkey, Signature, TransactionStatusMeta, VersionedMessage,
};
use pulstream_core::transformers::extract_instructions_with_metadata;

fn key(tag: u8) -> Pubkey {
    let mut bytes = [0u8; 32];
    bytes[0] = tag;
    Pubkey { bytes }
}

fn header(nrs: u8, nross: u8, nrou: u8) -> MessageHeader {
    MessageHeader {
        num_required_signatures: nrs,
        num_readonly_signed_accounts: nross,
        num_readonly_unsigned_accounts: nrou,
    }
}

fn compiled(program_id_index: u8, accounts: Vec<u8>, data: Vec<u8>) -> CompiledInstruction {
    CompiledInstruction { program_id_index, accounts, data }
}

fn empty_meta() -> TransactionStatusMeta {
    TransactionStatusMeta {
        inner_instructions: None,
        loaded_addresses: LoadedAddresses { writable: vec![], readonly: vec![] },
    }
}

fn tx_metadata(message: &VersionedMessage, meta: &TransactionStatusMeta) -> Arc<TransactionMetadata> {
    Arc::new(TransactionMetadata {
        slot: 7,
        signature: Signature { bytes: [1u8; 64] },
        fee_payer: key(1),
        meta: meta.clone(),
        message: message.clone(),
    })
}

#[test]
fn legacy_single_instruction() {
    let message = VersionedMessage::Legacy(Message {
        header: header(1, 0, 1),
        account_keys: vec![key(1), key(2), key(3)],
        instructions: vec![compiled(2, vec![0, 1], vec![9, 9])],
    });
    let meta = empty_meta();
    let tm = tx_metadata(&message, &meta);
    let out = extract_instructions_with_metadata(&tm, &message, &meta);

    assert_eq!(out.len(), 1);
    let (md, ix) = &out[0];
    assert_eq!(md.stack_height, 1);
    assert_eq!(md.index, 0);
    assert_eq!(md.absolute_path, vec![0u8]);
    assert_eq!(md.transaction_metadata.slot, 7);
    assert_eq!(ix.program_id.bytes, key(3).bytes);
    assert_eq!(ix.data, vec![9, 9]);
    assert_eq!(ix.accounts.len(), 2);
    assert_eq!(ix.accounts[0].pubkey.bytes, key(1).bytes);
    assert_eq!(ix.accounts[1].pubkey.bytes, key(2).bytes);
}

#[test]
fn legacy_writable_and_signer_flags() {
    // 4 keys: idx 0 signs and is writable, idx 1 signs read-only,
    // idx 2 is writable non-signing, idx 3 is read-only non-signing.
    let message = VersionedMessage::Legacy(Message {
        header: header(2, 1, 1),
        account_keys: vec![key(1), key(2), key(3), key(4)],
        instructions: vec![compiled(3, vec![0, 1, 2, 3], vec![])],
    });
    let meta = empty_meta();
    let tm = tx_metadata(&message, &meta);
    let out = extract_instructions_with_metadata(&tm, &message, &meta);

    let accounts = &out[0].1.accounts;
    assert_eq!(accounts.len(), 4);
    assert!(accounts[0].is_writable && accounts[0].is_signer);
    assert!(!accounts[1].is_writable && accounts[1].is_signer);
    assert!(accounts[2].is_writable && !accounts[2].is_signer);
    assert!(!accounts[3].is_writable && !accounts[3].is_signer);
}

#[test]
fn legacy_program_key_write_demotion() {
    // Key 0 would be writable by position, but it is named as a program by
    // an instruction and no upgradeable loader is present: demoted.
    let message = VersionedMessage::Legacy(Message {
        header: header(1, 0, 0),
        account_keys: vec![key(1), key(2)],
        instructions: vec![compiled(0, vec![0, 1], vec![])],
    });
    let meta = empty_meta();
    let tm = tx_metadata(&message, &meta);
    let out = extract_instructions_with_metadata(&tm, &message, &meta);
    assert!(!out[0].1.accounts[0].is_writable);
    assert!(out[0].1.accounts[1].is_writable);
}

#[test]
fn v0_loaded_addresses_extend_table_and_decide_writability() {
    // Static table has 2 keys; one writable and one readonly address are
    // loaded at execution time. Writability follows membership in the
    // loaded writable partition alone.
    let message = VersionedMessage::V0(Message {
        header: header(1, 0, 0),
        account_keys: vec![key(1), key(2)],
        instructions: vec![compiled(3, vec![0, 2, 1], vec![5])],
    });
    let meta = TransactionStatusMeta {
        inner_instructions: None,
        loaded_addresses: LoadedAddresses { writable: vec![key(8)], readonly: vec![key(9)] },
    };
    let tm = tx_metadata(&message, &meta);
    let out = extract_instructions_with_metadata(&tm, &message, &meta);

    let ix = &out[0].1;
    // index 3 resolves past the static keys into the loaded readonly key
    assert_eq!(ix.program_id.bytes, key(9).bytes);
    assert_eq!(ix.accounts.len(), 3);
    assert_eq!(ix.accounts[0].pubkey.bytes, key(1).bytes);
    assert!(!ix.accounts[0].is_writable);
    assert!(ix.accounts[0].is_signer);
    assert_eq!(ix.accounts[1].pubkey.bytes, key(8).bytes);
    assert!(ix.accounts[1].is_writable);
    assert!(!ix.accounts[1].is_signer);
    assert_eq!(ix.accounts[2].pubkey.bytes, key(2).bytes);
    assert!(!ix.accounts[2].is_writable);
}

#[test]
fn unresolvable_references_degrade_without_failing() {
    let message = VersionedMessage::Legacy(Message {
        header: header(1, 0, 0),
        account_keys: vec![key(1)],
        instructions: vec![compiled(200, vec![0, 77], vec![])],
    });
    let meta = empty_meta();
    let tm = tx_metadata(&message, &meta);
    let out = extract_instructions_with_metadata(&tm, &message, &meta);

    let ix = &out[0].1;
    // out-of-range program index resolves to the zero key
    assert_eq!(ix.program_id.bytes, [0u8; 32]);
    // out-of-range account index is dropped, the resolvable one kept
    assert_eq!(ix.accounts.len(), 1);
    assert_eq!(ix.accounts[0].pubkey.bytes, key(1).bytes);
}

#[test]
fn inner_instructions_get_depth_indexed_paths() {
    // Instruction 0 nests two depth-2 siblings; instruction 1 nests none.
    let message = VersionedMessage::Legacy(Message {
        header: header(1, 0, 0),
        account_keys: vec![key(1)],
        instructions: vec![compiled(0, vec![], vec![0]), compiled(0, vec![], vec![1])],
    });
    let meta = TransactionStatusMeta {
        inner_instructions: Some(vec![InnerInstructions {
            index: 0,
            instructions: vec![
                InnerInstruction { instruction: compiled(0, vec![], vec![2]), stack_height: Some(2) },
                InnerInstruction { instruction: compiled(0, vec![], vec![3]), stack_height: Some(2) },
            ],
        }]),
        loaded_addresses: LoadedAddresses { writable: vec![], readonly: vec![] },
    };
    let tm = tx_metadata(&message, &meta);
    let out = extract_instructions_with_metadata(&tm, &message, &meta);

    let summary: Vec<(u32, u32, Vec<u8>)> = out
        .iter()
        .map(|(md, _)| (md.stack_height, md.index, md.absolute_path.clone()))
        .collect();
    assert_eq!(
        summary,
        vec![
            (1, 0, vec![0]),
            (2, 0, vec![0, 0]),
            (2, 0, vec![0, 1]),
            (1, 1, vec![1]),
        ]
    );
}

#[test]
fn deeper_nesting_resets_and_increments_counters() {
    // Depth hints 2, 3, 3, 2 under top-level instruction 0: moving deeper
    // resets the new depth's counter, staying or returning increments it.
    let inners = vec![2u32, 3, 3, 2]
        .into_iter()
        .enumerate()
        .map(|(i, h)| InnerInstruction {
            instruction: compiled(0, vec![], vec![i as u8]),
            stack_height: Some(h),
        })
        .collect();
    let message = VersionedMessage::Legacy(Message {
        header: header(1, 0, 0),
        account_keys: vec![key(1)],
        instructions: vec![compiled(0, vec![], vec![])],
    });
    let meta = TransactionStatusMeta {
        inner_instructions: Some(vec![InnerInstructions { index: 0, instructions: inners }]),
        loaded_addresses: LoadedAddresses { writable: vec![], readonly: vec![] },
    };
    let tm = tx_metadata(&message, &meta);
    let out = extract_instructions_with_metadata(&tm, &message, &meta);

    let paths: Vec<Vec<u8>> = out.iter().map(|(md, _)| md.absolute_path.clone()).collect();
    assert_eq!(
        paths,
        vec![
            vec![0],
            vec![0, 0],
            vec![0, 0, 0],
            vec![0, 0, 1],
            vec![0, 1],
        ]
    );
    // every path is exactly as long as its stack height
    for (md, _) in &out {
        assert_eq!(md.absolute_path.len() as u32, md.stack_height);
        assert!(md.stack_height >= 1 && md.stack_height <= 5);
    }
}

#[test]
fn missing_stack_height_defaults_to_top_level() {
    let message = VersionedMessage::Legacy(Message {
        header: header(1, 0, 0),
        account_keys: vec![key(1)],
        instructions: vec![compiled(0, vec![], vec![])],
    });
    let meta = TransactionStatusMeta {
        inner_instructions: Some(vec![InnerInstructions {
            index: 0,
            instructions: vec![InnerInstruction {
                instruction: compiled(0, vec![], vec![]),
                stack_height: None,
            }],
        }]),
        loaded_addresses: LoadedAddresses { writable: vec![], readonly: vec![] },
    };
    let tm = tx_metadata(&message, &meta);
    let out = extract_instructions_with_metadata(&tm, &message, &meta);
    assert_eq!(out.len(), 2);
    assert_eq!(out[1].0.stack_height, 1);
    assert_eq!(out[1].0.absolute_path.len(), 1);
}
