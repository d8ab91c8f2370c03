use std::sync::Arc;

use pulstream_core::hierarchy::{nest_instructions, NestedBuilder};
use pulstream_core::instruction::{
    Instruction, InstructionMetadata, NestedInstruction, TransactionMetadata,
};
use pulstream_core::model::{
    LoadedAddresses, Message, MessageHeader, Pubkey, Signature, TransactionStatusMeta,
    VersionedMessage,
};

fn shared_metadata() -> Arc<TransactionMetadata> {
    Arc::new(TransactionMetadata {
        slot: 1,
        signature: Signature { bytes: [0u8; 64] },
        fee_payer: Pubkey { bytes: [0u8; 32] },
        meta: TransactionStatusMeta {
            inner_instructions: None,
            loaded_addresses: LoadedAddresses { writable: vec![], readonly: vec![] },
        },
        message: VersionedMessage::Legacy(Message {
            header: MessageHeader {
                num_required_signatures: 0,
                num_readonly_signed_accounts: 0,
                num_readonly_unsigned_accounts: 0,
            },
            account_keys: vec![],
            instructions: vec![],
        }),
    })
}

fn entry(
    tm: &Arc<TransactionMetadata>,
    stack_height: u32,
    index: u32,
    path: Vec<u8>,
    tag: u8,
) -> (InstructionMetadata, Instruction) {
    (
        InstructionMetadata {
            transaction_metadata: tm.clone(),
            stack_height,
            index,
            absolute_path: path,
        },
        Instruction {
            program_id: Pubkey { bytes: [tag; 32] },
            accounts: vec![],
            data: vec![tag],
        },
    )
}

fn flatten(nodes: &[NestedInstruction], out: &mut Vec<(Vec<u8>, u8)>) {
    for node in nodes {
        out.push((node.metadata.absolute_path.clone(), node.instruction.data[0]));
        flatten(&node.inner_instructions.0, out);
    }
}

#[test]
fn scenario_two_roots_with_two_children() {
    let tm = shared_metadata();
    let flat = vec![
        entry(&tm, 1, 0, vec![0], 10),
        entry(&tm, 2, 0, vec![0, 0], 11),
        entry(&tm, 2, 0, vec![0, 1], 12),
        entry(&tm, 1, 1, vec![1], 13),
    ];
    let forest = nest_instructions(flat).unwrap();

    assert_eq!(forest.len(), 2);
    assert!(!forest.is_empty());
    let root0 = &forest.0[0];
    let root1 = &forest.0[1];
    assert_eq!(root0.inner_instructions.len(), 2);
    assert_eq!(root0.inner_instructions.0[0].metadata.absolute_path, vec![0, 0]);
    assert_eq!(root0.inner_instructions.0[1].metadata.absolute_path, vec![0, 1]);
    assert_eq!(root1.inner_instructions.len(), 0);
}

#[test]
fn round_trip_reproduces_the_flat_list() {
    let tm = shared_metadata();
    let flat = vec![
        entry(&tm, 1, 0, vec![0], 1),
        entry(&tm, 2, 0, vec![0, 0], 2),
        entry(&tm, 3, 0, vec![0, 0, 0], 3),
        entry(&tm, 3, 0, vec![0, 0, 1], 4),
        entry(&tm, 2, 0, vec![0, 1], 5),
        entry(&tm, 1, 1, vec![1], 6),
        entry(&tm, 2, 1, vec![1, 0], 7),
    ];
    let expected: Vec<(Vec<u8>, u8)> = flat
        .iter()
        .map(|(md, ix)| (md.absolute_path.clone(), ix.data[0]))
        .collect();

    let forest = nest_instructions(flat).unwrap();
    let mut seen = Vec::new();
    flatten(&forest.0, &mut seen);
    assert_eq!(seen, expected);
}

#[test]
fn forest_size_equals_top_level_count() {
    let tm = shared_metadata();
    let flat = vec![
        entry(&tm, 1, 0, vec![0], 1),
        entry(&tm, 2, 0, vec![0, 0], 2),
        entry(&tm, 1, 1, vec![1], 3),
        entry(&tm, 1, 2, vec![2], 4),
        entry(&tm, 2, 2, vec![2, 0], 5),
        entry(&tm, 3, 2, vec![2, 0, 0], 6),
    ];
    let top_level = flat.iter().filter(|(md, _)| md.stack_height == 1).count();
    let forest = NestedBuilder::new(top_level).build(flat).unwrap();
    assert_eq!(forest.len(), top_level);
}

#[test]
fn forest_size_holds_even_without_pre_order() {
    // The second entry jumps two levels deep with no pending parent; the
    // builder drops it, and the forest still has one root per stack-height-1
    // entry.
    let tm = shared_metadata();
    let flat = vec![
        entry(&tm, 1, 0, vec![0], 1),
        entry(&tm, 3, 0, vec![0, 0, 0], 2),
        entry(&tm, 1, 1, vec![1], 3),
    ];
    let forest = nest_instructions(flat).unwrap();
    assert_eq!(forest.len(), 2);
    assert_eq!(forest.0[0].inner_instructions.len(), 0);
    assert_eq!(forest.0[1].inner_instructions.len(), 0);
}

#[test]
fn zero_stack_height_fails_the_whole_build() {
    let tm = shared_metadata();
    let flat = vec![
        entry(&tm, 1, 0, vec![0], 1),
        entry(&tm, 0, 0, vec![], 2),
        entry(&tm, 1, 1, vec![1], 3),
    ];
    let err = nest_instructions(flat).unwrap_err();
    assert_eq!(err.index, 1);
    assert_eq!(err.stack_height, 0);
}

#[test]
fn excessive_stack_height_fails_the_whole_build() {
    let tm = shared_metadata();
    let flat = vec![
        entry(&tm, 1, 0, vec![0], 1),
        entry(&tm, 6, 0, vec![0, 0, 0, 0, 0, 0], 2),
    ];
    let err = NestedBuilder::new(1).build(flat).unwrap_err();
    assert_eq!(err.index, 1);
    assert_eq!(err.stack_height, 6);
}

#[test]
fn empty_input_builds_an_empty_forest() {
    let forest = nest_instructions(vec![]).unwrap();
    assert_eq!(forest.len(), 0);
    assert!(forest.is_empty());
}

#[test]
fn push_appends_a_root() {
    let tm = shared_metadata();
    let mut forest = nest_instructions(vec![]).unwrap();
    let (md, ix) = entry(&tm, 1, 0, vec![0], 9);
    forest.push(NestedInstruction {
        metadata: md,
        instruction: ix,
        inner_instructions: Default::default(),
    });
    assert_eq!(forest.len(), 1);
}
