use std::cell::RefCell;
use std::rc::Rc;
use std::sync::Arc;

use pulstream_core::hierarchy::nest_instructions;
use pulstream_core::instruction::{Instruction, InstructionMetadata, TransactionMetadata};
use pulstream_core::model::{
    CompiledInstruction, InnerInstruction, InnerInstructions, LoadedAddresses, Message,
    MessageHeader, Pubkey, Signature, TransactionStatusMeta, VersionedMessage,
};
use pulstream_core::pipeline::{
    DecodedInstruction, Filter, InstructionDecoder, InstructionPipe, InstructionPipes,
    InstructionProcessorInputType, ProcessError, Processor,
};
use pulstream_core::tracking::{key_is_present, trade_amounts};
use pulstream_core::transformers::extract_instructions_with_metadata;

/// Decodes only instructions whose payload starts with the magic byte 42,
/// and counts every attempt.
struct MagicDecoder {
    attempts: Rc<RefCell<Vec<Vec<u8>>>>,
}

impl InstructionDecoder for MagicDecoder {
    type InstructionType = u8;

    fn decode_instruction(&self, instruction: &Instruction) -> Option<DecodedInstruction<u8>> {
        self.attempts.borrow_mut().push(instruction.data.clone());
        if instruction.data.first() == Some(&42) {
            Some(DecodedInstruction {
                program_id: instruction.program_id,
                data: instruction.data[1],
                accounts: instruction.accounts.clone(),
            })
        } else {
            None
        }
    }
}

/// Records the path of every node it processes; fails on a designated path.
struct RecordingProcessor {
    visited: Rc<RefCell<Vec<Vec<u8>>>>,
    fail_on: Option<Vec<u8>>,
}

impl Processor for RecordingProcessor {
    type InputType = InstructionProcessorInputType<u8>;

    type Metrics = ();

    fn process(&self, data: Self::InputType, _metrics: &()) -> Result<(), ProcessError> {
        let (metadata, _decoded, _children, _raw) = data;
        if self.fail_on.as_deref() == Some(&metadata.absolute_path) {
            return Err(ProcessError { message: format!("boom at {:?}", metadata.absolute_path) });
        }
        self.visited.borrow_mut().push(metadata.absolute_path);
        Ok(())
    }
}

/// Rejects every node whose payload starts with the rejected byte.
struct RejectData {
    rejected: u8,
}

impl Filter for RejectData {
    fn filter(&self, _metadata: &InstructionMetadata, instruction: &Instruction) -> bool {
        instruction.data.first() != Some(&self.rejected)
    }
}

fn key(tag: u8) -> Pubkey {
    let mut bytes = [0u8; 32];
    bytes[0] = tag;
    Pubkey { bytes }
}

/// The scenario transaction: two top-level instructions; instruction 0 has
/// two depth-2 inner instructions, instruction 1 has none. Only instruction
/// 0's children carry the decoder's magic byte.
fn scenario_forest() -> pulstream_core::instruction::NestedInstructions {
    let message = VersionedMessage::Legacy(Message {
        header: MessageHeader {
            num_required_signatures: 1,
            num_readonly_signed_accounts: 0,
            num_readonly_unsigned_accounts: 0,
        },
        account_keys: vec![key(1)],
        instructions: vec![
            CompiledInstruction { program_id_index: 0, accounts: vec![], data: vec![7] },
            CompiledInstruction { program_id_index: 0, accounts: vec![], data: vec![8] },
        ],
    });
    let meta = TransactionStatusMeta {
        inner_instructions: Some(vec![InnerInstructions {
            index: 0,
            instructions: vec![
                InnerInstruction {
                    instruction: CompiledInstruction {
                        program_id_index: 0,
                        accounts: vec![],
                        data: vec![42, 1],
                    },
                    stack_height: Some(2),
                },
                InnerInstruction {
                    instruction: CompiledInstruction {
                        program_id_index: 0,
                        accounts: vec![],
                        data: vec![42, 2],
                    },
                    stack_height: Some(2),
                },
            ],
        }]),
        loaded_addresses: LoadedAddresses { writable: vec![], readonly: vec![] },
    };
    let tm = Arc::new(TransactionMetadata {
        slot: 3,
        signature: Signature { bytes: [0u8; 64] },
        fee_payer: key(1),
        meta: meta.clone(),
        message: message.clone(),
    });
    let flat = extract_instructions_with_metadata(&tm, &message, &meta);
    nest_instructions(flat).unwrap()
}

#[test]
fn scenario_processor_sees_exactly_the_decodable_nodes_in_order() {
    let forest = scenario_forest();
    let visited = Rc::new(RefCell::new(Vec::new()));
    let attempts = Rc::new(RefCell::new(Vec::new()));
    let pipe = InstructionPipe {
        decoder: MagicDecoder { attempts: attempts.clone() },
        processor: RecordingProcessor { visited: visited.clone(), fail_on: None },
        filters: Vec::<RejectData>::new(),
    };
    for root in &forest.0 {
        pipe.run(root, &()).unwrap();
    }
    // every node was offered to the decoder, in pre-order
    assert_eq!(*attempts.borrow(), vec![vec![7], vec![42, 1], vec![42, 2], vec![8]]);
    // exactly the two decodable children were processed, in order
    assert_eq!(*visited.borrow(), vec![vec![0, 0], vec![0, 1]]);
}

#[test]
fn processor_failure_aborts_before_the_remaining_children() {
    let forest = scenario_forest();
    let visited = Rc::new(RefCell::new(Vec::new()));
    let attempts = Rc::new(RefCell::new(Vec::new()));
    let pipe = InstructionPipe {
        decoder: MagicDecoder { attempts: attempts.clone() },
        processor: RecordingProcessor {
            visited: visited.clone(),
            fail_on: Some(vec![0, 0]),
        },
        filters: Vec::<RejectData>::new(),
    };
    let err = pipe.run(&forest.0[0], &()).unwrap_err();
    // the failure propagates verbatim
    assert_eq!(err.message, "boom at [0, 0]");
    // the failing node's sibling was never decoded nor processed
    assert_eq!(*attempts.borrow(), vec![vec![7], vec![42, 1]]);
    assert!(visited.borrow().is_empty());
}

#[test]
fn rejecting_filter_suppresses_processing_but_not_descent() {
    let forest = scenario_forest();
    let visited = Rc::new(RefCell::new(Vec::new()));
    let attempts = Rc::new(RefCell::new(Vec::new()));
    let pipe = InstructionPipe {
        decoder: MagicDecoder { attempts: attempts.clone() },
        processor: RecordingProcessor { visited: visited.clone(), fail_on: None },
        // rejects the first child's payload
        filters: vec![RejectData { rejected: 42 }],
    };
    assert_eq!(pipe.filters().len(), 1);
    for root in &forest.0 {
        pipe.run(root, &()).unwrap();
    }
    // nothing passed the filter, so nothing was processed ...
    assert!(visited.borrow().is_empty());
    // ... but every node, children included, was still offered for decoding
    assert_eq!(*attempts.borrow(), vec![vec![7], vec![42, 1], vec![42, 2], vec![8]]);
}

#[test]
fn empty_filter_list_accepts_everything() {
    let forest = scenario_forest();
    let visited = Rc::new(RefCell::new(Vec::new()));
    let attempts = Rc::new(RefCell::new(Vec::new()));
    let pipe = InstructionPipe {
        decoder: MagicDecoder { attempts },
        processor: RecordingProcessor { visited: visited.clone(), fail_on: None },
        filters: Vec::<RejectData>::new(),
    };
    assert!(pipe.filters().is_empty());
    for root in &forest.0 {
        pipe.run(root, &()).unwrap();
    }
    assert_eq!(visited.borrow().len(), 2);
}

#[test]
fn mint_presence_check() {
    let keys = vec![key(1), key(2), key(3)];
    assert!(key_is_present(&keys, &key(2)));
    assert!(!key_is_present(&keys, &key(9)));
    assert!(!key_is_present(&vec![], &key(1)));
}

#[test]
fn trade_amount_orientation() {
    assert_eq!(trade_amounts(true, 100, 7000), (100, 7000));
    assert_eq!(trade_amounts(false, 100, 7000), (7000, 100));
}
