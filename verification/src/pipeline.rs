//! The recursive pipeline: a decoder/processor pair bound to pass/fail
//! filters, applied to every node of a nested-instruction tree in pre-order,
//! fail-fast fashion.

use vstd::prelude::*;
use crate::instruction::{flat_of_node, instr_equiv, lemma_flat_forest_contains,
    lemma_flat_node_entries, meta_equiv, AccountMeta, Instruction, InstructionMetadata,
    NestedInstruction, NestedInstructions};
use crate::model::Pubkey;

verus! {

/// The outcome of decoding one instruction into a protocol-specific type
/// `T`: the owning program, the decoded payload, and the involved accounts.
/// Produced per node during a pipeline pass, never stored in the tree.
#[derive(Debug, Clone)]
pub struct DecodedInstruction<T> {
    /// The program that owns the instruction.
    pub program_id: Pubkey,
    /// The decoded payload.
    pub data: T,
    /// The involved accounts.
    pub accounts: Vec<AccountMeta>,
}

/// The capability to interpret a generic instruction as a `T`-payload
/// decoded instruction, or report that it is not applicable. Implemented by
/// protocol-specific decoders outside this library.
pub trait InstructionDecoder {
    /// The decoded payload type.
    type InstructionType;

    /// Attempts to decode; `None` means "not applicable", which skips
    /// processing for the node but not for its children.
    fn decode_instruction(&self, instruction: &Instruction) -> Option<
        DecodedInstruction<Self::InstructionType>,
    >;
}

/// Everything a processor receives for one decoded node: the node's
/// metadata, the decoded instruction, the node's children, and the raw
/// instruction.
pub type InstructionProcessorInputType<T> = (
    InstructionMetadata,
    DecodedInstruction<T>,
    NestedInstructions,
    Instruction,
);

/// A processor failure. It aborts the remainder of the traversal and
/// propagates to the caller verbatim.
#[derive(Debug, Clone, PartialEq, Eq)]
pub struct ProcessError {
    /// What the processor reported.
    pub message: String,
}

/// The capability to consume one decoded node. May fail; failure aborts the
/// traversal. Implemented by sinks outside this library.
pub trait Processor {
    /// What the processor consumes.
    type InputType;

    /// The shared metrics or telemetry handle the surrounding system
    /// injects; opaque to the pipeline, which only passes it through.
    type Metrics;

    /// Consumes one input, or fails.
    fn process(&self, data: Self::InputType, metrics: &Self::Metrics) -> Result<(), ProcessError>;
}

/// The capability to accept or reject an instruction before processing.
/// Implemented outside this library; an empty filter list accepts all.
pub trait Filter {
    /// Whether the node should be processed.
    fn filter(&self, metadata: &InstructionMetadata, instruction: &Instruction) -> bool;
}

/// Whether every filter accepts the node; an empty filter list accepts it.
/// The verdicts are tied to the filters' own calls: acceptance means every
/// filter's call returned true, rejection that some filter's call returned
/// false.
pub fn filters_pass<F: Filter>(
    filters: &Vec<F>,
    metadata: &InstructionMetadata,
    instruction: &Instruction,
) -> (r: bool)
    ensures
        filters@.len() == 0 ==> r,
        r ==> forall|k: int|
            0 <= k < filters@.len() ==> #[trigger] F::filter.ensures(
                (&filters@[k], metadata, instruction),
                true,
            ),
        !r ==> exists|k: int|
            0 <= k < filters@.len() && #[trigger] F::filter.ensures(
                (&filters@[k], metadata, instruction),
                false,
            ),
{
    let n = filters.len();
    let mut k: usize = 0;
    while k < n
        invariant
            0 <= k <= n == filters@.len(),
            forall|j: int|
                0 <= j < k ==> #[trigger] F::filter.ensures(
                    (&filters@[j], metadata, instruction),
                    true,
                ),
        decreases n - k,
    {
        if !filters[k].filter(metadata, instruction) {
            return false;
        }
        k = k + 1;
    }
    true
}

/// Whether the processor is invoked for a node: exactly when decoding
/// succeeded and every filter accepted it.
pub fn should_process<T>(decoded: &Option<DecodedInstruction<T>>, filters_passed: bool) -> (r:
    bool)
    ensures
        r == (decoded is Some && filters_passed),
{
    decoded.is_some() && filters_passed
}

/// A decoder/processor pair bound to a set of filters, generic over the
/// decoded payload type.
pub struct InstructionPipe<D, P, F> {
    /// Decodes each visited node.
    pub decoder: D,
    /// Consumes each decoded, accepted node.
    pub processor: P,
    /// Every filter must accept a node before it is processed; an empty
    /// list accepts all.
    pub filters: Vec<F>,
}

/// A pipeline that can traverse a nested-instruction tree.
pub trait InstructionPipes {
    /// The filter type the pipeline consults.
    type FilterType;

    /// The injected metrics handle, passed through and never inspected.
    type Metrics;

    /// Processes a tree: visits every node in pre-order (parent first,
    /// children in order), decodes it, and, if decoding and all filters
    /// succeed, invokes the processor before descending. A processor
    /// failure aborts the traversal and propagates verbatim; a node that
    /// does not decode, or is rejected by a filter, is skipped but its
    /// children are still visited. The metrics handle is handed through to
    /// the processor untouched.
    fn run(&self, nested_instruction: &NestedInstruction, metrics: &Self::Metrics) -> Result<
        (),
        ProcessError,
    >;

    /// The filters bound to this pipeline.
    fn filters(&self) -> &Vec<Self::FilterType>;
}

impl<D, P, F> InstructionPipes for InstructionPipe<D, P, F> where
    D: InstructionDecoder,
    P: Processor<InputType = InstructionProcessorInputType<D::InstructionType>>,
    F: Filter,
 {
    type FilterType = F;

    type Metrics = P::Metrics;

    /// An error is never invented: the traversal fails with `Err(e)` only
    /// because some processor call on a node of this very tree returned
    /// `Err(e)`, handed the clone of that node's metadata and instruction
    /// (the clone contracts fix what the processor received), and `e` is
    /// propagated verbatim. Filters are consulted per node before its
    /// processor call, so that a rejected node is skipped while its children
    /// are still visited; a caller that keeps the filter decision outside,
    /// as `filters()` allows, leaves this list empty.
    fn run(&self, nested_instruction: &NestedInstruction, metrics: &P::Metrics) -> (r: Result<
        (),
        ProcessError,
    >)
        ensures
            r matches Err(e) ==> exists|
                data: InstructionProcessorInputType<D::InstructionType>,
                entry: (InstructionMetadata, Instruction),
            |
                #![trigger P::process.ensures((&self.processor, data, metrics), Err(e)), flat_of_node(*nested_instruction).contains(entry)]
                {
                    &&& P::process.ensures((&self.processor, data, metrics), Err(e))
                    &&& flat_of_node(*nested_instruction).contains(entry)
                    &&& meta_equiv(data.0, entry.0)
                    &&& instr_equiv(data.3, entry.1)
                },
        decreases *nested_instruction,
    {
        let decoded = self.decoder.decode_instruction(&nested_instruction.instruction);
        let passes = filters_pass(
            &self.filters,
            &nested_instruction.metadata,
            &nested_instruction.instruction,
        );
        if should_process(&decoded, passes) {
            let decoded_instruction = decoded.unwrap();
            let input = (
                nested_instruction.metadata.clone(),
                decoded_instruction,
                nested_instruction.inner_instructions.clone(),
                nested_instruction.instruction.clone(),
            );
            let ghost handed = input;
            let outcome = self.processor.process(input, metrics);
            match outcome {
                Ok(()) => (),
                Err(e) => {
                    proof {
                        let own = (nested_instruction.metadata, nested_instruction.instruction);
                        lemma_flat_node_entries(*nested_instruction);
                        assert(flat_of_node(*nested_instruction).contains(own));
                        assert(P::process.ensures((&self.processor, handed, metrics), Err(e)));
                    }
                    return Err(e);
                },
            }
        }
        let n = nested_instruction.inner_instructions.0.len();
        let mut k: usize = 0;
        while k < n
            invariant
                0 <= k <= n == nested_instruction.inner_instructions.0@.len(),
            decreases n - k,
        {
            proof {
                assert(decreases_to!(
                    *nested_instruction => nested_instruction.inner_instructions.0@[k as int]
                ));
            }
            let child = &nested_instruction.inner_instructions.0[k];
            let outcome = self.run(child, metrics);
            match outcome {
                Ok(()) => (),
                Err(e) => {
                    proof {
                        let (data, entry) = choose|
                            data: InstructionProcessorInputType<D::InstructionType>,
                            entry: (InstructionMetadata, Instruction),
                        |
                            #![trigger P::process.ensures((&self.processor, data, metrics), Err(e)), flat_of_node(*child).contains(entry)]
                            {
                                &&& P::process.ensures((&self.processor, data, metrics), Err(e))
                                &&& flat_of_node(*child).contains(entry)
                                &&& meta_equiv(data.0, entry.0)
                                &&& instr_equiv(data.3, entry.1)
                            };
                        lemma_flat_forest_contains(
                            nested_instruction.inner_instructions.0@,
                            k as int,
                            entry,
                        );
                        lemma_flat_node_entries(*nested_instruction);
                        assert(flat_of_node(*nested_instruction).contains(entry));
                    }
                    return Err(e);
                },
            }
            k = k + 1;
        }
        Ok(())
    }

    fn filters(&self) -> (r: &Vec<F>)
        ensures
            r@ == self.filters@,
    {
        &self.filters
    }
}

} // verus!
