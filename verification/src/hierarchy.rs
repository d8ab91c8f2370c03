//! The hierarchy builder: turns the flat, depth-annotated instruction list
//! into a forest of [`NestedInstruction`] in one linear pass.
//!
//! The builder keeps the rightmost path of the forest under construction as
//! an owned stack of nodes, one per depth level (the "current tail per
//! level"). A new entry at stack height `h` completes every pending node at
//! depth `h` or deeper (each popped node is attached to its parent, or to the
//! forest when it is a root), then starts a new pending node at depth `h`.

use vstd::prelude::*;
use crate::instruction::{
    flat_of_forest, flat_of_node, forest_well_shaped, lemma_flat_node, lemma_flat_push,
    node_well_shaped, Instruction, InstructionMetadata, InstructionsWithMetadata,
    NestedInstruction, NestedInstructions, MAX_INSTRUCTION_STACK_DEPTH,
};

verus! {

/// Whether a recorded stack height lies in the range the runtime can produce.
pub open spec fn valid_stack_height(h: int) -> bool {
    1 <= h <= MAX_INSTRUCTION_STACK_DEPTH as int
}

/// The stack height recorded in one flat-list entry.
pub open spec fn entry_height(e: (InstructionMetadata, Instruction)) -> int {
    e.0.stack_height as int
}

/// Whether every entry of a flat list records a stack height in range.
pub open spec fn all_heights_valid(s: Seq<(InstructionMetadata, Instruction)>) -> bool {
    forall|i: int| 0 <= i < s.len() ==> valid_stack_height(entry_height(#[trigger] s[i]))
}

/// Whether a flat list is in execution pre-order: it opens at the top level
/// and never jumps more than one level deeper from one entry to the next.
/// The protocol guarantees this of every conformant transaction record.
pub open spec fn pre_order(s: Seq<(InstructionMetadata, Instruction)>) -> bool {
    &&& all_heights_valid(s)
    &&& (s.len() > 0 ==> entry_height(s[0]) == 1)
    &&& forall|i: int| 1 <= i < s.len() ==> entry_height(#[trigger] s[i]) <= entry_height(s[i - 1]) + 1
}

/// The number of top-level entries (stack height 1) in a flat list.
pub open spec fn count_top_level(s: Seq<(InstructionMetadata, Instruction)>) -> int
    decreases s,
{
    if s.len() == 0 {
        0
    } else {
        count_top_level(s.drop_last()) + if entry_height(s.last()) == 1 {
            1int
        } else {
            0int
        }
    }
}

/// A malformed flat list: the entry at `index` records a stack height
/// outside `1..=MAX_INSTRUCTION_STACK_DEPTH`, so the whole build fails.
#[derive(Debug, Clone, Copy, PartialEq, Eq, Structural)]
pub struct HierarchyError {
    /// Position of the offending entry in the flat list.
    pub index: usize,
    /// The out-of-range stack height it recorded.
    pub stack_height: u32,
}

/// Completes every pending node at depth `target` (0-based) or deeper: each
/// is attached as the last child of its parent, or appended to the forest
/// when it has no parent. The combined pre-order flattening of forest and
/// pending stack is unchanged, and consistent labeling is preserved.
fn pop_levels(roots: &mut Vec<NestedInstruction>, spine: &mut Vec<NestedInstruction>, target: usize)
    ensures
        final(spine)@.len() == if old(spine)@.len() <= target {
            old(spine)@.len() as int
        } else {
            target as int
        },
        final(roots)@.len() == old(roots)@.len() + if target == 0 && old(spine)@.len() > 0 {
            1int
        } else {
            0int
        },
        flat_of_forest(final(roots)@) + flat_of_forest(final(spine)@) == flat_of_forest(
            old(roots)@,
        ) + flat_of_forest(old(spine)@),
        (forall|j: int|
            0 <= j < old(spine)@.len() ==> node_well_shaped(#[trigger] old(spine)@[j], j + 1))
            && forest_well_shaped(old(roots)@) ==> {
            &&& forall|j: int|
                0 <= j < final(spine)@.len() ==> node_well_shaped(#[trigger] final(spine)@[j], j + 1)
            &&& forest_well_shaped(final(roots)@)
        },
{
    while spine.len() > target
        invariant
            old(spine)@.len() <= target ==> spine@.len() == old(spine)@.len(),
            old(spine)@.len() > target ==> target <= spine@.len() <= old(spine)@.len(),
            roots@.len() == old(roots)@.len() + if spine@.len() == 0 && old(spine)@.len() > 0 {
                1int
            } else {
                0int
            },
            flat_of_forest(roots@) + flat_of_forest(spine@) == flat_of_forest(old(roots)@)
                + flat_of_forest(old(spine)@),
            (forall|j: int|
                0 <= j < old(spine)@.len() ==> node_well_shaped(#[trigger] old(spine)@[j], j + 1))
                && forest_well_shaped(old(roots)@) ==> {
                &&& forall|j: int|
                    0 <= j < spine@.len() ==> node_well_shaped(#[trigger] spine@[j], j + 1)
                &&& forest_well_shaped(roots@)
            },
        decreases spine.len(),
    {
        let ghost pre_roots = roots@;
        let ghost pre_spine = spine@;
        let n = spine.pop().unwrap();
        proof {
            assert(pre_spine =~= pre_spine.drop_last().push(n));
            lemma_flat_push(pre_spine.drop_last(), n);
        }
        if spine.len() == 0 {
            proof {
                assert(pre_spine.drop_last().len() == 0);
                assert(flat_of_forest(pre_spine.drop_last()) =~= Seq::<(
                    InstructionMetadata,
                    Instruction,
                )>::empty());
                lemma_flat_push(pre_roots, n);
            }
            roots.push(n);
            proof {
                assert(flat_of_forest(spine@) =~= Seq::<(InstructionMetadata, Instruction)>::empty());
                assert(flat_of_forest(roots@) + flat_of_forest(spine@) =~= flat_of_forest(pre_roots)
                    + flat_of_forest(pre_spine));
            }
        } else {
            let ghost mid_spine = spine@;
            let mut parent = spine.pop().unwrap();
            proof {
                assert(mid_spine =~= mid_spine.drop_last().push(parent));
                lemma_flat_push(mid_spine.drop_last(), parent);
            }
            let ghost old_parent = parent;
            parent.inner_instructions.0.push(n);
            proof {
                lemma_flat_push(old_parent.inner_instructions.0@, n);
                lemma_flat_node(old_parent);
                lemma_flat_node(parent);
                assert(flat_of_node(parent) =~= flat_of_node(old_parent) + flat_of_node(n));
            }
            spine.push(parent);
            proof {
                lemma_flat_push(mid_spine.drop_last(), parent);
                assert(flat_of_forest(roots@) + flat_of_forest(spine@) =~= flat_of_forest(pre_roots)
                    + flat_of_forest(pre_spine));
            }
        }
    }
}

/// Builds the nested-instruction forest from a flat, depth-annotated list.
///
/// The list must already be in execution pre-order, which the protocol
/// guarantees; the builder trusts that order. A stack height outside
/// `1..=MAX_INSTRUCTION_STACK_DEPTH` is a contract violation by the caller
/// and fails the whole build (continuing would misplace nodes).
pub struct NestedBuilder {
    capacity: usize,
}

impl NestedBuilder {
    /// The number of root nodes the top-level container is pre-sized for.
    pub closed spec fn spec_capacity(&self) -> usize {
        self.capacity
    }

    /// Prepares a builder whose top-level container is pre-sized for
    /// `capacity` root nodes, so that a conforming build never regrows it.
    pub fn new(capacity: usize) -> (r: Self)
        ensures
            r.spec_capacity() == capacity,
    {
        NestedBuilder { capacity }
    }

    /// Consumes the flat list and produces the forest.
    ///
    /// Fails, reporting the first offending entry, exactly when some entry
    /// records an out-of-range stack height. For pre-order input (which the
    /// protocol guarantees), the forest's pre-order flattening reproduces
    /// the input exactly and every node is consistently labeled.
    #[verifier::rlimit(100)]
    #[verifier::loop_isolation(false)]
    pub fn build(self, instructions: InstructionsWithMetadata) -> (r: Result<
        NestedInstructions,
        HierarchyError,
    >)
        ensures
            match r {
                Ok(forest) => {
                    &&& all_heights_valid(instructions@)
                    &&& forest.0@.len() == count_top_level(instructions@)
                    &&& pre_order(instructions@) ==> {
                        &&& flat_of_forest(forest.0@) == instructions@
                        &&& forest_well_shaped(forest.0@)
                    }
                },
                Err(err) => {
                    &&& err.index < instructions@.len()
                    &&& instructions@[err.index as int].0.stack_height == err.stack_height
                    &&& !valid_stack_height(err.stack_height as int)
                    &&& forall|j: int|
                        0 <= j < err.index ==> valid_stack_height(entry_height(
                            #[trigger] instructions@[j],
                        ))
                },
            },
    {
        let ghost entries = instructions@;
        let n = instructions.len();
        let mut roots: Vec<NestedInstruction> = Vec::with_capacity(self.capacity);
        let mut spine: Vec<NestedInstruction> = Vec::new();
        let mut rev = into_reversed(instructions);
        proof {
            assert(flat_of_forest(roots@) =~= Seq::<(InstructionMetadata, Instruction)>::empty());
            assert(flat_of_forest(roots@) + flat_of_forest(spine@) =~= entries.take(0));
            assert(entries.take(0) =~= Seq::<(InstructionMetadata, Instruction)>::empty());
            assert(count_top_level(entries.take(0)) == 0);
        }
        while rev.len() > 0
            invariant
                n == entries.len(),
                rev@.len() <= n,
                forall|j: int| 0 <= j < rev@.len() ==> rev@[j] == entries[entries.len() - 1 - j],
                forall|j: int|
                    0 <= j < n - rev@.len() ==> valid_stack_height(entry_height(
                        #[trigger] entries[j],
                    )),
                roots@.len() + (if spine@.len() > 0 {
                    1int
                } else {
                    0int
                }) == count_top_level(entries.take(n - rev@.len())),
                pre_order(entries) ==> {
                    &&& flat_of_forest(roots@) + flat_of_forest(spine@) == entries.take(
                        n - rev@.len(),
                    )
                    &&& spine@.len() == (if rev@.len() == n {
                        0int
                    } else {
                        entry_height(entries[n - rev@.len() - 1])
                    })
                    &&& forall|j: int|
                        0 <= j < spine@.len() ==> node_well_shaped(#[trigger] spine@[j], j + 1)
                    &&& forest_well_shaped(roots@)
                },
            decreases rev@.len(),
        {
            let e = rev.pop().unwrap();
            let idx = n - rev.len() - 1;
            proof {
                assert(e == entries[idx as int]);
            }
            let (metadata, instr) = e;
            let h32 = metadata.stack_height;
            if h32 < 1 || h32 > MAX_INSTRUCTION_STACK_DEPTH as u32 {
                return Err(HierarchyError { index: idx, stack_height: h32 });
            }
            let h = h32 as usize;
            let ghost pre_roots = roots@;
            let ghost pre_spine = spine@;
            pop_levels(&mut roots, &mut spine, h - 1);
            proof {
                assert(entries.take(idx + 1int).drop_last() =~= entries.take(idx as int));
                assert(entries.take(idx + 1int).last() == entries[idx as int]);
            }
            if spine.len() == h - 1 {
                let node = NestedInstruction {
                    metadata,
                    instruction: instr,
                    inner_instructions: NestedInstructions(Vec::new()),
                };
                proof {
                    assert((node.metadata, node.instruction) == e);
                    assert(node_well_shaped(node, h as int));
                    lemma_flat_push(spine@, node);
                    lemma_flat_node(node);
                    assert(flat_of_node(node) =~= seq![e]);
                }
                spine.push(node);
                proof {
                    if pre_order(entries) {
                        assert(entries.take(idx + 1int) =~= entries.take(idx as int).push(e));
                        assert(flat_of_forest(roots@) + flat_of_forest(spine@) =~= entries.take(
                            idx + 1int,
                        ));
                    }
                }
            } else {
                proof {
                    if pre_order(entries) {
                        // Pre-order input never reaches this arm: the new
                        // entry is at most one level deeper than the pending
                        // stack, so the parent always exists.
                        if idx == 0 {
                            assert(entry_height(entries[0]) == 1);
                            assert(false);
                        } else {
                            assert(entry_height(entries[idx as int]) <= entry_height(
                                entries[idx - 1int],
                            ) + 1);
                            assert(false);
                        }
                    }
                }
            }
        }
        let ghost pre_roots = roots@;
        let ghost pre_spine = spine@;
        pop_levels(&mut roots, &mut spine, 0);
        proof {
            assert(flat_of_forest(spine@) =~= Seq::<(InstructionMetadata, Instruction)>::empty());
            assert(entries.take(entries.len() as int) =~= entries);
            if pre_order(entries) {
                assert(flat_of_forest(roots@) =~= entries);
            }
        }
        Ok(NestedInstructions(roots))
    }
}

/// Builds the forest from a flat list, pre-sizing the top-level container
/// with the number of top-level entries so that only child lists ever grow
/// during the pass.
pub fn nest_instructions(instructions: InstructionsWithMetadata) -> (r: Result<
    NestedInstructions,
    HierarchyError,
>)
    ensures
        match r {
            Ok(forest) => {
                &&& all_heights_valid(instructions@)
                &&& pre_order(instructions@) ==> {
                    &&& flat_of_forest(forest.0@) == instructions@
                    &&& forest_well_shaped(forest.0@)
                }
            },
            Err(err) => {
                &&& err.index < instructions@.len()
                &&& instructions@[err.index as int].0.stack_height == err.stack_height
                &&& !valid_stack_height(err.stack_height as int)
                &&& forall|j: int|
                    0 <= j < err.index ==> valid_stack_height(entry_height(
                        #[trigger] instructions@[j],
                    ))
            },
        },
{
    let mut estimated_capacity: usize = 0;
    let n = instructions.len();
    let mut i: usize = 0;
    while i < n
        invariant
            n == instructions@.len(),
            0 <= i <= n,
            estimated_capacity <= i,
        decreases n - i,
    {
        if instructions[i].0.stack_height == 1 {
            estimated_capacity = estimated_capacity + 1;
        }
        i = i + 1;
    }
    NestedBuilder::new(estimated_capacity).build(instructions)
}

/// A consistently labeled node has consistently labeled children, one level
/// deeper.
proof fn lemma_children_shaped(n: NestedInstruction, h: int)
    requires
        node_well_shaped(n, h),
    ensures
        n.metadata.stack_height == h,
        forall|i: int|
            0 <= i < n.inner_instructions.0@.len() ==> node_well_shaped(
                #[trigger] n.inner_instructions.0@[i],
                h + 1,
            ),
{
}

/// Splitting a flat list anywhere splits its top-level count.
proof fn lemma_count_concat(
    a: Seq<(InstructionMetadata, Instruction)>,
    b: Seq<(InstructionMetadata, Instruction)>,
)
    ensures
        count_top_level(a + b) == count_top_level(a) + count_top_level(b),
    decreases b.len(),
{
    if b.len() == 0 {
        assert(a + b =~= a);
    } else {
        assert((a + b).drop_last() =~= a + b.drop_last());
        lemma_count_concat(a, b.drop_last());
    }
}

/// No entry of a consistently labeled forest rooted below the top level
/// records stack height 1.
proof fn lemma_count_deep(s: Seq<NestedInstruction>, h: int)
    requires
        2 <= h,
        forall|i: int| 0 <= i < s.len() ==> node_well_shaped(#[trigger] s[i], h),
    ensures
        count_top_level(flat_of_forest(s)) == 0,
    decreases s,
{
    if s.len() > 0 {
        let e = (s[0].metadata, s[0].instruction);
        assert(node_well_shaped(s[0], h));
        lemma_children_shaped(s[0], h);
        assert forall|i: int|
            0 <= i < s.drop_first().len() implies node_well_shaped(
            #[trigger] s.drop_first()[i],
            h,
        ) by {
            assert(s.drop_first()[i] == s[i + 1]);
        }
        lemma_count_deep(s[0].inner_instructions.0@, h + 1);
        lemma_count_deep(s.drop_first(), h);
        assert(seq![e].drop_last() =~= Seq::<(InstructionMetadata, Instruction)>::empty());
        assert(entry_height(seq![e].last()) == h);
        assert(count_top_level(seq![e]) == 0) by {
            reveal_with_fuel(count_top_level, 2);
        }
        lemma_count_concat(seq![e], flat_of_forest(s[0].inner_instructions.0@));
        lemma_count_concat(
            seq![e] + flat_of_forest(s[0].inner_instructions.0@),
            flat_of_forest(s.drop_first()),
        );
    }
}

/// Forest size law: the pre-order flattening of a consistently labeled
/// forest carries exactly one top-level entry per tree, so the number of
/// trees the builder returns equals the number of stack-height-1 entries in
/// the flat input it consumed.
pub proof fn lemma_forest_size(s: Seq<NestedInstruction>)
    requires
        forest_well_shaped(s),
    ensures
        count_top_level(flat_of_forest(s)) == s.len(),
    decreases s,
{
    if s.len() > 0 {
        let e = (s[0].metadata, s[0].instruction);
        assert(node_well_shaped(s[0], 1));
        lemma_children_shaped(s[0], 1);
        assert forall|i: int|
            0 <= i < s.drop_first().len() implies node_well_shaped(
            #[trigger] s.drop_first()[i],
            1,
        ) by {
            assert(s.drop_first()[i] == s[i + 1]);
        }
        lemma_count_deep(s[0].inner_instructions.0@, 2);
        lemma_forest_size(s.drop_first());
        assert(seq![e].drop_last() =~= Seq::<(InstructionMetadata, Instruction)>::empty());
        assert(entry_height(seq![e].last()) == 1);
        assert(count_top_level(seq![e]) == 1) by {
            reveal_with_fuel(count_top_level, 2);
        }
        lemma_count_concat(seq![e], flat_of_forest(s[0].inner_instructions.0@));
        lemma_count_concat(
            seq![e] + flat_of_forest(s[0].inner_instructions.0@),
            flat_of_forest(s.drop_first()),
        );
    }
}

/// Whether `n` is one of the nodes of the forest, at any depth.
pub open spec fn forest_contains(s: Seq<NestedInstruction>, n: NestedInstruction) -> bool
    decreases s,
{
    if s.len() == 0 {
        false
    } else {
        ||| s[0] == n
        ||| forest_contains(s[0].inner_instructions.0@, n)
        ||| forest_contains(s.drop_first(), n)
    }
}

/// Every node of a forest contributes its own pair to the flattening.
proof fn lemma_flat_contains(s: Seq<NestedInstruction>, n: NestedInstruction)
    requires
        forest_contains(s, n),
    ensures
        flat_of_forest(s).contains((n.metadata, n.instruction)),
    decreases s,
{
    let e = (s[0].metadata, s[0].instruction);
    if s[0] == n {
        assert(flat_of_forest(s)[0] == e);
    } else if forest_contains(s[0].inner_instructions.0@, n) {
        lemma_flat_contains(s[0].inner_instructions.0@, n);
        let inner = flat_of_forest(s[0].inner_instructions.0@);
        let k = choose|k: int| 0 <= k < inner.len() && inner[k] == (n.metadata, n.instruction);
        assert(flat_of_forest(s)[1 + k] == (n.metadata, n.instruction));
    } else {
        lemma_flat_contains(s.drop_first(), n);
        let rest = flat_of_forest(s.drop_first());
        let k = choose|k: int| 0 <= k < rest.len() && rest[k] == (n.metadata, n.instruction);
        let off = 1 + flat_of_forest(s[0].inner_instructions.0@).len();
        assert(flat_of_forest(s)[off + k] == (n.metadata, n.instruction));
    }
}

/// Depth invariant law: if every entry of a flat list records a path whose
/// length equals its stack height, in range, then every node of a forest
/// that flattens back to that list does too.
pub proof fn lemma_depth_invariant(
    s: Seq<NestedInstruction>,
    entries: Seq<(InstructionMetadata, Instruction)>,
    n: NestedInstruction,
)
    requires
        flat_of_forest(s) == entries,
        forest_contains(s, n),
        forall|i: int|
            0 <= i < entries.len() ==> {
                &&& (#[trigger] entries[i]).0.absolute_path@.len() == entries[i].0.stack_height
                &&& valid_stack_height(entry_height(entries[i]))
            },
    ensures
        n.metadata.absolute_path@.len() == n.metadata.stack_height,
        valid_stack_height(n.metadata.stack_height as int),
{
    lemma_flat_contains(s, n);
    let k = choose|k: int| 0 <= k < entries.len() && entries[k] == (n.metadata, n.instruction);
    assert(entries[k].0 == n.metadata);
}

/// The input list in reverse order, so that popping yields the input order.
fn into_reversed(v: InstructionsWithMetadata) -> (r: InstructionsWithMetadata)
    ensures
        r@.len() == v@.len(),
        forall|i: int| 0 <= i < v@.len() ==> r@[i] == v@[v@.len() - 1 - i],
{
    let mut v = v;
    let ghost orig = v@;
    let mut r: InstructionsWithMetadata = Vec::new();
    while v.len() > 0
        invariant
            v@.len() + r@.len() == orig.len(),
            v@ == orig.take(v@.len() as int),
            forall|i: int| 0 <= i < r@.len() ==> r@[i] == orig[orig.len() - 1 - i],
        decreases v@.len(),
    {
        let ghost pre = v@;
        let e = v.pop().unwrap();
        proof {
            assert(pre.subrange(0, pre.len() - 1) =~= orig.take(pre.len() - 1));
        }
        r.push(e);
    }
    r
}

} // verus!

