//! Instruction values, their positional metadata, and the nested-instruction
//! tree that the hierarchy builder produces.

use vstd::prelude::*;
use std::sync::Arc;
use crate::model::{Pubkey, Signature, TransactionStatusMeta, VersionedMessage};

verus! {

/// The runtime bounds the call-stack depth of instruction execution; a stack
/// height outside `1..=MAX_INSTRUCTION_STACK_DEPTH` is a fatal input error.
pub const MAX_INSTRUCTION_STACK_DEPTH: usize = 5;

/// Transaction metadata containing slot, signature, and other transaction
/// details. Immutable once constructed and shared read-only, via reference
/// counting, by every instruction metadata record derived from it.
#[derive(Debug, Clone)]
pub struct TransactionMetadata {
    /// The slot number where this transaction was processed.
    pub slot: u64,
    /// The transaction signature.
    pub signature: Signature,
    /// The fee payer's public key.
    pub fee_payer: Pubkey,
    /// Transaction status metadata recorded by the runtime.
    pub meta: TransactionStatusMeta,
    /// The message containing instructions and account keys.
    pub message: VersionedMessage,
}

/// Positional metadata of one instruction within its transaction: the owning
/// transaction, a 1-based stack height, the index of the top-level
/// instruction it belongs to, and the absolute path of sibling ranks from the
/// root down to the instruction.
#[derive(Debug)]
pub struct InstructionMetadata {
    /// The shared transaction metadata.
    pub transaction_metadata: Arc<TransactionMetadata>,
    /// 1-based call-stack height; 1 means top level.
    pub stack_height: u32,
    /// Index of the top-level instruction this belongs to.
    pub index: u32,
    /// Sibling rank at each depth level from the root to this instruction;
    /// its length equals the stack height.
    pub absolute_path: Vec<u8>,
}

/// One account involved in an instruction, with its writable and signer
/// flags resolved against the transaction's account-key table.
#[derive(Debug, Clone, Copy)]
pub struct AccountMeta {
    /// The account's public key.
    pub pubkey: Pubkey,
    /// Whether the instruction may write to the account.
    pub is_writable: bool,
    /// Whether the account signed the transaction.
    pub is_signer: bool,
}

/// A fully resolved instruction: owning program, involved accounts, and the
/// opaque payload bytes.
#[derive(Debug)]
pub struct Instruction {
    /// The key of the program that executes the instruction.
    pub program_id: Pubkey,
    /// The involved accounts, in the order the instruction names them.
    pub accounts: Vec<AccountMeta>,
    /// Opaque instruction payload.
    pub data: Vec<u8>,
}

/// The flat extractor's output: every instruction of a transaction in
/// execution order, each with freshly computed metadata.
pub type InstructionsWithMetadata = Vec<(InstructionMetadata, Instruction)>;

/// An instruction together with the contiguous run of its descendants: the
/// nodes of the instruction forest. Each node exclusively owns its children.
#[derive(Debug)]
pub struct NestedInstruction {
    /// The positional metadata of this instruction.
    pub metadata: InstructionMetadata,
    /// The instruction itself.
    pub instruction: Instruction,
    /// The direct children, in execution order.
    pub inner_instructions: NestedInstructions,
}

/// An ordered forest of nested instructions; one tree per top-level
/// instruction when produced by the hierarchy builder.
#[derive(Debug)]
pub struct NestedInstructions(pub Vec<NestedInstruction>);

/// What a clone of instruction metadata preserves: the same shared
/// transaction-metadata handle and equal values everywhere else.
pub open spec fn meta_equiv(a: InstructionMetadata, b: InstructionMetadata) -> bool {
    &&& a.transaction_metadata == b.transaction_metadata
    &&& a.stack_height == b.stack_height
    &&& a.index == b.index
    &&& a.absolute_path@ == b.absolute_path@
}

/// What a clone of an instruction preserves: equal program key, equal
/// account list, equal payload.
pub open spec fn instr_equiv(a: Instruction, b: Instruction) -> bool {
    &&& a.program_id == b.program_id
    &&& a.accounts@ == b.accounts@
    &&& a.data@ == b.data@
}

/// What a clone of a forest preserves: the same shape, with every node's
/// metadata and instruction preserved as a clone preserves them.
pub open spec fn forest_equiv(a: Seq<NestedInstruction>, b: Seq<NestedInstruction>) -> bool
    decreases a,
{
    &&& a.len() == b.len()
    &&& a.len() > 0 ==> {
        &&& meta_equiv(a[0].metadata, b[0].metadata)
        &&& instr_equiv(a[0].instruction, b[0].instruction)
        &&& forest_equiv(a[0].inner_instructions.0@, b[0].inner_instructions.0@)
        &&& forest_equiv(a.drop_first(), b.drop_first())
    }
}

/// What a clone of a single tree preserves.
pub open spec fn node_equiv(a: NestedInstruction, b: NestedInstruction) -> bool {
    forest_equiv(seq![a], seq![b])
}

/// Equivalent forests stay equivalent under appending equivalent trees.
pub proof fn lemma_forest_equiv_push(
    a: Seq<NestedInstruction>,
    b: Seq<NestedInstruction>,
    x: NestedInstruction,
    y: NestedInstruction,
)
    requires
        forest_equiv(a, b),
        node_equiv(x, y),
    ensures
        forest_equiv(a.push(x), b.push(y)),
    decreases a.len(),
{
    if a.len() == 0 {
        assert(a.push(x) =~= seq![x]);
        assert(b.push(y) =~= seq![y]);
    } else {
        lemma_forest_equiv_push(a.drop_first(), b.drop_first(), x, y);
        assert(a.push(x).drop_first() =~= a.drop_first().push(x));
        assert(b.push(y).drop_first() =~= b.drop_first().push(y));
        assert(a.push(x)[0] == a[0]);
        assert(b.push(y)[0] == b[0]);
    }
}

/// Relies on std's `Arc::clone`: the new handle shares the same allocation,
/// so it denotes the same transaction metadata.
#[verifier::external_body]
pub(crate) fn clone_arc(a: &Arc<TransactionMetadata>) -> (r: Arc<TransactionMetadata>)
    ensures
        r == *a,
{
    a.clone()
}

/// A fresh vector with the same elements.
fn copied<T: Copy>(v: &Vec<T>) -> (r: Vec<T>)
    ensures
        r@ == v@,
{
    let mut r: Vec<T> = Vec::new();
    let n = v.len();
    let mut i: usize = 0;
    while i < n
        invariant
            0 <= i <= n == v@.len(),
            r@ == v@.take(i as int),
        decreases n - i,
    {
        r.push(v[i]);
        proof {
            assert(v@.take(i + 1int) =~= v@.take(i as int).push(v@[i as int]));
        }
        i = i + 1;
    }
    proof {
        assert(v@.take(n as int) =~= v@);
    }
    r
}

impl Clone for InstructionMetadata {
    /// Structural deep copy, except for the transaction metadata reference,
    /// which is shared.
    fn clone(&self) -> (r: Self)
        ensures
            meta_equiv(r, *self),
    {
        InstructionMetadata {
            transaction_metadata: clone_arc(&self.transaction_metadata),
            stack_height: self.stack_height,
            index: self.index,
            absolute_path: copied(&self.absolute_path),
        }
    }
}

impl Clone for Instruction {
    /// Structural deep copy.
    fn clone(&self) -> (r: Self)
        ensures
            instr_equiv(r, *self),
    {
        Instruction {
            program_id: self.program_id,
            accounts: copied(&self.accounts),
            data: copied(&self.data),
        }
    }
}

impl Clone for NestedInstruction {
    /// Structural deep copy of the whole subtree; every node's transaction
    /// metadata reference is shared.
    fn clone(&self) -> (r: Self)
        ensures
            node_equiv(r, *self),
        decreases *self,
    {
        let r = NestedInstruction {
            metadata: self.metadata.clone(),
            instruction: self.instruction.clone(),
            inner_instructions: self.inner_instructions.clone(),
        };
        proof {
            assert(seq![r].drop_first() =~= Seq::<NestedInstruction>::empty());
            assert(seq![*self].drop_first() =~= Seq::<NestedInstruction>::empty());
            assert(forest_equiv(seq![r].drop_first(), seq![*self].drop_first()));
            assert(seq![r][0] == r);
            assert(node_equiv(r, *self));
        }
        r
    }
}

impl Clone for NestedInstructions {
    /// Structural deep copy of every tree.
    fn clone(&self) -> (r: Self)
        ensures
            forest_equiv(r.0@, self.0@),
        decreases *self,
    {
        let mut trees: Vec<NestedInstruction> = Vec::new();
        let n = self.0.len();
        let mut i: usize = 0;
        while i < n
            invariant
                n == self.0@.len(),
                0 <= i <= n,
                forest_equiv(trees@, self.0@.take(i as int)),
            decreases n - i,
        {
            proof {
                assert(decreases_to!(*self => self.0@[i as int]));
            }
            let tree = self.0[i].clone();
            proof {
                lemma_forest_equiv_push(trees@, self.0@.take(i as int), tree, self.0@[i as int]);
                assert(self.0@.take(i + 1int) =~= self.0@.take(i as int).push(self.0@[i as int]));
            }
            trees.push(tree);
            i = i + 1;
        }
        proof {
            assert(self.0@.take(n as int) =~= self.0@);
        }
        NestedInstructions(trees)
    }
}

impl NestedInstructions {
    /// The number of root nodes.
    pub fn len(&self) -> (r: usize)
        ensures
            r == self.0@.len(),
    {
        self.0.len()
    }

    /// Whether the forest has no roots at all.
    pub fn is_empty(&self) -> (r: bool)
        ensures
            r == (self.0@.len() == 0),
    {
        self.len() == 0
    }

    /// Appends one more root node.
    pub fn push(&mut self, nested_instruction: NestedInstruction)
        ensures
            final(self).0@ == old(self).0@.push(nested_instruction),
    {
        self.0.push(nested_instruction);
    }
}

impl Default for NestedInstructions {
    /// The empty forest.
    fn default() -> (r: NestedInstructions)
        ensures
            r.0@ =~= Seq::<NestedInstruction>::empty(),
    {
        NestedInstructions(Vec::new())
    }
}

/// The pre-order flattening of a forest: each node's `(metadata, instruction)`
/// pair, parent before children, children in order, trees left to right.
pub open spec fn flat_of_forest(s: Seq<NestedInstruction>) -> Seq<(InstructionMetadata, Instruction)>
    decreases s,
{
    if s.len() == 0 {
        Seq::empty()
    } else {
        seq![(s[0].metadata, s[0].instruction)] + flat_of_forest(s[0].inner_instructions.0@)
            + flat_of_forest(s.drop_first())
    }
}

/// The pre-order flattening of a single tree.
pub open spec fn flat_of_node(n: NestedInstruction) -> Seq<(InstructionMetadata, Instruction)> {
    flat_of_forest(seq![n])
}

/// Flattening a forest tree by tree is the same as flattening the forest.
pub proof fn lemma_flat_push(s: Seq<NestedInstruction>, n: NestedInstruction)
    ensures
        flat_of_forest(s.push(n)) == flat_of_forest(s) + flat_of_node(n),
    decreases s.len(),
{
    if s.len() == 0 {
        assert(s.push(n) =~= seq![n]);
        assert(flat_of_forest(s.push(n)) =~= flat_of_forest(s) + flat_of_node(n));
    } else {
        let t = s.push(n);
        assert(t[0] == s[0]);
        assert(t.drop_first() =~= s.drop_first().push(n));
        lemma_flat_push(s.drop_first(), n);
        assert(flat_of_forest(s.push(n)) =~= flat_of_forest(s) + flat_of_node(n));
    }
}

/// A single tree flattens to its own entry followed by its children's trees.
pub proof fn lemma_flat_node(n: NestedInstruction)
    ensures
        flat_of_node(n) == seq![(n.metadata, n.instruction)] + flat_of_forest(
            n.inner_instructions.0@,
        ),
{
    let s = seq![n];
    assert(s.drop_first() =~= Seq::<NestedInstruction>::empty());
    assert(flat_of_forest(s.drop_first()) =~= Seq::<(InstructionMetadata, Instruction)>::empty());
    assert(flat_of_node(n) =~= seq![(n.metadata, n.instruction)] + flat_of_forest(
        n.inner_instructions.0@,
    ));
}

/// A nonempty forest flattens to its first tree followed by the rest.
pub proof fn lemma_flat_unfold(s: Seq<NestedInstruction>)
    requires
        s.len() > 0,
    ensures
        flat_of_forest(s) == flat_of_node(s[0]) + flat_of_forest(s.drop_first()),
{
    lemma_flat_node(s[0]);
    assert(flat_of_forest(s) =~= flat_of_node(s[0]) + flat_of_forest(s.drop_first()));
}

/// Whatever one tree's flattening carries, the flattening of a forest
/// holding that tree carries too.
pub proof fn lemma_flat_forest_contains(
    s: Seq<NestedInstruction>,
    k: int,
    e: (InstructionMetadata, Instruction),
)
    requires
        0 <= k < s.len(),
        flat_of_node(s[k]).contains(e),
    ensures
        flat_of_forest(s).contains(e),
    decreases k,
{
    lemma_flat_unfold(s);
    if k == 0 {
        let i = choose|i: int| 0 <= i < flat_of_node(s[0]).len() && flat_of_node(s[0])[i] == e;
        assert(flat_of_forest(s)[i] == e);
    } else {
        assert(s.drop_first()[k - 1] == s[k]);
        lemma_flat_forest_contains(s.drop_first(), k - 1, e);
        let rest = flat_of_forest(s.drop_first());
        let j = choose|j: int| 0 <= j < rest.len() && rest[j] == e;
        assert(flat_of_forest(s)[flat_of_node(s[0]).len() + j] == e);
    }
}

/// A node's own pair is part of its tree's flattening, and anything a
/// child's subtree contributes is part of it as well.
pub proof fn lemma_flat_node_entries(n: NestedInstruction)
    ensures
        flat_of_node(n).contains((n.metadata, n.instruction)),
        forall|e: (InstructionMetadata, Instruction)|
            flat_of_forest(n.inner_instructions.0@).contains(e) ==> #[trigger] flat_of_node(
                n,
            ).contains(e),
{
    lemma_flat_node(n);
    assert(flat_of_node(n)[0] == (n.metadata, n.instruction));
    assert forall|e: (InstructionMetadata, Instruction)|
        flat_of_forest(n.inner_instructions.0@).contains(e) implies #[trigger] flat_of_node(
        n,
    ).contains(e) by {
        let inner = flat_of_forest(n.inner_instructions.0@);
        let j = choose|j: int| 0 <= j < inner.len() && inner[j] == e;
        assert(flat_of_node(n)[1 + j] == e);
    }
}

/// Whether a tree rooted at stack height `h` is consistently labeled: the
/// root records height `h` and every child's subtree sits one level deeper.
pub open spec fn node_well_shaped(n: NestedInstruction, h: int) -> bool
    decreases n,
{
    &&& n.metadata.stack_height == h
    &&& forall|i: int|
        0 <= i < n.inner_instructions.0@.len() ==> node_well_shaped(
            #[trigger] n.inner_instructions.0@[i],
            h + 1,
        )
}

/// Whether every tree of a forest is consistently labeled starting at stack
/// height 1.
pub open spec fn forest_well_shaped(s: Seq<NestedInstruction>) -> bool {
    forall|i: int| 0 <= i < s.len() ==> #[trigger] node_well_shaped(s[i], 1)
}

} // verus!
