//! Value model of the transaction wire data that the extractor reads: public
//! keys, message headers, compiled instructions and the inner-instruction
//! groups recorded by the runtime.

use vstd::prelude::*;

verus! {

/// A 32-byte account or program public key.
#[derive(Debug, Clone, Copy)]
pub struct Pubkey {
    /// The raw key bytes.
    pub bytes: [u8; 32],
}

impl Pubkey {
    /// The all-zero key, used as the safe default when an index cannot be
    /// resolved against the account-key table.
    pub fn zeroed() -> (r: Pubkey)
        ensures
            r.bytes@ == Seq::new(32, |i: int| 0u8),
    {
        let r = Pubkey { bytes: [0u8; 32] };
        proof {
            assert(r.bytes@ =~= Seq::new(32, |i: int| 0u8));
        }
        r
    }
}

impl PartialEq for Pubkey {
    fn eq(&self, other: &Pubkey) -> (r: bool) {
        let mut i: usize = 0;
        while i < 32
            invariant
                0 <= i <= 32,
                forall|j: int| 0 <= j < i ==> self.bytes@[j] == other.bytes@[j],
            decreases 32 - i,
        {
            if self.bytes[i] != other.bytes[i] {
                return false;
            }
            i = i + 1;
        }
        proof {
            assert(self.bytes@ =~= other.bytes@);
        }
        true
    }
}

impl vstd::std_specs::cmp::PartialEqSpecImpl for Pubkey {
    open spec fn obeys_eq_spec() -> bool {
        true
    }

    open spec fn eq_spec(&self, other: &Pubkey) -> bool {
        self.bytes@ == other.bytes@
    }
}

/// A 64-byte transaction signature, carried through untouched.
#[derive(Debug, Clone, Copy)]
pub struct Signature {
    /// The raw signature bytes.
    pub bytes: [u8; 64],
}

/// The fixed header of a transaction message: how many of the account keys
/// sign, and how many keys at either end of the table are read-only.
#[derive(Debug, Clone, Copy, PartialEq, Eq, Structural)]
pub struct MessageHeader {
    /// Number of account keys that must sign the transaction.
    pub num_required_signatures: u8,
    /// Number of read-only keys among the signing keys.
    pub num_readonly_signed_accounts: u8,
    /// Number of read-only keys among the non-signing keys.
    pub num_readonly_unsigned_accounts: u8,
}

/// An instruction as compiled into a transaction message: index references
/// into the message's account-key table plus an opaque payload.
#[derive(Debug, Clone)]
pub struct CompiledInstruction {
    /// Index of the owning program's key in the account-key table.
    pub program_id_index: u8,
    /// Indices of the involved accounts in the account-key table.
    pub accounts: Vec<u8>,
    /// Opaque instruction payload.
    pub data: Vec<u8>,
}

/// The shared shape of a transaction message: header, account-key table, and
/// the top-level compiled instructions.
#[derive(Debug, Clone)]
pub struct Message {
    /// The message header.
    pub header: MessageHeader,
    /// The static account-key table of the message.
    pub account_keys: Vec<Pubkey>,
    /// The top-level instructions, in execution order.
    pub instructions: Vec<CompiledInstruction>,
}

/// A transaction message in one of the two wire formats: the older fixed
/// layout, or the newer one that may load extra addresses at execution time.
#[derive(Debug, Clone)]
pub enum VersionedMessage {
    /// The fixed-layout format; all account keys are in the message itself.
    Legacy(Message),
    /// The newer format; execution-time-loaded addresses (recorded in the
    /// status metadata) extend the account-key table.
    V0(Message),
}

/// Addresses loaded at execution time for the newer message format, split
/// into writable and read-only partitions.
#[derive(Debug, Clone)]
pub struct LoadedAddresses {
    /// Loaded addresses the transaction may write to.
    pub writable: Vec<Pubkey>,
    /// Loaded addresses the transaction may only read.
    pub readonly: Vec<Pubkey>,
}

/// One instruction invoked during execution of a top-level instruction,
/// recorded with an optional call-stack depth hint.
#[derive(Debug, Clone)]
pub struct InnerInstruction {
    /// The invoked instruction.
    pub instruction: CompiledInstruction,
    /// 1-based invocation stack height; absent in old records (defaults to 1).
    pub stack_height: Option<u32>,
}

/// The inner instructions invoked under one top-level instruction, in
/// execution order.
#[derive(Debug, Clone)]
pub struct InnerInstructions {
    /// Index of the top-level instruction these nest under.
    pub index: u8,
    /// The nested instructions, in execution order.
    pub instructions: Vec<InnerInstruction>,
}

/// The runtime's side-effect record for a transaction, reduced to the parts
/// the extractor reads: inner-instruction groups and loaded addresses.
#[derive(Debug, Clone)]
pub struct TransactionStatusMeta {
    /// Inner-instruction groups, one per top-level instruction that invoked
    /// any; absent when the record carries none.
    pub inner_instructions: Option<Vec<InnerInstructions>>,
    /// Addresses loaded at execution time (newer message format only).
    pub loaded_addresses: LoadedAddresses,
}

} // verus!
