//! The flat extractor: normalizes a transaction's top-level instructions and
//! inner-instruction groups, under either wire format's account-key
//! resolution policy, into one ordered list of `(metadata, instruction)`
//! pairs with freshly computed stack heights and absolute paths.

use vstd::prelude::*;
use std::sync::Arc;
use crate::instruction::{
    clone_arc, AccountMeta, Instruction, InstructionMetadata, InstructionsWithMetadata,
    TransactionMetadata, MAX_INSTRUCTION_STACK_DEPTH,
};
use crate::model::{
    CompiledInstruction, InnerInstruction, InnerInstructions, MessageHeader, Pubkey,
    TransactionStatusMeta, VersionedMessage,
};

verus! {

/// What one account of a built instruction must hold: the resolved key and
/// the two flags the format's policy assigns to it.
pub ghost struct AccountMetaSpec {
    /// The resolved key bytes.
    pub pubkey: Seq<u8>,
    /// The writability the policy assigns.
    pub is_writable: bool,
    /// The signer flag the policy assigns.
    pub is_signer: bool,
}

/// What one built instruction must hold.
pub ghost struct InstructionSpec {
    /// The resolved program key bytes.
    pub program_id: Seq<u8>,
    /// The resolved accounts, unresolvable indices dropped.
    pub accounts: Seq<AccountMetaSpec>,
    /// The opaque payload, copied through.
    pub data: Seq<u8>,
}

/// What one extracted flat-list entry must hold.
pub ghost struct EntrySpec {
    /// 1-based stack height.
    pub stack_height: u32,
    /// Index of the owning top-level instruction.
    pub index: u32,
    /// Sibling rank at each depth from the root down to the entry.
    pub path: Seq<int>,
    /// The built instruction.
    pub instruction: InstructionSpec,
}

/// The account-key resolution policy of one wire format, reduced to the
/// values its writability and signer predicates read.
pub ghost enum PolicySpec {
    /// The fixed-layout format: writability follows the header's read-only
    /// partitions, with program keys demoted unless the upgradeable loader
    /// is present.
    Legacy {
        /// The message header.
        header: MessageHeader,
        /// The message's top-level instructions (program-key demotion reads
        /// their program indices).
        instructions: Seq<CompiledInstruction>,
    },
    /// The newer format: an account is writable exactly when its key is
    /// among the execution-time-loaded writable addresses.
    V0 {
        /// The loaded writable addresses.
        writable: Seq<Pubkey>,
        /// Number of keys that sign the transaction.
        num_required_signatures: u8,
    },
}

/// The account-key resolution policy, as the extractor carries it.
pub enum KeyPolicy<'a> {
    /// Fixed-layout format.
    Legacy {
        /// The message header.
        header: MessageHeader,
        /// The message's top-level instructions.
        instructions: &'a Vec<CompiledInstruction>,
    },
    /// Newer format with loaded addresses.
    V0 {
        /// The loaded writable addresses.
        writable_loaded: &'a Vec<Pubkey>,
        /// Number of keys that sign the transaction.
        num_required_signatures: u8,
    },
}

impl<'a> View for KeyPolicy<'a> {
    type V = PolicySpec;

    open spec fn view(&self) -> PolicySpec {
        match *self {
            KeyPolicy::Legacy { header, instructions } => PolicySpec::Legacy {
                header,
                instructions: instructions@,
            },
            KeyPolicy::V0 { writable_loaded, num_required_signatures } => PolicySpec::V0 {
                writable: writable_loaded@,
                num_required_signatures,
            },
        }
    }
}

/// The all-zero key.
pub open spec fn zero_key() -> Seq<u8> {
    Seq::new(32, |i: int| 0u8)
}

/// The key of the upgradeable program loader; its presence in the key table
/// exempts program keys from write demotion.
pub open spec fn upgradeable_loader_key() -> Seq<u8> {
    seq![
        2u8, 168u8, 246u8, 145u8, 78u8, 136u8, 161u8, 176u8, 226u8, 16u8, 21u8, 62u8, 247u8, 99u8,
        174u8, 43u8, 0u8, 194u8, 185u8, 61u8, 22u8, 193u8, 36u8, 210u8, 192u8, 83u8, 122u8, 16u8,
        4u8, 128u8, 0u8, 0u8,
    ]
}

/// Whether some key of the table has exactly these bytes.
pub open spec fn contains_key(keys: Seq<Pubkey>, bytes: Seq<u8>) -> bool {
    exists|j: int| 0 <= j < keys.len() && (#[trigger] keys[j]).bytes@ == bytes
}

/// Whether some top-level instruction names the key at `idx` as its program.
pub open spec fn key_called_as_program(instrs: Seq<CompiledInstruction>, idx: int) -> bool {
    idx <= 255 && exists|j: int|
        0 <= j < instrs.len() && (#[trigger] instrs[j]).program_id_index as int == idx
}

/// Whether the key at `idx` signs the transaction under the policy.
pub open spec fn spec_is_signer(pol: PolicySpec, idx: int) -> bool {
    match pol {
        PolicySpec::Legacy { header, .. } => idx < header.num_required_signatures as int,
        PolicySpec::V0 { num_required_signatures, .. } => idx < num_required_signatures as int,
    }
}

/// Whether the key at `idx` is writable under the policy.
pub open spec fn spec_is_writable(pol: PolicySpec, keys: Seq<Pubkey>, idx: int) -> bool {
    match pol {
        PolicySpec::Legacy { header, instructions } => {
            let writable_index = idx < header.num_required_signatures as int
                - header.num_readonly_signed_accounts as int || (idx
                >= header.num_required_signatures as int && idx < keys.len()
                - header.num_readonly_unsigned_accounts as int);
            let demoted = key_called_as_program(instructions, idx) && !contains_key(
                keys,
                upgradeable_loader_key(),
            );
            writable_index && !demoted
        },
        PolicySpec::V0 { writable, .. } => 0 <= idx < keys.len() && contains_key(
            writable,
            keys[idx].bytes@,
        ),
    }
}

/// The key bytes an index resolves to: the table entry in range, the zero
/// key otherwise (the documented lossy default).
pub open spec fn spec_resolved_key(keys: Seq<Pubkey>, idx: int) -> Seq<u8> {
    if 0 <= idx < keys.len() {
        keys[idx].bytes@
    } else {
        zero_key()
    }
}

/// The resolved accounts of an instruction: indices outside the table are
/// dropped, the rest carry the policy's flags.
pub open spec fn spec_account_metas(pol: PolicySpec, keys: Seq<Pubkey>, idxs: Seq<u8>) -> Seq<
    AccountMetaSpec,
>
    decreases idxs.len(),
{
    if idxs.len() == 0 {
        Seq::empty()
    } else {
        let rest = spec_account_metas(pol, keys, idxs.drop_last());
        let ai = idxs.last() as int;
        if ai < keys.len() {
            rest.push(
                AccountMetaSpec {
                    pubkey: keys[ai].bytes@,
                    is_writable: spec_is_writable(pol, keys, ai),
                    is_signer: spec_is_signer(pol, ai),
                },
            )
        } else {
            rest
        }
    }
}

/// The instruction a compiled instruction resolves to.
pub open spec fn spec_build_instruction(
    pol: PolicySpec,
    keys: Seq<Pubkey>,
    ci: CompiledInstruction,
) -> InstructionSpec {
    InstructionSpec {
        program_id: spec_resolved_key(keys, ci.program_id_index as int),
        accounts: spec_account_metas(pol, keys, ci.accounts@),
        data: ci.data@,
    }
}

/// The stack height an inner instruction records; 1 when absent.
pub open spec fn hint_height(inner: InnerInstruction) -> int {
    match inner.stack_height {
        Some(h) => h as int,
        None => 1,
    }
}

/// The running path state of a group after its first `j` inner
/// instructions: the depth-indexed counter array and the previous height.
/// The counter at a depth resets to 0 on moving strictly deeper and
/// increments on staying at the same depth or returning to a shallower one.
pub open spec fn group_state(g: InnerInstructions, j: int) -> (Seq<int>, int)
    decreases j,
{
    if j <= 0 {
        (
            Seq::new(
                MAX_INSTRUCTION_STACK_DEPTH as nat,
                |d: int|
                    if d == 0 {
                        g.index as int
                    } else {
                        0
                    },
            ),
            0,
        )
    } else {
        let prior = group_state(g, j - 1);
        let h = hint_height(g.instructions@[j - 1]);
        let stack = if h > prior.1 {
            prior.0.update(h - 1, 0)
        } else {
            prior.0.update(h - 1, prior.0[h - 1] + 1)
        };
        (stack, h)
    }
}

/// The extracted entries of one inner-instruction group nested under the
/// top-level instruction it names.
pub open spec fn group_entries(pol: PolicySpec, keys: Seq<Pubkey>, g: InnerInstructions) -> Seq<
    EntrySpec,
> {
    Seq::new(
        g.instructions@.len(),
        |j: int|
            EntrySpec {
                stack_height: hint_height(g.instructions@[j]) as u32,
                index: g.index as u32,
                path: group_state(g, j + 1).0.take(hint_height(g.instructions@[j])),
                instruction: spec_build_instruction(pol, keys, g.instructions@[j].instruction),
            },
    )
}

/// The entries of the first `upto` groups that name top-level index `i`,
/// concatenated in order.
pub open spec fn groups_for(
    pol: PolicySpec,
    keys: Seq<Pubkey>,
    inner: Seq<InnerInstructions>,
    i: int,
    upto: int,
) -> Seq<EntrySpec>
    decreases upto,
{
    if upto <= 0 {
        Seq::empty()
    } else {
        groups_for(pol, keys, inner, i, upto - 1) + if inner[upto - 1].index as int == i {
            group_entries(pol, keys, inner[upto - 1])
        } else {
            Seq::empty()
        }
    }
}

/// The block of entries owned by top-level instruction `i`: the instruction
/// itself at stack height 1 with path `[i]`, then every group that names it.
pub open spec fn spec_block(
    pol: PolicySpec,
    keys: Seq<Pubkey>,
    instrs: Seq<CompiledInstruction>,
    inner: Seq<InnerInstructions>,
    i: int,
) -> Seq<EntrySpec> {
    seq![
        EntrySpec {
            stack_height: 1u32,
            index: i as u32,
            path: seq![i],
            instruction: spec_build_instruction(pol, keys, instrs[i]),
        },
    ] + groups_for(pol, keys, inner, i, inner.len() as int)
}

/// The entries of the first `upto` top-level blocks, concatenated in order.
pub open spec fn spec_extract(
    pol: PolicySpec,
    keys: Seq<Pubkey>,
    instrs: Seq<CompiledInstruction>,
    inner: Seq<InnerInstructions>,
    upto: int,
) -> Seq<EntrySpec>
    decreases upto,
{
    if upto <= 0 {
        Seq::empty()
    } else {
        spec_extract(pol, keys, instrs, inner, upto - 1) + spec_block(
            pol,
            keys,
            instrs,
            inner,
            upto - 1,
        )
    }
}

/// The inner-instruction groups an optional record carries.
pub open spec fn opt_groups(inner: Option<Vec<InnerInstructions>>) -> Seq<InnerInstructions> {
    match inner {
        Some(v) => v@,
        None => Seq::empty(),
    }
}

/// The inner-instruction groups a status record carries.
pub open spec fn inner_groups(meta: TransactionStatusMeta) -> Seq<InnerInstructions> {
    opt_groups(meta.inner_instructions)
}

/// The top-level instructions of either message format.
pub open spec fn message_instructions(message: VersionedMessage) -> Seq<CompiledInstruction> {
    match message {
        VersionedMessage::Legacy(m) => m.instructions@,
        VersionedMessage::V0(m) => m.instructions@,
    }
}

/// The resolved account-key table of either message format: the static keys,
/// extended for the newer format by the loaded writable then read-only
/// addresses.
pub open spec fn resolved_keys(message: VersionedMessage, meta: TransactionStatusMeta) -> Seq<
    Pubkey,
> {
    match message {
        VersionedMessage::Legacy(m) => m.account_keys@,
        VersionedMessage::V0(m) => m.account_keys@ + meta.loaded_addresses.writable@
            + meta.loaded_addresses.readonly@,
    }
}

/// The resolution policy of either message format.
pub open spec fn message_policy(message: VersionedMessage, meta: TransactionStatusMeta) -> PolicySpec {
    match message {
        VersionedMessage::Legacy(m) => PolicySpec::Legacy {
            header: m.header,
            instructions: m.instructions@,
        },
        VersionedMessage::V0(m) => PolicySpec::V0 {
            writable: meta.loaded_addresses.writable@,
            num_required_signatures: m.header.num_required_signatures,
        },
    }
}

/// The full extraction of a transaction.
pub open spec fn spec_extract_transaction(
    message: VersionedMessage,
    meta: TransactionStatusMeta,
) -> Seq<EntrySpec> {
    spec_extract(
        message_policy(message, meta),
        resolved_keys(message, meta),
        message_instructions(message),
        inner_groups(meta),
        message_instructions(message).len() as int,
    )
}

/// What the sibling-rank counters force on the input: paths are stored as
/// bytes, so the top-level index and each group's counters must fit in one
/// byte, and every recorded stack height must lie in the runtime's range.
pub open spec fn extract_input_ok(message: VersionedMessage, meta: TransactionStatusMeta) -> bool {
    &&& message_instructions(message).len() <= 256
    &&& forall|g: int|
        0 <= g < inner_groups(meta).len() ==> {
            let group = #[trigger] inner_groups(meta)[g];
            &&& group.index as int + group.instructions@.len() <= 255
            &&& forall|j: int|
                0 <= j < group.instructions@.len() ==> 1 <= hint_height(
                    #[trigger] group.instructions@[j],
                ) <= MAX_INSTRUCTION_STACK_DEPTH as int
        }
}

/// Whether a resolved account matches its specification.
pub open spec fn account_meta_matches(a: AccountMeta, m: AccountMetaSpec) -> bool {
    &&& a.pubkey.bytes@ == m.pubkey
    &&& a.is_writable == m.is_writable
    &&& a.is_signer == m.is_signer
}

/// Whether a resolved account list matches its specification entry by entry.
pub open spec fn account_list_matches(a: Seq<AccountMeta>, m: Seq<AccountMetaSpec>) -> bool {
    &&& a.len() == m.len()
    &&& forall|i: int| 0 <= i < m.len() ==> account_meta_matches(#[trigger] a[i], m[i])
}

/// Whether a built instruction matches its specification.
pub open spec fn instruction_matches(x: Instruction, m: InstructionSpec) -> bool {
    &&& x.program_id.bytes@ == m.program_id
    &&& account_list_matches(x.accounts@, m.accounts)
    &&& x.data@ == m.data
}

/// Whether a flat-list entry matches its specification and shares the
/// transaction metadata.
pub open spec fn entry_matches(
    e: (InstructionMetadata, Instruction),
    m: EntrySpec,
    tm: Arc<TransactionMetadata>,
) -> bool {
    &&& e.0.transaction_metadata == tm
    &&& e.0.stack_height == m.stack_height
    &&& e.0.index == m.index
    &&& e.0.absolute_path@.len() == m.path.len()
    &&& forall|i: int| 0 <= i < m.path.len() ==> (#[trigger] e.0.absolute_path@[i]) as int == m.path[i]
    &&& instruction_matches(e.1, m.instruction)
}

/// Whether a whole flat list matches a specification list entry for entry.
pub open spec fn entries_match(
    r: Seq<(InstructionMetadata, Instruction)>,
    ms: Seq<EntrySpec>,
    tm: Arc<TransactionMetadata>,
) -> bool {
    &&& r.len() == ms.len()
    &&& forall|i: int| 0 <= i < ms.len() ==> entry_matches(#[trigger] r[i], ms[i], tm)
}

/// Whether `grown` is `base` unchanged, extended by entries that match `ms`
/// entry for entry: the extraction walkers only ever append to a caller's
/// accumulator.
pub open spec fn grows_by(
    base: Seq<(InstructionMetadata, Instruction)>,
    grown: Seq<(InstructionMetadata, Instruction)>,
    ms: Seq<EntrySpec>,
    tm: Arc<TransactionMetadata>,
) -> bool {
    &&& grown.len() == base.len() + ms.len()
    &&& forall|k: int| 0 <= k < base.len() ==> #[trigger] grown[k] == base[k]
    &&& forall|k: int|
        0 <= k < ms.len() ==> entry_matches(#[trigger] grown[base.len() + k], ms[k], tm)
}

/// Appending one matching entry extends a matching growth.
proof fn lemma_grows_push(
    base: Seq<(InstructionMetadata, Instruction)>,
    cur: Seq<(InstructionMetadata, Instruction)>,
    ms: Seq<EntrySpec>,
    e: (InstructionMetadata, Instruction),
    m: EntrySpec,
    tm: Arc<TransactionMetadata>,
)
    requires
        grows_by(base, cur, ms, tm),
        entry_matches(e, m, tm),
    ensures
        grows_by(base, cur.push(e), ms.push(m), tm),
{
    assert forall|k: int| 0 <= k < base.len() implies #[trigger] cur.push(e)[k] == base[k] by {
        assert(cur.push(e)[k] == cur[k]);
    }
    assert forall|k: int| 0 <= k < ms.push(m).len() implies entry_matches(
        #[trigger] cur.push(e)[base.len() + k],
        ms.push(m)[k],
        tm,
    ) by {
        if k < ms.len() {
            assert(cur.push(e)[base.len() + k] == cur[base.len() + k]);
        } else {
            assert(cur.push(e)[base.len() + k] == e);
        }
    }
}

/// A growth of an empty accumulator is simply a matching list.
proof fn lemma_grows_from_empty(
    base: Seq<(InstructionMetadata, Instruction)>,
    grown: Seq<(InstructionMetadata, Instruction)>,
    ms: Seq<EntrySpec>,
    tm: Arc<TransactionMetadata>,
)
    requires
        grows_by(base, grown, ms, tm),
        base.len() == 0,
    ensures
        entries_match(grown, ms, tm),
{
    assert forall|k: int| 0 <= k < ms.len() implies entry_matches(#[trigger] grown[k], ms[k], tm) by {
        assert(grown[base.len() + k] == grown[k]);
    }
}

/// Two matching growths in a row are one matching growth.
proof fn lemma_grows_trans(
    base: Seq<(InstructionMetadata, Instruction)>,
    mid: Seq<(InstructionMetadata, Instruction)>,
    fin: Seq<(InstructionMetadata, Instruction)>,
    ms1: Seq<EntrySpec>,
    ms2: Seq<EntrySpec>,
    tm: Arc<TransactionMetadata>,
)
    requires
        grows_by(base, mid, ms1, tm),
        grows_by(mid, fin, ms2, tm),
    ensures
        grows_by(base, fin, ms1 + ms2, tm),
{
    assert forall|k: int| 0 <= k < base.len() implies #[trigger] fin[k] == base[k] by {
        assert(fin[k] == mid[k]);
    }
    assert forall|k: int| 0 <= k < (ms1 + ms2).len() implies entry_matches(
        #[trigger] fin[base.len() + k],
        (ms1 + ms2)[k],
        tm,
    ) by {
        if k < ms1.len() {
            assert(fin[base.len() + k] == mid[base.len() + k]);
            assert((ms1 + ms2)[k] == ms1[k]);
        } else {
            assert((ms1 + ms2)[k] == ms2[k - ms1.len()]);
            assert(base.len() + k == mid.len() + (k - ms1.len()));
        }
    }
}

/// The upgradeable program loader's key as a value.
fn upgradeable_loader() -> (r: Pubkey)
    ensures
        r.bytes@ == upgradeable_loader_key(),
{
    let r = Pubkey {
        bytes: [
            2u8, 168u8, 246u8, 145u8, 78u8, 136u8, 161u8, 176u8, 226u8, 16u8, 21u8, 62u8, 247u8,
            99u8, 174u8, 43u8, 0u8, 194u8, 185u8, 61u8, 22u8, 193u8, 36u8, 210u8, 192u8, 83u8,
            122u8, 16u8, 4u8, 128u8, 0u8, 0u8,
        ],
    };
    proof {
        assert(r.bytes@ =~= upgradeable_loader_key());
    }
    r
}

/// Whether the table holds a key with exactly these bytes.
fn table_contains(keys: &Vec<Pubkey>, key: &Pubkey) -> (r: bool)
    ensures
        r == contains_key(keys@, key.bytes@),
{
    let n = keys.len();
    let mut j: usize = 0;
    while j < n
        invariant
            n == keys@.len(),
            0 <= j <= n,
            forall|k: int| 0 <= k < j ==> (#[trigger] keys@[k]).bytes@ != key.bytes@,
        decreases n - j,
    {
        if keys[j] == *key {
            return true;
        }
        j = j + 1;
    }
    false
}

/// Whether some top-level instruction names the key at `idx` as its program.
fn key_called(instructions: &Vec<CompiledInstruction>, idx: usize) -> (r: bool)
    ensures
        r == key_called_as_program(instructions@, idx as int),
{
    if idx > 255 {
        return false;
    }
    let wanted = idx as u8;
    let n = instructions.len();
    let mut j: usize = 0;
    while j < n
        invariant
            n == instructions@.len(),
            0 <= j <= n,
            wanted as int == idx as int,
            idx <= 255,
            forall|k: int| 0 <= k < j ==> (#[trigger] instructions@[k]).program_id_index != wanted,
        decreases n - j,
    {
        if instructions[j].program_id_index == wanted {
            return true;
        }
        j = j + 1;
    }
    false
}

/// Whether the key at `idx` signs the transaction under the policy.
fn is_signer(policy: &KeyPolicy, idx: usize) -> (r: bool)
    ensures
        r == spec_is_signer(policy@, idx as int),
{
    match policy {
        KeyPolicy::Legacy { header, .. } => idx < header.num_required_signatures as usize,
        KeyPolicy::V0 { num_required_signatures, .. } => idx < *num_required_signatures as usize,
    }
}

/// Whether the key at `idx` is writable under the policy.
fn is_writable(policy: &KeyPolicy, account_keys: &Vec<Pubkey>, idx: usize) -> (r: bool)
    ensures
        r == spec_is_writable(policy@, account_keys@, idx as int),
{
    match policy {
        KeyPolicy::Legacy { header, instructions } => {
            let nrs = header.num_required_signatures as usize;
            let nross = header.num_readonly_signed_accounts as usize;
            let nrou = header.num_readonly_unsigned_accounts as usize;
            let writable_signed = if nrs >= nross {
                idx < nrs - nross
            } else {
                false
            };
            let writable_unsigned = idx >= nrs && (if account_keys.len() >= nrou {
                idx < account_keys.len() - nrou
            } else {
                false
            });
            if !(writable_signed || writable_unsigned) {
                return false;
            }
            if !key_called(instructions, idx) {
                return true;
            }
            let loader = upgradeable_loader();
            table_contains(account_keys, &loader)
        },
        KeyPolicy::V0 { writable_loaded, .. } => {
            if idx >= account_keys.len() {
                return false;
            }
            let key = account_keys[idx];
            table_contains(writable_loaded, &key)
        },
    }
}

/// Resolves a compiled instruction against the key table: the program key by
/// index (the zero key when out of range), each account index to a key with
/// the policy's flags (dropped when out of range), the payload copied.
#[verifier::loop_isolation(false)]
fn build_instruction(
    account_keys: &Vec<Pubkey>,
    instruction: &CompiledInstruction,
    policy: &KeyPolicy,
) -> (r: Instruction)
    ensures
        instruction_matches(r, spec_build_instruction(policy@, account_keys@, *instruction)),
{
    let program_id = if (instruction.program_id_index as usize) < account_keys.len() {
        account_keys[instruction.program_id_index as usize]
    } else {
        Pubkey::zeroed()
    };
    let mut accounts: Vec<AccountMeta> = Vec::new();
    let n = instruction.accounts.len();
    let mut j: usize = 0;
    while j < n
        invariant
            0 <= j <= n,
            account_list_matches(
                accounts@,
                spec_account_metas(policy@, account_keys@, instruction.accounts@.take(j as int)),
            ),
        decreases n - j,
    {
        let ghost prefix = instruction.accounts@.take(j as int);
        let ghost next_prefix = instruction.accounts@.take(j + 1int);
        proof {
            assert(next_prefix.drop_last() =~= prefix);
            assert(next_prefix.last() == instruction.accounts@[j as int]);
        }
        let ai = instruction.accounts[j] as usize;
        if ai < account_keys.len() {
            let meta = AccountMeta {
                pubkey: account_keys[ai],
                is_writable: is_writable(policy, account_keys, ai),
                is_signer: is_signer(policy, ai),
            };
            accounts.push(meta);
        }
        j = j + 1;
    }
    proof {
        assert(instruction.accounts@.take(n as int) =~= instruction.accounts@);
    }
    let mut data: Vec<u8> = Vec::new();
    let dn = instruction.data.len();
    let mut k: usize = 0;
    while k < dn
        invariant
            0 <= k <= dn,
            data@ == instruction.data@.take(k as int),
        decreases dn - k,
    {
        data.push(instruction.data[k]);
        proof {
            assert(instruction.data@.take(k + 1int) =~= instruction.data@.take(k as int).push(
                instruction.data@[k as int],
            ));
        }
        k = k + 1;
    }
    proof {
        assert(instruction.data@.take(dn as int) =~= instruction.data@);
    }
    Instruction { program_id, accounts, data }
}

/// The first `n` bytes of the counter array, as an owned path.
fn prefix_bytes(v: &Vec<u8>, n: usize) -> (r: Vec<u8>)
    requires
        n <= v@.len(),
    ensures
        r@ == v@.take(n as int),
{
    let mut r: Vec<u8> = Vec::new();
    let mut k: usize = 0;
    while k < n
        invariant
            0 <= k <= n <= v@.len(),
            r@ == v@.take(k as int),
        decreases n - k,
    {
        r.push(v[k]);
        proof {
            assert(v@.take(k + 1int) =~= v@.take(k as int).push(v@[k as int]));
        }
        k = k + 1;
    }
    r
}

/// Every counter of a group's path state is bounded by the group's index
/// plus the number of entries folded in, and never negative.
proof fn lemma_group_state_bounds(g: InnerInstructions, j: int)
    requires
        0 <= j <= g.instructions@.len(),
        forall|k: int|
            0 <= k < g.instructions@.len() ==> 1 <= hint_height(#[trigger] g.instructions@[k])
                <= MAX_INSTRUCTION_STACK_DEPTH as int,
    ensures
        group_state(g, j).0.len() == MAX_INSTRUCTION_STACK_DEPTH as int,
        forall|d: int|
            0 <= d < MAX_INSTRUCTION_STACK_DEPTH as int ==> 0 <= #[trigger] group_state(g, j).0[d]
                <= g.index as int + j,
        0 <= group_state(g, j).1 <= MAX_INSTRUCTION_STACK_DEPTH as int,
    decreases j,
{
    if j > 0 {
        lemma_group_state_bounds(g, j - 1);
    }
}

/// Appends the entries of one inner-instruction group, updating the running
/// path state exactly as the group specification folds it.
#[verifier::loop_isolation(false)]
#[verifier::rlimit(100)]
fn process_group(
    account_keys: &Vec<Pubkey>,
    policy: &KeyPolicy,
    g: &InnerInstructions,
    transaction_metadata: &Arc<TransactionMetadata>,
    result: &mut Vec<(InstructionMetadata, Instruction)>,
)
    requires
        g.index as int + g.instructions@.len() <= 255,
        forall|k: int|
            0 <= k < g.instructions@.len() ==> 1 <= hint_height(#[trigger] g.instructions@[k])
                <= MAX_INSTRUCTION_STACK_DEPTH as int,
    ensures
        grows_by(
            old(result)@,
            final(result)@,
            group_entries(policy@, account_keys@, *g),
            *transaction_metadata,
        ),
{
    let ghost pol = policy@;
    let ghost keys = account_keys@;
    let ghost ms_group = group_entries(pol, keys, *g);
    let mut path_stack: Vec<u8> = Vec::new();
    path_stack.push(g.index);
    while path_stack.len() < MAX_INSTRUCTION_STACK_DEPTH
        invariant
            1 <= path_stack@.len() <= MAX_INSTRUCTION_STACK_DEPTH,
            path_stack@[0] == g.index,
            forall|d: int| 1 <= d < path_stack@.len() ==> path_stack@[d] == 0u8,
        decreases MAX_INSTRUCTION_STACK_DEPTH - path_stack@.len(),
    {
        path_stack.push(0u8);
    }
    let mut prev_height: usize = 0;
    let n = g.instructions.len();
    let mut j: usize = 0;
    proof {
        assert(ms_group.take(0) =~= Seq::<EntrySpec>::empty());
        assert(grows_by(old(result)@, result@, ms_group.take(0), *transaction_metadata));
        assert forall|d: int|
            0 <= d < MAX_INSTRUCTION_STACK_DEPTH as int implies path_stack@[d] as int
            == group_state(*g, 0).0[d] by {}
    }
    while j < n
        invariant
            0 <= j <= n,
            path_stack@.len() == MAX_INSTRUCTION_STACK_DEPTH,
            prev_height as int == group_state(*g, j as int).1,
            forall|d: int|
                0 <= d < MAX_INSTRUCTION_STACK_DEPTH as int ==> (#[trigger] path_stack@[d]) as int
                    == group_state(*g, j as int).0[d],
            grows_by(old(result)@, result@, ms_group.take(j as int), *transaction_metadata),
        decreases n - j,
    {
        let ghost pre_entries = result@;
        let inner_inst = &g.instructions[j];
        let stack_height: usize = match inner_inst.stack_height {
            Some(h) => h as usize,
            None => 1,
        };
        proof {
            assert(1 <= hint_height(g.instructions@[j as int]));
            assert(stack_height as int == hint_height(g.instructions@[j as int]));
            lemma_group_state_bounds(*g, j as int);
        }
        if stack_height > prev_height {
            path_stack[stack_height - 1] = 0;
        } else {
            let cur = path_stack[stack_height - 1];
            path_stack[stack_height - 1] = cur + 1;
        }
        proof {
            assert forall|d: int|
                0 <= d < MAX_INSTRUCTION_STACK_DEPTH as int implies (
            #[trigger] path_stack@[d]) as int == group_state(*g, j + 1int).0[d] by {}
        }
        let absolute_path = prefix_bytes(&path_stack, stack_height);
        let metadata = InstructionMetadata {
            transaction_metadata: clone_arc(transaction_metadata),
            stack_height: stack_height as u32,
            index: g.index as u32,
            absolute_path,
        };
        let built = build_instruction(account_keys, &inner_inst.instruction, policy);
        let entry = (metadata, built);
        proof {
            let m = ms_group[j as int];
            assert(entry_matches(entry, m, *transaction_metadata));
            lemma_grows_push(
                old(result)@,
                pre_entries,
                ms_group.take(j as int),
                entry,
                m,
                *transaction_metadata,
            );
            assert(ms_group.take(j + 1int) =~= ms_group.take(j as int).push(m));
        }
        result.push(entry);
        prev_height = stack_height;
        j = j + 1;
    }
    proof {
        assert(ms_group.take(n as int) =~= ms_group);
    }
}

/// The byte-counter bounds on one group.
pub open spec fn group_ok(g: InnerInstructions) -> bool {
    &&& g.index as int + g.instructions@.len() <= 255
    &&& forall|k: int|
        0 <= k < g.instructions@.len() ==> 1 <= hint_height(#[trigger] g.instructions@[k])
            <= MAX_INSTRUCTION_STACK_DEPTH as int
}

/// Walks the top-level instructions in order; after each one, appends every
/// inner-instruction group recorded under its index.
#[verifier::loop_isolation(false)]
#[verifier::rlimit(100)]
fn process_instructions(
    account_keys: &Vec<Pubkey>,
    instructions: &Vec<CompiledInstruction>,
    inner: &Option<Vec<InnerInstructions>>,
    transaction_metadata: &Arc<TransactionMetadata>,
    result: &mut Vec<(InstructionMetadata, Instruction)>,
    policy: &KeyPolicy,
)
    requires
        instructions@.len() <= 256,
        forall|k: int| 0 <= k < opt_groups(*inner).len() ==> group_ok(#[trigger] opt_groups(*inner)[k]),
    ensures
        grows_by(
            old(result)@,
            final(result)@,
            spec_extract(
                policy@,
                account_keys@,
                instructions@,
                opt_groups(*inner),
                instructions@.len() as int,
            ),
            *transaction_metadata,
        ),
{
    let ghost pol = policy@;
    let ghost keys = account_keys@;
    let ghost groups = opt_groups(*inner);
    let n = instructions.len();
    let mut i: usize = 0;
    proof {
        assert(spec_extract(pol, keys, instructions@, groups, 0) =~= Seq::<EntrySpec>::empty());
        assert(grows_by(
            old(result)@,
            result@,
            spec_extract(pol, keys, instructions@, groups, 0),
            *transaction_metadata,
        ));
    }
    while i < n
        invariant
            0 <= i <= n,
            grows_by(
                old(result)@,
                result@,
                spec_extract(pol, keys, instructions@, groups, i as int),
                *transaction_metadata,
            ),
        decreases n - i,
    {
        let ghost pre_ms = spec_extract(pol, keys, instructions@, groups, i as int);
        let ghost top_m = EntrySpec {
            stack_height: 1u32,
            index: (i as int) as u32,
            path: seq![i as int],
            instruction: spec_build_instruction(pol, keys, instructions@[i as int]),
        };
        let mut absolute_path: Vec<u8> = Vec::new();
        absolute_path.push(i as u8);
        let metadata = InstructionMetadata {
            transaction_metadata: clone_arc(transaction_metadata),
            stack_height: 1,
            index: i as u32,
            absolute_path,
        };
        let built = build_instruction(account_keys, &instructions[i], policy);
        let entry = (metadata, built);
        proof {
            assert(entry_matches(entry, top_m, *transaction_metadata));
            lemma_grows_push(
                old(result)@,
                result@,
                pre_ms,
                entry,
                top_m,
                *transaction_metadata,
            );
        }
        result.push(entry);
        if let Some(inner_vec) = inner {
            let gcount = inner_vec.len();
            let mut gk: usize = 0;
            proof {
                assert(pre_ms.push(top_m) =~= pre_ms + seq![top_m] + groups_for(
                    pol,
                    keys,
                    groups,
                    i as int,
                    0,
                ));
            }
            while gk < gcount
                invariant
                    0 <= gk <= gcount,
                    grows_by(
                        old(result)@,
                        result@,
                        pre_ms + seq![top_m] + groups_for(pol, keys, groups, i as int, gk as int),
                        *transaction_metadata,
                    ),
                decreases gcount - gk,
            {
                let ghost mid_ms = pre_ms + seq![top_m] + groups_for(
                    pol,
                    keys,
                    groups,
                    i as int,
                    gk as int,
                );
                let inner_tx = &inner_vec[gk];
                if inner_tx.index as usize == i {
                    let ghost mid_res = result@;
                    process_group(
                        account_keys,
                        policy,
                        inner_tx,
                        transaction_metadata,
                        result,
                    );
                    proof {
                        lemma_grows_trans(
                            old(result)@,
                            mid_res,
                            result@,
                            mid_ms,
                            group_entries(pol, keys, groups[gk as int]),
                            *transaction_metadata,
                        );
                        assert(pre_ms + seq![top_m] + groups_for(
                            pol,
                            keys,
                            groups,
                            i as int,
                            gk + 1int,
                        ) =~= mid_ms + group_entries(pol, keys, groups[gk as int]));
                    }
                } else {
                    proof {
                        assert(pre_ms + seq![top_m] + groups_for(
                            pol,
                            keys,
                            groups,
                            i as int,
                            gk + 1int,
                        ) =~= mid_ms);
                    }
                }
                gk = gk + 1;
            }
        } else {
            proof {
                assert(groups.len() == 0);
                assert(pre_ms.push(top_m) =~= pre_ms + seq![top_m] + groups_for(
                    pol,
                    keys,
                    groups,
                    i as int,
                    groups.len() as int,
                ));
            }
        }
        proof {
            assert(spec_extract(pol, keys, instructions@, groups, i + 1int) =~= pre_ms
                + seq![top_m] + groups_for(pol, keys, groups, i as int, groups.len() as int));
        }
        i = i + 1;
    }
}

/// Appends a copy of every key of `src` to `dst`.
fn extend_keys(dst: &mut Vec<Pubkey>, src: &Vec<Pubkey>)
    ensures
        final(dst)@ == old(dst)@ + src@,
{
    let n = src.len();
    let mut k: usize = 0;
    while k < n
        invariant
            0 <= k <= n == src@.len(),
            dst@ == old(dst)@ + src@.take(k as int),
        decreases n - k,
    {
        dst.push(src[k]);
        proof {
            assert(old(dst)@ + src@.take(k + 1int) =~= (old(dst)@ + src@.take(k as int)).push(
                src@[k as int],
            ));
        }
        k = k + 1;
    }
    proof {
        assert(old(dst)@ + src@.take(n as int) =~= old(dst)@ + src@);
    }
}

/// Every entry of one group carries a stack height in the runtime's range
/// and a path exactly as long as that height.
proof fn lemma_group_entries_depth(pol: PolicySpec, keys: Seq<Pubkey>, g: InnerInstructions)
    requires
        group_ok(g),
    ensures
        forall|j: int|
            0 <= j < group_entries(pol, keys, g).len() ==> {
                let m = #[trigger] group_entries(pol, keys, g)[j];
                &&& 1 <= m.stack_height <= MAX_INSTRUCTION_STACK_DEPTH as int
                &&& m.path.len() == m.stack_height
            },
{
    assert forall|j: int| 0 <= j < group_entries(pol, keys, g).len() implies {
        let m = #[trigger] group_entries(pol, keys, g)[j];
        &&& 1 <= m.stack_height <= MAX_INSTRUCTION_STACK_DEPTH as int
        &&& m.path.len() == m.stack_height
    } by {
        lemma_group_state_bounds(g, j + 1);
        assert(1 <= hint_height(g.instructions@[j]) <= MAX_INSTRUCTION_STACK_DEPTH as int);
    }
}

/// Every extracted entry carries a stack height in the runtime's range and a
/// path exactly as long as that height (the depth invariant).
proof fn lemma_extract_depth(
    pol: PolicySpec,
    keys: Seq<Pubkey>,
    instrs: Seq<CompiledInstruction>,
    inner: Seq<InnerInstructions>,
    upto: int,
)
    requires
        upto <= 256,
        forall|k: int| 0 <= k < inner.len() ==> group_ok(#[trigger] inner[k]),
    ensures
        forall|j: int|
            0 <= j < spec_extract(pol, keys, instrs, inner, upto).len() ==> {
                let m = #[trigger] spec_extract(pol, keys, instrs, inner, upto)[j];
                &&& 1 <= m.stack_height <= MAX_INSTRUCTION_STACK_DEPTH as int
                &&& m.path.len() == m.stack_height
            },
    decreases upto,
{
    if upto > 0 {
        lemma_extract_depth(pol, keys, instrs, inner, upto - 1);
        lemma_groups_for_depth(pol, keys, inner, upto - 1, inner.len() as int);
        let prev = spec_extract(pol, keys, instrs, inner, upto - 1);
        let block = spec_block(pol, keys, instrs, inner, upto - 1);
        let tail = groups_for(pol, keys, inner, upto - 1, inner.len() as int);
        assert forall|j: int| 0 <= j < spec_extract(pol, keys, instrs, inner, upto).len() implies {
            let m = #[trigger] spec_extract(pol, keys, instrs, inner, upto)[j];
            &&& 1 <= m.stack_height <= MAX_INSTRUCTION_STACK_DEPTH as int
            &&& m.path.len() == m.stack_height
        } by {
            if j < prev.len() {
                assert(spec_extract(pol, keys, instrs, inner, upto)[j] == prev[j]);
            } else if j == prev.len() {
                assert(spec_extract(pol, keys, instrs, inner, upto)[j] == block[0]);
            } else {
                assert(spec_extract(pol, keys, instrs, inner, upto)[j] == tail[j - prev.len() - 1]);
            }
        }
    }
}

/// The depth invariant across every group that names top-level index `i`.
proof fn lemma_groups_for_depth(
    pol: PolicySpec,
    keys: Seq<Pubkey>,
    inner: Seq<InnerInstructions>,
    i: int,
    upto: int,
)
    requires
        forall|k: int| 0 <= k < inner.len() ==> group_ok(#[trigger] inner[k]),
        upto <= inner.len(),
    ensures
        forall|j: int|
            0 <= j < groups_for(pol, keys, inner, i, upto).len() ==> {
                let m = #[trigger] groups_for(pol, keys, inner, i, upto)[j];
                &&& 1 <= m.stack_height <= MAX_INSTRUCTION_STACK_DEPTH as int
                &&& m.path.len() == m.stack_height
            },
    decreases upto,
{
    if upto > 0 {
        lemma_groups_for_depth(pol, keys, inner, i, upto - 1);
        if inner[upto - 1].index as int == i {
            lemma_group_entries_depth(pol, keys, inner[upto - 1]);
        }
        let prev = groups_for(pol, keys, inner, i, upto - 1);
        assert forall|j: int| 0 <= j < groups_for(pol, keys, inner, i, upto).len() implies {
            let m = #[trigger] groups_for(pol, keys, inner, i, upto)[j];
            &&& 1 <= m.stack_height <= MAX_INSTRUCTION_STACK_DEPTH as int
            &&& m.path.len() == m.stack_height
        } by {
            if j < prev.len() {
                assert(groups_for(pol, keys, inner, i, upto)[j] == prev[j]);
            } else {
                assert(groups_for(pol, keys, inner, i, upto)[j] == group_entries(
                    pol,
                    keys,
                    inner[upto - 1],
                )[j - prev.len()]);
            }
        }
    }
}

/// The position of the last inner instruction before `k` recorded at depth
/// `d` in the group, or -1 when there is none.
pub open spec fn prev_at_depth(g: InnerInstructions, k: int, d: int) -> int
    decreases k,
{
    if k <= 0 {
        -1
    } else if hint_height(g.instructions@[k - 1]) == d {
        k - 1
    } else {
        prev_at_depth(g, k - 1, d)
    }
}

/// What `prev_at_depth` finds: a position below `k` at depth `d` with no
/// later one, or nothing at all.
proof fn lemma_prev_at_depth(g: InnerInstructions, k: int, d: int)
    requires
        0 <= k,
    ensures
        prev_at_depth(g, k, d) >= 0 ==> {
            &&& prev_at_depth(g, k, d) < k
            &&& hint_height(g.instructions@[prev_at_depth(g, k, d)]) == d
            &&& forall|j: int|
                prev_at_depth(g, k, d) < j < k ==> hint_height(#[trigger] g.instructions@[j]) != d
        },
    decreases k,
{
    if k > 0 && hint_height(g.instructions@[k - 1]) != d {
        lemma_prev_at_depth(g, k - 1, d);
    }
}

/// Steps that never touch depth `d` leave its counter alone.
proof fn lemma_state_slot_frame(g: InnerInstructions, p: int, q: int, d: int)
    requires
        group_ok(g),
        0 <= p <= q <= g.instructions@.len(),
        1 <= d <= MAX_INSTRUCTION_STACK_DEPTH as int,
    ensures
        (forall|j: int| p <= j < q ==> hint_height(#[trigger] g.instructions@[j]) != d)
            ==> group_state(g, q).0[d - 1] == group_state(g, p).0[d - 1],
    decreases q - p,
{
    if q > p {
        lemma_state_slot_frame(g, p, q - 1, d);
        lemma_group_state_bounds(g, q - 1);
        let h = hint_height(g.instructions@[q - 1]);
        assert(1 <= h <= MAX_INSTRUCTION_STACK_DEPTH as int);
        if h != d {
            assert(group_state(g, q).0[d - 1] == group_state(g, q - 1).0[d - 1]);
        }
    }
}

/// Path monotonicity, the reset direction: an inner instruction that sits
/// strictly deeper than its predecessor in the group (or opens the group)
/// starts a fresh sibling count, so the last element of its path is 0.
pub proof fn lemma_path_reset(pol: PolicySpec, keys: Seq<Pubkey>, g: InnerInstructions, k: int)
    requires
        group_ok(g),
        0 <= k < g.instructions@.len(),
        k == 0 || hint_height(g.instructions@[k]) > hint_height(g.instructions@[k - 1]),
    ensures
        group_entries(pol, keys, g)[k].path.last() == 0,
{
    lemma_group_state_bounds(g, k);
    let h = hint_height(g.instructions@[k]);
    assert(group_state(g, k + 1).0 == group_state(g, k).0.update(h - 1, 0));
}

/// A position strictly below `k` at depth `d` makes `prev_at_depth` find
/// one.
proof fn lemma_prev_at_depth_found(g: InnerInstructions, k: int, d: int, p: int)
    requires
        0 <= p < k,
        hint_height(g.instructions@[p]) == d,
    ensures
        prev_at_depth(g, k, d) >= 0,
    decreases k,
{
    if hint_height(g.instructions@[k - 1]) != d {
        lemma_prev_at_depth_found(g, k - 1, d, p);
    }
}

/// In a group whose hints are in pre-order and start at depth 2, every depth
/// from 2 up to the current one has already been recorded.
proof fn lemma_depth_reached(g: InnerInstructions, k: int, d: int)
    requires
        conformant_group(g),
        forall|j: int|
            0 <= j < g.instructions@.len() ==> 2 <= hint_height(#[trigger] g.instructions@[j]),
        0 <= k < g.instructions@.len(),
        2 <= d <= hint_height(g.instructions@[k]),
    ensures
        exists|p: int| 0 <= p <= k && hint_height(#[trigger] g.instructions@[p]) == d,
    decreases k,
{
    if d == hint_height(g.instructions@[k]) {
        assert(hint_height(g.instructions@[k]) == d);
    } else {
        assert(k > 0);
        assert(d < hint_height(g.instructions@[k]) <= hint_height(g.instructions@[k - 1]) + 1);
        lemma_depth_reached(g, k - 1, d);
    }
}

/// Under protocol pre-order with hints starting at depth 2, an inner
/// instruction that stays at its predecessor's depth or returns to a
/// shallower one always has a most recent group entry at its own depth.
pub proof fn lemma_prev_at_depth_exists(g: InnerInstructions, k: int)
    requires
        conformant_group(g),
        forall|j: int|
            0 <= j < g.instructions@.len() ==> 2 <= hint_height(#[trigger] g.instructions@[j]),
        1 <= k < g.instructions@.len(),
        hint_height(g.instructions@[k]) <= hint_height(g.instructions@[k - 1]),
    ensures
        prev_at_depth(g, k, hint_height(g.instructions@[k])) >= 0,
{
    let d = hint_height(g.instructions@[k]);
    lemma_depth_reached(g, k - 1, d);
    let p = choose|p: int| 0 <= p <= k - 1 && hint_height(#[trigger] g.instructions@[p]) == d;
    lemma_prev_at_depth_found(g, k, d, p);
}

/// Path monotonicity, the increment direction: an inner instruction at the
/// same depth as its predecessor, or shallower, continues the sibling count
/// of the most recent instruction the group recorded at that depth,
/// incrementing it by exactly one.
pub proof fn lemma_path_increment(pol: PolicySpec, keys: Seq<Pubkey>, g: InnerInstructions, k: int)
    requires
        group_ok(g),
        1 <= k < g.instructions@.len(),
        hint_height(g.instructions@[k]) <= hint_height(g.instructions@[k - 1]),
        prev_at_depth(g, k, hint_height(g.instructions@[k])) >= 0,
    ensures
        ({
            let h = hint_height(g.instructions@[k]);
            let p = prev_at_depth(g, k, h);
            group_entries(pol, keys, g)[k].path[h - 1] == group_entries(pol, keys, g)[p].path[h - 1]
                + 1
        }),
{
    let h = hint_height(g.instructions@[k]);
    let p = prev_at_depth(g, k, h);
    lemma_prev_at_depth(g, k, h);
    lemma_group_state_bounds(g, p + 1);
    lemma_group_state_bounds(g, k);
    lemma_state_slot_frame(g, p + 1, k, h);
    assert(group_state(g, k).1 == hint_height(g.instructions@[k - 1]));
    assert(group_state(g, k + 1).0 == group_state(g, k).0.update(h - 1, group_state(g, k).0[h - 1]
        + 1));
    assert(group_state(g, p + 1).0 == group_state(g, p).0.update(
        h - 1,
        if h > group_state(g, p).1 {
            0
        } else {
            group_state(g, p).0[h - 1] + 1
        },
    ));
}

/// Whether a group's depth hints are in execution pre-order: the group opens
/// at most one level below its top-level instruction, and never jumps more
/// than one level deeper from one inner instruction to the next. The
/// protocol guarantees this of every conformant record.
pub open spec fn conformant_group(g: InnerInstructions) -> bool {
    &&& (g.instructions@.len() > 0 ==> hint_height(g.instructions@[0]) <= 2)
    &&& forall|j: int|
        1 <= j < g.instructions@.len() ==> hint_height(#[trigger] g.instructions@[j])
            <= hint_height(g.instructions@[j - 1]) + 1
}

/// Whether every entry's stack height steps up by at most one at a time.
pub open spec fn steps_ok(ms: Seq<EntrySpec>) -> bool {
    forall|i: int|
        1 <= i < ms.len() ==> (#[trigger] ms[i]).stack_height <= ms[i - 1].stack_height + 1
}

/// Whether every entry's stack height is in the runtime's range.
pub open spec fn heights_in_range(ms: Seq<EntrySpec>) -> bool {
    forall|i: int|
        0 <= i < ms.len() ==> 1 <= (#[trigger] ms[i]).stack_height
            <= MAX_INSTRUCTION_STACK_DEPTH as int
}

/// Two step-bounded lists concatenate into one if the boundary also steps by
/// at most one.
proof fn lemma_steps_concat(a: Seq<EntrySpec>, b: Seq<EntrySpec>)
    requires
        steps_ok(a),
        steps_ok(b),
        a.len() > 0 && b.len() > 0 ==> b[0].stack_height <= a.last().stack_height + 1,
    ensures
        steps_ok(a + b),
{
    assert forall|i: int| 1 <= i < (a + b).len() implies (#[trigger] (a + b)[i]).stack_height <= (a
        + b)[i - 1].stack_height + 1 by {
        if i < a.len() {
            assert((a + b)[i] == a[i]);
            assert((a + b)[i - 1] == a[i - 1]);
        } else if i == a.len() {
            assert((a + b)[i] == b[0]);
            assert((a + b)[i - 1] == a.last());
        } else {
            assert((a + b)[i] == b[i - a.len()]);
            assert((a + b)[i - 1] == b[i - a.len() - 1]);
        }
    }
}

/// A conformant group's entries are step-bounded and open at height 2 at
/// most.
proof fn lemma_group_entries_steps(pol: PolicySpec, keys: Seq<Pubkey>, g: InnerInstructions)
    requires
        group_ok(g),
        conformant_group(g),
    ensures
        steps_ok(group_entries(pol, keys, g)),
        heights_in_range(group_entries(pol, keys, g)),
        group_entries(pol, keys, g).len() > 0 ==> group_entries(pol, keys, g)[0].stack_height <= 2,
{
    let ms = group_entries(pol, keys, g);
    assert forall|i: int| 1 <= i < ms.len() implies (#[trigger] ms[i]).stack_height <= ms[i
        - 1].stack_height + 1 by {
        assert(hint_height(g.instructions@[i]) <= hint_height(g.instructions@[i - 1]) + 1);
    }
    assert forall|i: int|
        0 <= i < ms.len() implies 1 <= (#[trigger] ms[i]).stack_height
        <= MAX_INSTRUCTION_STACK_DEPTH as int by {
        assert(1 <= hint_height(g.instructions@[i]) <= MAX_INSTRUCTION_STACK_DEPTH as int);
    }
}

/// The concatenated groups of one top-level index are step-bounded and open
/// at height 2 at most.
proof fn lemma_groups_for_steps(
    pol: PolicySpec,
    keys: Seq<Pubkey>,
    inner: Seq<InnerInstructions>,
    i: int,
    upto: int,
)
    requires
        upto <= inner.len(),
        forall|k: int| 0 <= k < inner.len() ==> group_ok(#[trigger] inner[k]),
        forall|k: int| 0 <= k < inner.len() ==> conformant_group(#[trigger] inner[k]),
    ensures
        steps_ok(groups_for(pol, keys, inner, i, upto)),
        heights_in_range(groups_for(pol, keys, inner, i, upto)),
        groups_for(pol, keys, inner, i, upto).len() > 0 ==> groups_for(
            pol,
            keys,
            inner,
            i,
            upto,
        )[0].stack_height <= 2,
    decreases upto,
{
    if upto > 0 {
        lemma_groups_for_steps(pol, keys, inner, i, upto - 1);
        let prev = groups_for(pol, keys, inner, i, upto - 1);
        if inner[upto - 1].index as int == i {
            let tail = group_entries(pol, keys, inner[upto - 1]);
            lemma_group_entries_steps(pol, keys, inner[upto - 1]);
            lemma_steps_concat(prev, tail);
            assert forall|k: int|
                0 <= k < (prev + tail).len() implies 1 <= (#[trigger] (prev + tail)[k]).stack_height
                <= MAX_INSTRUCTION_STACK_DEPTH as int by {
                if k < prev.len() {
                    assert((prev + tail)[k] == prev[k]);
                } else {
                    assert((prev + tail)[k] == tail[k - prev.len()]);
                }
            }
            if prev.len() > 0 {
                assert((prev + tail)[0] == prev[0]);
            }
        } else {
            assert(prev + Seq::<EntrySpec>::empty() =~= prev);
        }
    }
}

/// A conformant transaction record extracts to a list in execution
/// pre-order: it opens at the top level and never jumps more than one level
/// deeper from one entry to the next. The hierarchy builder's round-trip
/// guarantee therefore applies to every extracted list.
pub proof fn lemma_extract_pre_order(
    pol: PolicySpec,
    keys: Seq<Pubkey>,
    instrs: Seq<CompiledInstruction>,
    inner: Seq<InnerInstructions>,
    upto: int,
)
    requires
        upto <= 256,
        forall|k: int| 0 <= k < inner.len() ==> group_ok(#[trigger] inner[k]),
        forall|k: int| 0 <= k < inner.len() ==> conformant_group(#[trigger] inner[k]),
    ensures
        steps_ok(spec_extract(pol, keys, instrs, inner, upto)),
        heights_in_range(spec_extract(pol, keys, instrs, inner, upto)),
        spec_extract(pol, keys, instrs, inner, upto).len() > 0 ==> spec_extract(
            pol,
            keys,
            instrs,
            inner,
            upto,
        )[0].stack_height == 1,
    decreases upto,
{
    if upto > 0 {
        lemma_extract_pre_order(pol, keys, instrs, inner, upto - 1);
        lemma_groups_for_steps(pol, keys, inner, upto - 1, inner.len() as int);
        let prev = spec_extract(pol, keys, instrs, inner, upto - 1);
        let top = seq![
            EntrySpec {
                stack_height: 1u32,
                index: (upto - 1) as u32,
                path: seq![upto - 1],
                instruction: spec_build_instruction(pol, keys, instrs[upto - 1]),
            },
        ];
        let tail = groups_for(pol, keys, inner, upto - 1, inner.len() as int);
        let block = spec_block(pol, keys, instrs, inner, upto - 1);
        assert(block =~= top + tail);
        lemma_steps_concat(top, tail);
        assert forall|k: int|
            0 <= k < block.len() implies 1 <= (#[trigger] block[k]).stack_height
            <= MAX_INSTRUCTION_STACK_DEPTH as int by {
            if k == 0 {
                assert(block[k] == top[0]);
            } else {
                assert(block[k] == tail[k - 1]);
            }
        }
        lemma_steps_concat(prev, block);
        assert forall|k: int|
            0 <= k < (prev + block).len() implies 1 <= (#[trigger] (prev + block)[k]).stack_height
            <= MAX_INSTRUCTION_STACK_DEPTH as int by {
            if k < prev.len() {
                assert((prev + block)[k] == prev[k]);
            } else {
                assert((prev + block)[k] == block[k - prev.len()]);
            }
        }
        if prev.len() > 0 {
            assert((prev + block)[0] == prev[0]);
        } else {
            assert(prev + block =~= block);
        }
    }
}

/// The composition law: what `extract_instructions_with_metadata` returns
/// for a conformant record (pre-order depth hints, at most one level deeper
/// at a time) is itself in execution pre-order, so the hierarchy builder's
/// round-trip guarantee applies to it.
pub proof fn lemma_extract_feeds_builder(
    message: VersionedMessage,
    meta: TransactionStatusMeta,
    tm: Arc<TransactionMetadata>,
    r: Seq<(InstructionMetadata, Instruction)>,
)
    requires
        extract_input_ok(message, meta),
        forall|k: int|
            0 <= k < inner_groups(meta).len() ==> conformant_group(#[trigger] inner_groups(meta)[k]),
        entries_match(r, spec_extract_transaction(message, meta), tm),
    ensures
        crate::hierarchy::pre_order(r),
{
    let ms = spec_extract_transaction(message, meta);
    lemma_extract_pre_order(
        message_policy(message, meta),
        resolved_keys(message, meta),
        message_instructions(message),
        inner_groups(meta),
        message_instructions(message).len() as int,
    );
    assert forall|i: int|
        0 <= i < r.len() implies crate::hierarchy::valid_stack_height(crate::hierarchy::entry_height(
        #[trigger] r[i],
    )) by {
        assert(entry_matches(r[i], ms[i], tm));
        assert(1 <= ms[i].stack_height <= MAX_INSTRUCTION_STACK_DEPTH as int);
    }
    assert forall|i: int|
        1 <= i < r.len() implies crate::hierarchy::entry_height(#[trigger] r[i])
        <= crate::hierarchy::entry_height(r[i - 1]) + 1 by {
        assert(entry_matches(r[i], ms[i], tm));
        assert(entry_matches(r[i - 1], ms[i - 1], tm));
        assert(ms[i].stack_height <= ms[i - 1].stack_height + 1);
    }
    if r.len() > 0 {
        assert(entry_matches(r[0], ms[0], tm));
    }
}

/// Path monotonicity for consecutive inner instructions of one group, under
/// the order the protocol guarantees (hints in pre-order, opening at depth
/// 2): an entry strictly deeper than its predecessor gets a path ending in
/// 0; an entry at the same depth or shallower gets a path whose element at
/// its own depth is exactly one more than in the most recent group entry at
/// that depth, which always exists.
pub proof fn lemma_path_monotonic(pol: PolicySpec, keys: Seq<Pubkey>, g: InnerInstructions, k: int)
    requires
        group_ok(g),
        conformant_group(g),
        forall|j: int|
            0 <= j < g.instructions@.len() ==> 2 <= hint_height(#[trigger] g.instructions@[j]),
        1 <= k < g.instructions@.len(),
    ensures
        hint_height(g.instructions@[k]) > hint_height(g.instructions@[k - 1]) ==> group_entries(
            pol,
            keys,
            g,
        )[k].path.last() == 0,
        hint_height(g.instructions@[k]) <= hint_height(g.instructions@[k - 1]) ==> {
            let h = hint_height(g.instructions@[k]);
            let p = prev_at_depth(g, k, h);
            &&& p >= 0
            &&& group_entries(pol, keys, g)[k].path[h - 1] == group_entries(pol, keys, g)[p].path[h
                - 1] + 1
        },
{
    if hint_height(g.instructions@[k]) > hint_height(g.instructions@[k - 1]) {
        lemma_path_reset(pol, keys, g, k);
    } else {
        lemma_prev_at_depth_exists(g, k);
        lemma_path_increment(pol, keys, g, k);
    }
}

/// Extracts every instruction of a transaction, top-level and inner, in
/// execution order, each paired with freshly computed metadata: shared
/// transaction metadata, 1-based stack height, owning top-level index, and
/// the absolute path of sibling ranks.
///
/// Unresolvable key indices degrade to defaults (zero program key, dropped
/// account) rather than failing. The byte-wide path counters and the
/// runtime's depth bound must hold of the input; the runtime never exceeds
/// them.
#[verifier::loop_isolation(false)]
pub fn extract_instructions_with_metadata(
    transaction_metadata: &Arc<TransactionMetadata>,
    message: &VersionedMessage,
    meta: &TransactionStatusMeta,
) -> (r: InstructionsWithMetadata)
    requires
        extract_input_ok(*message, *meta),
    ensures
        entries_match(r@, spec_extract_transaction(*message, *meta), *transaction_metadata),
        forall|j: int|
            0 <= j < r@.len() ==> {
                let e = #[trigger] r@[j];
                &&& 1 <= e.0.stack_height <= MAX_INSTRUCTION_STACK_DEPTH as int
                &&& e.0.absolute_path@.len() == e.0.stack_height
            },
{
    proof {
        assert forall|k: int|
            0 <= k < opt_groups(meta.inner_instructions).len() implies group_ok(
            #[trigger] opt_groups(meta.inner_instructions)[k],
        ) by {
            assert(inner_groups(*meta)[k] == opt_groups(meta.inner_instructions)[k]);
        }
    }
    let mut result: InstructionsWithMetadata = Vec::with_capacity(32);
    match message {
        VersionedMessage::Legacy(m) => {
            let policy = KeyPolicy::Legacy { header: m.header, instructions: &m.instructions };
            process_instructions(
                &m.account_keys,
                &m.instructions,
                &meta.inner_instructions,
                transaction_metadata,
                &mut result,
                &policy,
            );
        },
        VersionedMessage::V0(m) => {
            let mut account_keys: Vec<Pubkey> = Vec::new();
            extend_keys(&mut account_keys, &m.account_keys);
            extend_keys(&mut account_keys, &meta.loaded_addresses.writable);
            extend_keys(&mut account_keys, &meta.loaded_addresses.readonly);
            proof {
                assert(account_keys@ =~= resolved_keys(*message, *meta));
            }
            let policy = KeyPolicy::V0 {
                writable_loaded: &meta.loaded_addresses.writable,
                num_required_signatures: m.header.num_required_signatures,
            };
            process_instructions(
                &account_keys,
                &m.instructions,
                &meta.inner_instructions,
                transaction_metadata,
                &mut result,
                &policy,
            );
        },
    }
    proof {
        lemma_grows_from_empty(
            Seq::<(InstructionMetadata, Instruction)>::empty(),
            result@,
            spec_extract_transaction(*message, *meta),
            *transaction_metadata,
        );
        lemma_extract_depth(
            message_policy(*message, *meta),
            resolved_keys(*message, *meta),
            message_instructions(*message),
            inner_groups(*meta),
            message_instructions(*message).len() as int,
        );
    }
    result
}

} // verus!
