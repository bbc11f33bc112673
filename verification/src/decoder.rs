//! The recursive opcode-group decoder: resolve one instruction at a memory
//! cursor by walking the group trie of an architecture description.

use vstd::prelude::*;
use vstd::arithmetic::power2::{
    pow2, lemma_pow2_adds, lemma_pow2_strictly_increases, lemma2_to64, lemma2_to64_rest,
};
use crate::arch::{Arch, Group, InstructionArgument, group_lookup, sel_lookup, find_group,
    find_selector};

verus! {

/// A successfully decoded instruction: its name, the bit width of the
/// terminal group that matched (the bytes consumed are `consumed_bits / 8`),
/// and the resolved argument values in the terminal group's argument order.
#[derive(Debug)]
pub struct DecodedInstruction {
    pub name: String,
    pub consumed_bits: u8,
    pub arguments: Vec<(String, u64)>,
}

/// The mathematical content of a `DecodedInstruction`.
#[verifier::ext_equal]
pub struct DecodedView {
    pub name: Seq<char>,
    pub consumed_bits: nat,
    pub arguments: Seq<(Seq<char>, u64)>,
}

impl View for DecodedInstruction {
    type V = DecodedView;

    open spec fn view(&self) -> DecodedView {
        DecodedView {
            name: self.name@,
            consumed_bits: self.consumed_bits as nat,
            arguments: self.arguments@.map_values(|p: (String, u64)| (p.0@, p.1)),
        }
    }
}

/// Why a decode failed. `UnknownGroup` and `RecursionLimitExceeded` signal a
/// malformed description (a dangling group reference, a cycle among
/// subgroups); `MemoryExhausted` and `UndefinedOpcode` are per-instruction
/// stream errors that the fetch loop may recover from.
#[derive(Debug)]
pub enum DecodeError {
    UnknownGroup { group: String },
    MemoryExhausted,
    UndefinedOpcode { group: String, selector: u64 },
    RecursionLimitExceeded,
}

/// The mathematical content of a `DecodeError`.
pub enum DecodeErrorView {
    UnknownGroup { group: Seq<char> },
    MemoryExhausted,
    UndefinedOpcode { group: Seq<char>, selector: u64 },
    RecursionLimitExceeded,
}

impl View for DecodeError {
    type V = DecodeErrorView;

    open spec fn view(&self) -> DecodeErrorView {
        match self {
            DecodeError::UnknownGroup { group } => DecodeErrorView::UnknownGroup {
                group: group@,
            },
            DecodeError::MemoryExhausted => DecodeErrorView::MemoryExhausted,
            DecodeError::UndefinedOpcode { group, selector } => DecodeErrorView::UndefinedOpcode {
                group: group@,
                selector: *selector,
            },
            DecodeError::RecursionLimitExceeded => DecodeErrorView::RecursionLimitExceeded,
        }
    }
}

/// The mathematical content of a decode result.
pub open spec fn decode_view(r: Result<DecodedInstruction, DecodeError>) -> Result<
    DecodedView,
    DecodeErrorView,
> {
    match r {
        Ok(d) => Ok(d@),
        Err(e) => Err(e@),
    }
}

/// The low `size` bits set, as a 64-bit mask: `(1 << size) - 1`, extended to
/// all ones when `size` covers the whole word.
pub open spec fn arg_mask(size: u8) -> u64 {
    if size >= 64 {
        0xffff_ffff_ffff_ffffu64
    } else {
        ((1u64 << (size as u64)) - 1) as u64
    }
}

/// The word shifted right by `offset` bits; zero once the whole word has
/// been shifted out.
pub open spec fn shifted_word(word: u64, offset: u8) -> u64 {
    if offset >= 64 {
        0u64
    } else {
        word >> (offset as u64)
    }
}

/// The value of one bit-field argument of a decoded word:
/// `(word >> offset) & ((1 << size) - 1)`.
pub open spec fn extract_arg(word: u64, arg: InstructionArgument) -> u64 {
    shifted_word(word, arg.offset) & arg_mask(arg.size)
}

/// All of a group's arguments extracted from a decoded word, in order.
pub open spec fn args_of(arguments: Seq<(String, InstructionArgument)>, word: u64) -> Seq<
    (Seq<char>, u64),
> {
    arguments.map_values(|p: (String, InstructionArgument)| (p.0@, extract_arg(word, p.1)))
}

/// The value of `n` bytes of memory starting at `cursor`, read as one
/// big-endian unsigned integer.
pub open spec fn be_word(mem: Seq<u8>, cursor: int, n: int) -> nat
    decreases n,
{
    if n <= 0 {
        0
    } else {
        (be_word(mem, cursor, n - 1) * 256 + mem[cursor + n - 1]) as nat
    }
}

/// The masked opcode selector a group reads at a cursor: the group's word
/// fetched big-endian, bitwise-and its selector mask.
pub open spec fn group_selector(g: Group, mem: Seq<u8>, cursor: int) -> u64 {
    (be_word(mem, cursor, g.size as int / 8) as u64) & g.mask
}

/// Every group of the description fits the 64-bit decode word. This is the
/// machine limit the decoder requires; full well-formedness is stronger.
pub open spec fn widths_ok(groups: Seq<(String, Group)>) -> bool {
    forall|i: int| 0 <= i < groups.len() ==> (#[trigger] groups[i]).1.size <= 64
}

/// What `decode` computes: walk the trie from the group called `name`. Each
/// step fetches the group's word at the unchanged cursor, masks out the
/// selector, and either terminates on an instruction entry, descends into a
/// subgroup entry, or fails. Instruction entries are consulted before
/// subgroup entries, so on a group whose key sets overlap — which validation
/// rejects — the instruction deterministically wins. `fuel` bounds the walk
/// so that a description with a subgroup cycle is reported rather than
/// recursed into forever.
pub open spec fn spec_decode(
    groups: Seq<(String, Group)>,
    mem: Seq<u8>,
    cursor: int,
    name: Seq<char>,
    fuel: nat,
) -> Result<DecodedView, DecodeErrorView>
    decreases fuel,
{
    if fuel == 0 {
        Err(DecodeErrorView::RecursionLimitExceeded)
    } else {
        match group_lookup(groups, name) {
            None => Err(DecodeErrorView::UnknownGroup { group: name }),
            Some(g) => {
                let nbytes = g.size as int / 8;
                if cursor + nbytes > mem.len() {
                    Err(DecodeErrorView::MemoryExhausted)
                } else {
                    let word = be_word(mem, cursor, nbytes) as u64;
                    let selector = word & g.mask;
                    match sel_lookup(g.instructions@, selector) {
                        Some(iname) => Ok(
                            DecodedView {
                                name: iname,
                                consumed_bits: g.size as nat,
                                arguments: args_of(g.arguments@, word),
                            },
                        ),
                        None => match sel_lookup(g.subgroups@, selector) {
                            Some(child) => spec_decode(groups, mem, cursor, child, (fuel - 1) as nat),
                            None => Err(
                                DecodeErrorView::UndefinedOpcode { group: name, selector },
                            ),
                        },
                    }
                }
            },
        }
    }
}

/// The fuel `decode` runs with: one more than the number of groups, so that
/// only a walk that revisits some group — a subgroup cycle — runs out.
pub open spec fn decode_fuel(groups: Seq<(String, Group)>) -> nat {
    groups.len() + 1
}

/// A group found by name is one of the description's groups, so its size is
/// bounded whenever all of the description's sizes are.
proof fn lemma_group_lookup_size(groups: Seq<(String, Group)>, name: Seq<char>)
    requires
        widths_ok(groups),
        group_lookup(groups, name) is Some,
    ensures
        group_lookup(groups, name).unwrap().size <= 64,
    decreases groups.len(),
{
    if groups.len() > 0 {
        if groups[0].0@ == name {
        } else {
            let rest = groups.drop_first();
            assert forall|i: int| 0 <= i < rest.len() implies (#[trigger] rest[i]).1.size
                <= 64 by {
                assert(rest[i] == groups[i + 1]);
            }
            lemma_group_lookup_size(rest, name);
        }
    }
}

/// A successful decode consumed a word that lies inside the memory window:
/// the consumed bits come from one group of the description, so they are at
/// most 64, and the cursor plus the consumed bytes stays within the buffer.
pub proof fn lemma_decode_ok_bounds(
    groups: Seq<(String, Group)>,
    mem: Seq<u8>,
    cursor: int,
    name: Seq<char>,
    fuel: nat,
)
    requires
        widths_ok(groups),
        spec_decode(groups, mem, cursor, name, fuel) is Ok,
    ensures
        ({
            let d = spec_decode(groups, mem, cursor, name, fuel)->Ok_0;
            d.consumed_bits <= 64 && cursor + d.consumed_bits / 8 <= mem.len()
        }),
    decreases fuel,
{
    let g = group_lookup(groups, name).unwrap();
    lemma_group_lookup_size(groups, name);
    let nbytes = g.size as int / 8;
    let word = be_word(mem, cursor, nbytes) as u64;
    let selector = word & g.mask;
    if sel_lookup(g.instructions@, selector) is None {
        let child = sel_lookup(g.subgroups@, selector).unwrap();
        lemma_decode_ok_bounds(groups, mem, cursor, child, (fuel - 1) as nat);
    }
}

/// A description that passes full validation satisfies the decoder's
/// machine-limit precondition: every group fits the 64-bit decode word.
pub proof fn lemma_arch_wf_widths_ok(a: Arch)
    requires
        crate::arch::arch_wf(a),
    ensures
        widths_ok(a.groups@),
{
    assert forall|i: int| 0 <= i < a.groups@.len() implies (#[trigger] a.groups@[i]).1.size
        <= 64 by {
        assert(crate::arch::group_wf(a.groups@[i].1));
    }
}

/// A selector found by `sel_lookup` names what some entry of the list maps
/// it to.
proof fn lemma_sel_lookup_index(entries: Seq<(u64, String)>, key: u64)
    requires
        sel_lookup(entries, key) is Some,
    ensures
        exists|j: int|
            0 <= j < entries.len() && (#[trigger] entries[j]).0 == key && entries[j].1@
                == sel_lookup(entries, key).unwrap(),
    decreases entries.len(),
{
    if entries[0].0 == key {
        assert(entries[0].0 == key && entries[0].1@ == sel_lookup(entries, key).unwrap());
    } else {
        let rest = entries.drop_first();
        lemma_sel_lookup_index(rest, key);
        let j = choose|j: int|
            0 <= j < rest.len() && (#[trigger] rest[j]).0 == key && rest[j].1@ == sel_lookup(
                rest,
                key,
            ).unwrap();
        assert(entries[j + 1] == rest[j]);
    }
}

/// A group found by `group_lookup` is one of the table's entries.
proof fn lemma_group_lookup_index(groups: Seq<(String, Group)>, name: Seq<char>)
    requires
        group_lookup(groups, name) is Some,
    ensures
        exists|i: int|
            0 <= i < groups.len() && (#[trigger] groups[i]).0@ == name && groups[i].1
                == group_lookup(groups, name).unwrap(),
    decreases groups.len(),
{
    if groups[0].0@ == name {
        assert(groups[0].0@ == name && groups[0].1 == group_lookup(groups, name).unwrap());
    } else {
        let rest = groups.drop_first();
        lemma_group_lookup_index(rest, name);
        let i = choose|i: int|
            0 <= i < rest.len() && (#[trigger] rest[i]).0@ == name && rest[i].1 == group_lookup(
                rest,
                name,
            ).unwrap();
        assert(groups[i + 1] == rest[i]);
    }
}

/// Eager validation pays off: when every subgroup reference of the
/// description is defined and the start group exists, no decode — however
/// deep it descends — fails with `UnknownGroup`.
pub proof fn lemma_validated_never_unknown_group(
    groups: Seq<(String, Group)>,
    mem: Seq<u8>,
    cursor: int,
    name: Seq<char>,
    fuel: nat,
)
    requires
        crate::arch::subgroup_targets_exist(groups),
        group_lookup(groups, name) is Some,
    ensures
        !(spec_decode(groups, mem, cursor, name, fuel) matches Err(
        DecodeErrorView::UnknownGroup { .. })),
    decreases fuel,
{
    if fuel > 0 {
        let g = group_lookup(groups, name).unwrap();
        let nbytes = g.size as int / 8;
        if cursor + nbytes <= mem.len() {
            let word = be_word(mem, cursor, nbytes) as u64;
            let selector = word & g.mask;
            if sel_lookup(g.instructions@, selector) is None && sel_lookup(
                g.subgroups@,
                selector,
            ) is Some {
                let child = sel_lookup(g.subgroups@, selector).unwrap();
                lemma_group_lookup_index(groups, name);
                let i = choose|i: int|
                    0 <= i < groups.len() && (#[trigger] groups[i]).0@ == name && groups[i].1
                        == g;
                lemma_sel_lookup_index(g.subgroups@, selector);
                let j = choose|j: int|
                    0 <= j < g.subgroups@.len() && (#[trigger] g.subgroups@[j]).0 == selector
                        && g.subgroups@[j].1@ == child;
                assert(group_lookup(groups, groups[i].1.subgroups@[j].1@) is Some);
                lemma_validated_never_unknown_group(groups, mem, cursor, child, (fuel - 1) as nat);
            }
        }
    }
}

/// Decoding is deterministic: two decode results obtained from identical
/// description, memory, cursor and start group are identical in every
/// observable part — name, consumed length, argument values, or error.
pub proof fn lemma_decode_deterministic(
    r1: Result<DecodedInstruction, DecodeError>,
    r2: Result<DecodedInstruction, DecodeError>,
    groups: Seq<(String, Group)>,
    mem: Seq<u8>,
    cursor: int,
    name: Seq<char>,
    fuel: nat,
)
    requires
        decode_view(r1) == spec_decode(groups, mem, cursor, name, fuel),
        decode_view(r2) == spec_decode(groups, mem, cursor, name, fuel),
    ensures
        decode_view(r1) == decode_view(r2),
{
}

/// For a window inside the decode word, the extracted argument value is
/// exactly `(word >> offset) & ((1 << size) - 1)`.
pub proof fn lemma_extract_formula(word: u64, arg: InstructionArgument)
    requires
        arg.offset < 64,
        arg.size < 64,
    ensures
        extract_arg(word, arg) == (word >> (arg.offset as u64)) & (((1u64 << (arg.size as u64))
            - 1) as u64),
{
}

/// A selector value that a group maps to neither an instruction nor a
/// subgroup decodes to `UndefinedOpcode`, naming the group and the selector.
pub proof fn lemma_undefined_opcode(
    groups: Seq<(String, Group)>,
    mem: Seq<u8>,
    cursor: int,
    name: Seq<char>,
    fuel: nat,
)
    requires
        fuel >= 1,
        group_lookup(groups, name) is Some,
        ({
            let g = group_lookup(groups, name).unwrap();
            &&& cursor + g.size as int / 8 <= mem.len()
            &&& sel_lookup(g.instructions@, group_selector(g, mem, cursor)) is None
            &&& sel_lookup(g.subgroups@, group_selector(g, mem, cursor)) is None
        }),
    ensures
        spec_decode(groups, mem, cursor, name, fuel) == Err::<DecodedView, DecodeErrorView>(
            DecodeErrorView::UndefinedOpcode {
                group: name,
                selector: group_selector(group_lookup(groups, name).unwrap(), mem, cursor),
            },
        ),
{
}

/// A group whose byte width reaches past the end of the memory buffer
/// decodes to `MemoryExhausted`.
pub proof fn lemma_memory_exhausted(
    groups: Seq<(String, Group)>,
    mem: Seq<u8>,
    cursor: int,
    name: Seq<char>,
    fuel: nat,
)
    requires
        fuel >= 1,
        group_lookup(groups, name) is Some,
        cursor + group_lookup(groups, name).unwrap().size as int / 8 > mem.len(),
    ensures
        spec_decode(groups, mem, cursor, name, fuel) == Err::<DecodedView, DecodeErrorView>(
            DecodeErrorView::MemoryExhausted,
        ),
{
}

/// Chained resolution: when a group's selector names a subgroup, the decode
/// result is the subgroup's decode at the same, unchanged cursor — so the
/// consumed length comes from whichever group finally matches, never from a
/// sum over the chain.
pub proof fn lemma_chained_resolution(
    groups: Seq<(String, Group)>,
    mem: Seq<u8>,
    cursor: int,
    name: Seq<char>,
    fuel: nat,
)
    requires
        fuel >= 1,
        group_lookup(groups, name) is Some,
        ({
            let g = group_lookup(groups, name).unwrap();
            &&& cursor + g.size as int / 8 <= mem.len()
            &&& sel_lookup(g.instructions@, group_selector(g, mem, cursor)) is None
            &&& sel_lookup(g.subgroups@, group_selector(g, mem, cursor)) is Some
        }),
    ensures
        spec_decode(groups, mem, cursor, name, fuel) == spec_decode(
            groups,
            mem,
            cursor,
            sel_lookup(
                group_lookup(groups, name).unwrap().subgroups@,
                group_selector(group_lookup(groups, name).unwrap(), mem, cursor),
            ).unwrap(),
            (fuel - 1) as nat,
        ),
{
}

/// Extract one bit-field argument from a decoded word.
pub fn extract_argument(word: u64, arg: InstructionArgument) -> (r: u64)
    ensures
        r == extract_arg(word, arg),
{
    let shifted: u64 = if arg.offset >= 64 {
        0
    } else {
        word >> (arg.offset as u64)
    };
    let mask: u64 = if arg.size >= 64 {
        0xffff_ffff_ffff_ffff
    } else {
        let s = arg.size as u64;
        assert((1u64 << s) >= 1) by (bit_vector)
            requires
                s < 64,
        ;
        (1u64 << s) - 1
    };
    shifted & mask
}

/// Extract all of a group's arguments from a decoded word.
fn extract_arguments(arguments: &Vec<(String, InstructionArgument)>, word: u64) -> (r: Vec<
    (String, u64),
>)
    ensures
        r@.map_values(|p: (String, u64)| (p.0@, p.1)) == args_of(arguments@, word),
{
    let n = arguments.len();
    let mut r: Vec<(String, u64)> = Vec::new();
    let mut i: usize = 0;
    while i < n
        invariant
            i <= n,
            n == arguments@.len(),
            r@.len() == i,
            forall|j: int|
                0 <= j < i ==> (#[trigger] r@[j]).0@ == arguments@[j].0@ && r@[j].1 == extract_arg(
                    word,
                    arguments@[j].1,
                ),
        decreases n - i,
    {
        let value = extract_argument(word, arguments[i].1);
        r.push((arguments[i].0.clone(), value));
        i = i + 1;
    }
    proof {
        assert(r@.map_values(|p: (String, u64)| (p.0@, p.1)) =~= args_of(arguments@, word));
    }
    r
}

/// Read `nbytes` bytes of memory at `cursor` as one big-endian word,
/// right-aligned in 64 bits.
fn read_be_word(memory: &Vec<u8>, cursor: usize, nbytes: usize) -> (r: u64)
    requires
        nbytes <= 8,
        cursor + nbytes <= memory@.len(),
    ensures
        r as nat == be_word(memory@, cursor as int, nbytes as int),
{
    let len = memory.len();
    let mut word: u64 = 0;
    let mut i: usize = 0;
    proof {
        lemma2_to64();
    }
    while i < nbytes
        invariant
            i <= nbytes,
            nbytes <= 8,
            len == memory@.len(),
            cursor + nbytes <= len,
            word as nat == be_word(memory@, cursor as int, i as int),
            (word as nat) < pow2((8 * i) as nat),
        decreases nbytes - i,
    {
        proof {
            lemma2_to64();
            lemma2_to64_rest();
            lemma_pow2_adds((8 * i) as nat, 8);
            if 8 * i < 56 {
                lemma_pow2_strictly_increases((8 * i) as nat, 56);
            }
        }
        word = word * 256 + (memory[cursor + i] as u64);
        i = i + 1;
    }
    word
}

/// Decode with an explicit recursion budget; `fuel` is the number of
/// subgroup descents still allowed.
fn decode_with_fuel(
    groups: &Vec<(String, Group)>,
    memory: &Vec<u8>,
    cursor: usize,
    name: &String,
    fuel: usize,
) -> (r: Result<DecodedInstruction, DecodeError>)
    requires
        widths_ok(groups@),
    ensures
        decode_view(r) == spec_decode(groups@, memory@, cursor as int, name@, fuel as nat + 1),
    decreases fuel,
{
    let g = match find_group(groups, name) {
        Some(g) => g,
        None => {
            return Err(DecodeError::UnknownGroup { group: name.clone() });
        },
    };
    proof {
        lemma_group_lookup_size(groups@, name@);
    }
    let nbytes = (g.size / 8) as usize;
    if cursor > memory.len() || memory.len() - cursor < nbytes {
        return Err(DecodeError::MemoryExhausted);
    }
    let word = read_be_word(memory, cursor, nbytes);
    let selector = word & g.mask;
    match find_selector(&g.instructions, selector) {
        Some(iname) => {
            let args = extract_arguments(&g.arguments, word);
            let d = DecodedInstruction {
                name: iname.clone(),
                consumed_bits: g.size,
                arguments: args,
            };
            proof {
                assert(d@.arguments =~= args_of(g.arguments@, word));
                assert(d@ =~= DecodedView {
                    name: iname@,
                    consumed_bits: g.size as nat,
                    arguments: args_of(g.arguments@, word),
                });
            }
            Ok(d)
        },
        None => match find_selector(&g.subgroups, selector) {
            Some(child) => {
                if fuel == 0 {
                    proof {
                        assert(spec_decode(groups@, memory@, cursor as int, child@, 0nat)
                            == Err::<DecodedView, DecodeErrorView>(
                            DecodeErrorView::RecursionLimitExceeded,
                        ));
                    }
                    Err(DecodeError::RecursionLimitExceeded)
                } else {
                    decode_with_fuel(groups, memory, cursor, child, fuel - 1)
                }
            },
            None => Err(DecodeError::UndefinedOpcode { group: name.clone(), selector }),
        },
    }
}

/// Resolve one instruction of `memory` at byte offset `cursor`, starting
/// from the group called `start_group`. The result — the decoded
/// instruction, or the precise reason no instruction could be decoded — is
/// exactly `spec_decode` of the inputs, run with enough fuel that only a
/// cyclic description is ever cut off. The cursor is not advanced: the
/// caller owns it.
pub fn decode(arch: &Arch, memory: &Vec<u8>, cursor: usize, start_group: &str) -> (r: Result<
    DecodedInstruction,
    DecodeError,
>)
    requires
        widths_ok(arch.groups@),
    ensures
        decode_view(r) == spec_decode(
            arch.groups@,
            memory@,
            cursor as int,
            start_group@,
            decode_fuel(arch.groups@),
        ),
{
    let name = start_group.to_owned();
    decode_with_fuel(&arch.groups, memory, cursor, &name, arch.groups.len())
}

} // verus!

