//! The architecture description: opcode groups, bit-field arguments,
//! registers, and the well-formedness rules a description must satisfy.

use vstd::prelude::*;

verus! {

/// A named bit window inside a decoded instruction word: the value of an
/// argument is the `size` bits of the word starting `offset` bits from the
/// least-significant end.
#[derive(Debug, Clone, Copy)]
pub struct InstructionArgument {
    pub size: u8,
    pub offset: u8,
}

/// One node of the decode trie. `size` is the group's bit width (a positive
/// multiple of 8, at most 64 in a well-formed description); `mask` selects
/// the opcode field out of the fetched word. `instructions` maps masked
/// selector values to terminal instruction names, `subgroups` maps them to
/// child group names, and `arguments` gives the bit windows extracted on a
/// terminal match. The pair vectors stand for maps: well-formedness asks
/// that their keys be unique.
#[derive(Debug)]
pub struct Group {
    pub size: u8,
    pub mask: u64,
    pub arguments: Vec<(String, InstructionArgument)>,
    pub subgroups: Vec<(u64, String)>,
    pub instructions: Vec<(u64, String)>,
}

/// A machine register of one of four widths.
#[derive(Debug)]
pub enum Register {
    R8(u8),
    R16(u16),
    R32(u32),
    R64(u64),
}

impl Register {
    /// The value a register holds, widened to 64 bits.
    pub open spec fn spec_read(self) -> u64 {
        match self {
            Register::R8(v) => v as u64,
            Register::R16(v) => v as u64,
            Register::R32(v) => v as u64,
            Register::R64(v) => v,
        }
    }

    /// The register after a value is stored: the same width, holding the
    /// value truncated to that width.
    pub open spec fn spec_write(self, value: u64) -> Register {
        match self {
            Register::R8(_) => Register::R8(value as u8),
            Register::R16(_) => Register::R16(value as u16),
            Register::R32(_) => Register::R32(value as u32),
            Register::R64(_) => Register::R64(value),
        }
    }

    /// Read the register's value, widened to 64 bits.
    pub fn read(&self) -> (r: u64)
        ensures
            r == self.spec_read(),
    {
        match self {
            Register::R8(v) => *v as u64,
            Register::R16(v) => *v as u64,
            Register::R32(v) => *v as u64,
            Register::R64(v) => *v,
        }
    }

    /// Store a value, truncating it to the register's width.
    pub fn write(&mut self, value: u64)
        ensures
            *final(self) == old(self).spec_write(value),
    {
        let new = match self {
            Register::R8(_) => Register::R8(value as u8),
            Register::R16(_) => Register::R16(value as u16),
            Register::R32(_) => Register::R32(value as u32),
            Register::R64(_) => Register::R64(value),
        };
        *self = new;
    }
}

/// The full architecture description: the group trie (whose entry point is
/// the group named `main`) and the register file consumed by collaborators.
#[derive(Debug)]
pub struct Arch {
    pub groups: Vec<(String, Group)>,
    pub registers: Vec<(String, Register)>,
}

/// The selector keys of an association list are pairwise distinct, so the
/// list stands for a mapping.
pub open spec fn sel_keys_unique(entries: Seq<(u64, String)>) -> bool {
    forall|i: int, j: int|
        0 <= i < j < entries.len() ==> (#[trigger] entries[i]).0 != (#[trigger] entries[j]).0
}

/// No selector key occurs in both association lists.
pub open spec fn sel_keys_disjoint(a: Seq<(u64, String)>, b: Seq<(u64, String)>) -> bool {
    forall|i: int, j: int|
        0 <= i < a.len() && 0 <= j < b.len() ==> (#[trigger] a[i]).0 != (#[trigger] b[j]).0
}

/// The names of a name-keyed association list are pairwise distinct.
pub open spec fn names_unique<T>(entries: Seq<(String, T)>) -> bool {
    forall|i: int, j: int|
        0 <= i < j < entries.len() ==> (#[trigger] entries[i]).0@ != (#[trigger] entries[j]).0@
}

/// The selector mask touches no bits above the group's bit width.
pub open spec fn mask_fits(g: Group) -> bool {
    g.size >= 64 || (g.mask >> (g.size as u64)) == 0
}

/// A well-formed opcode group: a positive, byte-aligned bit width that fits
/// the 64-bit decode word; a selector mask inside that width; mappings with
/// unique keys whose instruction and subgroup key sets are disjoint; and
/// argument windows that lie inside the group's word, under unique names.
pub open spec fn group_wf(g: Group) -> bool {
    &&& 0 < g.size <= 64
    &&& g.size % 8 == 0
    &&& mask_fits(g)
    &&& sel_keys_unique(g.instructions@)
    &&& sel_keys_unique(g.subgroups@)
    &&& sel_keys_disjoint(g.instructions@, g.subgroups@)
    &&& forall|i: int|
        0 <= i < g.arguments@.len() ==> (#[trigger] g.arguments@[i]).1.offset
            + g.arguments@[i].1.size <= g.size
    &&& names_unique(g.arguments@)
}

/// Every group name mentioned in a subgroup mapping is defined in the table.
pub open spec fn subgroup_targets_exist(groups: Seq<(String, Group)>) -> bool {
    forall|i: int, j: int|
        0 <= i < groups.len() && 0 <= j < (#[trigger] groups[i]).1.subgroups@.len()
            ==> group_lookup(groups, (#[trigger] groups[i].1.subgroups@[j]).1@) is Some
}

/// A well-formed architecture description: uniquely named groups and
/// registers, each group well formed, every subgroup reference defined, and
/// the entry-point group `main` present.
pub open spec fn arch_wf(a: Arch) -> bool {
    &&& names_unique(a.groups@)
    &&& forall|i: int| 0 <= i < a.groups@.len() ==> group_wf((#[trigger] a.groups@[i]).1)
    &&& subgroup_targets_exist(a.groups@)
    &&& group_lookup(a.groups@, "main"@) is Some
    &&& names_unique(a.registers@)
}

/// First match for a selector value in an association list of selector
/// value / name pairs.
pub open spec fn sel_lookup(entries: Seq<(u64, String)>, key: u64) -> Option<Seq<char>>
    decreases entries.len(),
{
    if entries.len() == 0 {
        None
    } else if entries[0].0 == key {
        Some(entries[0].1@)
    } else {
        sel_lookup(entries.drop_first(), key)
    }
}

/// First match for a group name in the description's group table.
pub open spec fn group_lookup(groups: Seq<(String, Group)>, name: Seq<char>) -> Option<Group>
    decreases groups.len(),
{
    if groups.len() == 0 {
        None
    } else if groups[0].0@ == name {
        Some(groups[0].1)
    } else {
        group_lookup(groups.drop_first(), name)
    }
}

/// Look up a selector value among a group's instruction or subgroup entries.
pub fn find_selector<'a>(entries: &'a Vec<(u64, String)>, key: u64) -> (r: Option<&'a String>)
    ensures
        match r {
            Some(name) => sel_lookup(entries@, key) == Some(name@),
            None => sel_lookup(entries@, key) is None,
        },
{
    let n = entries.len();
    let mut i: usize = 0;
    proof {
        assert(entries@.skip(0) =~= entries@);
    }
    while i < n
        invariant
            i <= n,
            n == entries@.len(),
            sel_lookup(entries@, key) == sel_lookup(entries@.skip(i as int), key),
        decreases n - i,
    {
        proof {
            assert(entries@.skip(i as int)[0] == entries@[i as int]);
            assert(entries@.skip(i as int).drop_first() =~= entries@.skip(i as int + 1));
        }
        if entries[i].0 == key {
            return Some(&entries[i].1);
        }
        i = i + 1;
    }
    proof {
        assert(entries@.skip(n as int) =~= Seq::<(u64, String)>::empty());
    }
    None
}

/// Look up a group by name in the description's group table.
pub fn find_group<'a>(groups: &'a Vec<(String, Group)>, name: &String) -> (r: Option<&'a Group>)
    ensures
        match r {
            Some(g) => group_lookup(groups@, name@) == Some(*g),
            None => group_lookup(groups@, name@) is None,
        },
{
    let n = groups.len();
    let mut i: usize = 0;
    proof {
        assert(groups@.skip(0) =~= groups@);
    }
    while i < n
        invariant
            i <= n,
            n == groups@.len(),
            group_lookup(groups@, name@) == group_lookup(groups@.skip(i as int), name@),
        decreases n - i,
    {
        proof {
            assert(groups@.skip(i as int)[0] == groups@[i as int]);
            assert(groups@.skip(i as int).drop_first() =~= groups@.skip(i as int + 1));
        }
        if groups[i].0.eq(name) {
            return Some(&groups[i].1);
        }
        i = i + 1;
    }
    proof {
        assert(groups@.skip(n as int) =~= Seq::<(String, Group)>::empty());
    }
    None
}

/// Check that an association list's selector keys are pairwise distinct.
fn check_sel_keys_unique(entries: &Vec<(u64, String)>) -> (r: bool)
    ensures
        r == sel_keys_unique(entries@),
{
    let n = entries.len();
    let mut i: usize = 0;
    while i < n
        invariant
            i <= n,
            n == entries@.len(),
            forall|p: int, q: int|
                0 <= p < q < n && p < i ==> (#[trigger] entries@[p]).0 != (
                #[trigger] entries@[q]).0,
        decreases n - i,
    {
        let mut j: usize = i + 1;
        while j < n
            invariant
                i < j <= n,
                i < n,
                n == entries@.len(),
                forall|p: int, q: int|
                    0 <= p < q < n && p < i ==> (#[trigger] entries@[p]).0 != (
                    #[trigger] entries@[q]).0,
                forall|q: int|
                    i < q < j ==> entries@[i as int].0 != (#[trigger] entries@[q]).0,
            decreases n - j,
        {
            if entries[i].0 == entries[j].0 {
                proof {
                    assert(entries@[i as int].0 == entries@[j as int].0);
                }
                return false;
            }
            j = j + 1;
        }
        i = i + 1;
    }
    true
}

/// Check that no selector key occurs in both association lists.
fn check_sel_keys_disjoint(a: &Vec<(u64, String)>, b: &Vec<(u64, String)>) -> (r: bool)
    ensures
        r == sel_keys_disjoint(a@, b@),
{
    let na = a.len();
    let nb = b.len();
    let mut i: usize = 0;
    while i < na
        invariant
            i <= na,
            na == a@.len(),
            nb == b@.len(),
            forall|p: int, q: int|
                0 <= p < i && 0 <= q < nb ==> (#[trigger] a@[p]).0 != (#[trigger] b@[q]).0,
        decreases na - i,
    {
        let mut j: usize = 0;
        while j < nb
            invariant
                i < na,
                j <= nb,
                na == a@.len(),
                nb == b@.len(),
                forall|p: int, q: int|
                    0 <= p < i && 0 <= q < nb ==> (#[trigger] a@[p]).0 != (#[trigger] b@[q]).0,
                forall|q: int| 0 <= q < j ==> a@[i as int].0 != (#[trigger] b@[q]).0,
            decreases nb - j,
        {
            if a[i].0 == b[j].0 {
                proof {
                    assert(a@[i as int].0 == b@[j as int].0);
                }
                return false;
            }
            j = j + 1;
        }
        i = i + 1;
    }
    true
}

/// Check that the names of a name-keyed association list are pairwise
/// distinct.
fn check_names_unique<T>(entries: &Vec<(String, T)>) -> (r: bool)
    ensures
        r == names_unique(entries@),
{
    let n = entries.len();
    let mut i: usize = 0;
    while i < n
        invariant
            i <= n,
            n == entries@.len(),
            forall|p: int, q: int|
                0 <= p < q < n && p < i ==> (#[trigger] entries@[p]).0@ != (
                #[trigger] entries@[q]).0@,
        decreases n - i,
    {
        let mut j: usize = i + 1;
        while j < n
            invariant
                i < j <= n,
                i < n,
                n == entries@.len(),
                forall|p: int, q: int|
                    0 <= p < q < n && p < i ==> (#[trigger] entries@[p]).0@ != (
                    #[trigger] entries@[q]).0@,
                forall|q: int|
                    i < q < j ==> entries@[i as int].0@ != (#[trigger] entries@[q]).0@,
            decreases n - j,
        {
            if entries[i].0.eq(&entries[j].0) {
                proof {
                    assert(entries@[i as int].0@ == entries@[j as int].0@);
                }
                return false;
            }
            j = j + 1;
        }
        i = i + 1;
    }
    true
}

/// Check one group against the group well-formedness rules.
fn check_group(g: &Group) -> (r: bool)
    ensures
        r == group_wf(*g),
{
    let size_ok = 0 < g.size && g.size <= 64 && g.size % 8 == 0;
    let mask_ok = g.size >= 64 || (g.mask >> (g.size as u64)) == 0;
    let iu = check_sel_keys_unique(&g.instructions);
    let su = check_sel_keys_unique(&g.subgroups);
    let dis = check_sel_keys_disjoint(&g.instructions, &g.subgroups);
    let au = check_names_unique(&g.arguments);
    let n = g.arguments.len();
    let mut args_ok = true;
    let mut i: usize = 0;
    while i < n
        invariant
            i <= n,
            n == g.arguments@.len(),
            args_ok == (forall|j: int|
                0 <= j < i ==> (#[trigger] g.arguments@[j]).1.offset + g.arguments@[j].1.size
                    <= g.size),
        decreases n - i,
    {
        if (g.arguments[i].1.offset as usize) + (g.arguments[i].1.size as usize)
            > (g.size as usize) {
            args_ok = false;
        }
        i = i + 1;
    }
    size_ok && mask_ok && iu && su && dis && au && args_ok
}

/// Check that every subgroup reference of every group is defined.
fn check_targets(groups: &Vec<(String, Group)>) -> (r: bool)
    ensures
        r == subgroup_targets_exist(groups@),
{
    let n = groups.len();
    let mut i: usize = 0;
    while i < n
        invariant
            i <= n,
            n == groups@.len(),
            forall|p: int, q: int|
                0 <= p < i && 0 <= q < (#[trigger] groups@[p]).1.subgroups@.len()
                    ==> group_lookup(groups@, (#[trigger] groups@[p].1.subgroups@[q]).1@)
                    is Some,
        decreases n - i,
    {
        let m = groups[i].1.subgroups.len();
        let mut j: usize = 0;
        while j < m
            invariant
                i < n,
                j <= m,
                n == groups@.len(),
                m == groups@[i as int].1.subgroups@.len(),
                forall|p: int, q: int|
                    0 <= p < i && 0 <= q < (#[trigger] groups@[p]).1.subgroups@.len()
                        ==> group_lookup(groups@, (#[trigger] groups@[p].1.subgroups@[q]).1@)
                        is Some,
                forall|q: int|
                    0 <= q < j ==> group_lookup(
                        groups@,
                        (#[trigger] groups@[i as int].1.subgroups@[q]).1@,
                    ) is Some,
            decreases m - j,
        {
            let target = &groups[i].1.subgroups[j].1;
            if find_group(groups, target).is_none() {
                proof {
                    assert(group_lookup(groups@, groups@[i as int].1.subgroups@[j as int].1@)
                        is None);
                }
                return false;
            }
            j = j + 1;
        }
        i = i + 1;
    }
    true
}

impl Arch {
    /// Check a loaded description against every well-formedness rule: unique
    /// group, register and argument names; unique and disjoint selector keys
    /// in every group; byte-aligned widths that fit the decode word; masks
    /// and argument windows inside their group's width; no dangling subgroup
    /// reference; and a `main` entry group. A description that fails here
    /// must be rejected before any decoding starts.
    pub fn validate(&self) -> (r: bool)
        ensures
            r == arch_wf(*self),
    {
        let gn = check_names_unique(&self.groups);
        let n = self.groups.len();
        let mut groups_ok = true;
        let mut i: usize = 0;
        while i < n
            invariant
                i <= n,
                n == self.groups@.len(),
                groups_ok == (forall|j: int|
                    0 <= j < i ==> group_wf((#[trigger] self.groups@[j]).1)),
            decreases n - i,
        {
            if !check_group(&self.groups[i].1) {
                groups_ok = false;
            }
            i = i + 1;
        }
        let tgt = check_targets(&self.groups);
        let entry_name: String = "main".to_owned();
        let entry = find_group(&self.groups, &entry_name).is_some();
        let rn = check_names_unique(&self.registers);
        gn && groups_ok && tgt && entry && rn
    }
}

/// Invert a name-to-selector mapping, as an architecture source document
/// stores it, into the selector-to-name mapping a group decodes with. Two
/// names sharing one selector value would make the inversion ambiguous: that
/// is a configuration error, answered with `None`.
pub fn invert_mapping(pairs: &Vec<(String, u64)>) -> (r: Option<Vec<(u64, String)>>)
    ensures
        r is Some <==> (forall|i: int, j: int|
            0 <= i < j < pairs@.len() ==> (#[trigger] pairs@[i]).1 != (#[trigger] pairs@[j]).1),
        match r {
            Some(inv) => {
                &&& inv@.len() == pairs@.len()
                &&& forall|i: int|
                    0 <= i < pairs@.len() ==> (#[trigger] inv@[i]).0 == pairs@[i].1
                        && inv@[i].1@ == pairs@[i].0@
                &&& sel_keys_unique(inv@)
            },
            None => true,
        },
{
    let n = pairs.len();
    let mut i: usize = 0;
    while i < n
        invariant
            i <= n,
            n == pairs@.len(),
            forall|p: int, q: int|
                0 <= p < q < n && p < i ==> (#[trigger] pairs@[p]).1 != (#[trigger] pairs@[q]).1,
        decreases n - i,
    {
        let mut j: usize = i + 1;
        while j < n
            invariant
                i < j <= n,
                i < n,
                n == pairs@.len(),
                forall|p: int, q: int|
                    0 <= p < q < n && p < i ==> (#[trigger] pairs@[p]).1 != (
                    #[trigger] pairs@[q]).1,
                forall|q: int| i < q < j ==> pairs@[i as int].1 != (#[trigger] pairs@[q]).1,
            decreases n - j,
        {
            if pairs[i].1 == pairs[j].1 {
                proof {
                    assert(pairs@[i as int].1 == pairs@[j as int].1);
                }
                return None;
            }
            j = j + 1;
        }
        i = i + 1;
    }
    let mut inv: Vec<(u64, String)> = Vec::new();
    let mut k: usize = 0;
    while k < n
        invariant
            k <= n,
            n == pairs@.len(),
            inv@.len() == k,
            forall|p: int|
                0 <= p < k ==> (#[trigger] inv@[p]).0 == pairs@[p].1 && inv@[p].1@
                    == pairs@[p].0@,
        decreases n - k,
    {
        inv.push((pairs[k].1, pairs[k].0.clone()));
        k = k + 1;
    }
    proof {
        assert forall|i: int, j: int| 0 <= i < j < inv@.len() implies (#[trigger] inv@[i]).0 != (
        #[trigger] inv@[j]).0 by {
            assert(inv@[i].0 == pairs@[i].1);
            assert(inv@[j].0 == pairs@[j].1);
        }
    }
    Some(inv)
}

} // verus!
