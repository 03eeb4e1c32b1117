//! Pointer-scan data model: collected pointers, module metadata, chain
//! steps, scanner configuration, and the textual chain form.

use vstd::prelude::*;
use vstd::string::{StrSliceExecFns, StringSliceAdditionalSpecFns};
use crate::fmt::{spec_hex_u64, spec_dec_u64, push_hex_u64, push_dec_u64, str_contains,
    str_contains_char, str_starts_with, str_eq, spec_str_contains, spec_match_at,
    string_from_bytes};
use crate::mapqueue::MapQueue;

verus! {

/// One collected pointer: at virtual address `address` in the scanned
/// process, the eight little-endian bytes read were `value`.
#[derive(Debug, Clone, Copy, PartialEq, Eq, Structural)]
pub struct PointerData {
    pub address: u64,
    pub value: u64,
}

impl PointerData {
    pub fn new(address: u64, value: u64) -> (r: Self)
        ensures
            r == (PointerData { address, value }),
    {
        Self { address, value }
    }

    pub fn address(&self) -> (r: u64)
        ensures
            r == self.address,
    {
        self.address
    }

    pub fn value(&self) -> (r: u64)
        ensures
            r == self.value,
    {
        self.value
    }
}

/// A named module mapping that chain roots may live in.
#[derive(Debug, Clone)]
pub struct VmStaticData {
    pub name: String,
    pub base_address: u64,
    pub end_address: u64,
    pub index: u32,
    pub is_static: bool,
    pub first_module_base_addr: u64,
}

impl VmStaticData {
    pub fn new(name: String, base_address: u64, end_address: u64, is_static: bool) -> (r: Self)
        ensures
            r.name == name,
            r.base_address == base_address,
            r.end_address == end_address,
            r.is_static == is_static,
            r.index == 0,
            r.first_module_base_addr == 0,
    {
        Self { name, base_address, end_address, index: 0, is_static, first_module_base_addr: 0 }
    }

    pub fn contains(&self, address: u64) -> (r: bool)
        ensures
            r == (self.base_address <= address < self.end_address),
    {
        address >= self.base_address && address < self.end_address
    }

    /// Distance from the module base, clamped at zero below it.
    pub fn offset_from_base(&self, address: u64) -> (r: u64)
        ensures
            r == if address >= self.base_address {
                (address - self.base_address) as u64
            } else {
                0u64
            },
    {
        if address >= self.base_address {
            address - self.base_address
        } else {
            0
        }
    }
}

/// One step of a pointer chain: the static root names its module, later
/// steps carry a signed dereference offset.
#[derive(Debug, Clone)]
pub struct PointerChainStep {
    pub module_name: Option<String>,
    pub module_index: u32,
    pub offset: i64,
    pub is_static: bool,
}

impl PointerChainStep {
    pub fn static_root(module_name: String, module_index: u32, offset: i64) -> (r: Self)
        ensures
            r.module_name == Some(module_name),
            r.module_index == module_index,
            r.offset == offset,
            r.is_static,
    {
        Self { module_name: Some(module_name), module_index, offset, is_static: true }
    }

    pub fn dynamic_offset(offset: i64) -> (r: Self)
        ensures
            r.module_name is None,
            r.module_index == 0,
            r.offset == offset,
            !r.is_static,
    {
        Self { module_name: None, module_index: 0, offset, is_static: false }
    }
}

/// The magnitude of a signed offset, as the unsigned value it prints.
pub open spec fn spec_offset_abs(offset: i64) -> u64 {
    if offset >= 0 {
        offset as u64
    } else {
        (-(offset as int)) as u64
    }
}

/// The text of one chain step: a root renders as
/// `name[index]+0xOFFSET`, a later step as `->+0xOFF` or `->-0xOFF`.
pub open spec fn spec_step_text(step: PointerChainStep, first: bool) -> Seq<char> {
    if first {
        match step.module_name {
            Some(nm) => nm@ + seq!['['] + spec_dec_u64(step.module_index as u64) + seq![
                ']',
                '+',
                '0',
                'x',
            ] + spec_hex_u64(step.offset as u64),
            None => Seq::empty(),
        }
    } else {
        if step.offset >= 0 {
            seq!['-', '>', '+', '0', 'x'] + spec_hex_u64(spec_offset_abs(step.offset))
        } else {
            seq!['-', '>', '-', '0', 'x'] + spec_hex_u64(spec_offset_abs(step.offset))
        }
    }
}

/// The text of a whole chain, root first.
pub open spec fn spec_chain_text(steps: Seq<PointerChainStep>) -> Seq<char>
    decreases steps.len(),
{
    if steps.len() == 0 {
        Seq::empty()
    } else {
        spec_chain_text(steps.drop_last()) + spec_step_text(steps.last(), steps.len() == 1)
    }
}

/// A chain from a static module to the target address.
#[derive(Debug, Clone)]
pub struct PointerChain {
    pub steps: Vec<PointerChainStep>,
    pub target_address: u64,
}

impl PointerChain {
    pub fn new(target_address: u64) -> (r: Self)
        ensures
            r.target_address == target_address,
            r.steps@.len() == 0,
    {
        Self { steps: Vec::new(), target_address }
    }

    pub fn with_capacity(target_address: u64, capacity: usize) -> (r: Self)
        ensures
            r.target_address == target_address,
            r.steps@.len() == 0,
    {
        let mut steps: Vec<PointerChainStep> = Vec::new();
        steps.reserve(capacity);
        Self { steps, target_address }
    }

    pub fn push(&mut self, step: PointerChainStep)
        ensures
            final(self).steps@ == old(self).steps@.push(step),
            final(self).target_address == old(self).target_address,
    {
        self.steps.push(step);
    }

    pub fn depth(&self) -> (r: usize)
        ensures
            r == self.steps@.len(),
    {
        self.steps.len()
    }

    /// A copy of the chain whose steps keep their shape: same target, same
    /// length, and stepwise the same kind, offset, index and name text.
    pub fn duplicate(&self) -> (r: Self)
        ensures
            r.target_address == self.target_address,
            r.steps@.len() == self.steps@.len(),
            forall|i: int|
                0 <= i < r.steps@.len() ==> {
                    let a = #[trigger] r.steps@[i];
                    let b = self.steps@[i];
                    &&& a.is_static == b.is_static
                    &&& a.offset == b.offset
                    &&& a.module_index == b.module_index
                    &&& a.module_name == b.module_name
                },
    {
        let n: usize = self.steps.len();
        let mut steps: Vec<PointerChainStep> = Vec::new();
        let mut i: usize = 0;
        while i < n
            invariant
                i <= n,
                n == self.steps@.len(),
                steps@.len() == i,
                forall|k: int|
                    0 <= k < i ==> {
                        let a = #[trigger] steps@[k];
                        let b = self.steps@[k];
                        &&& a.is_static == b.is_static
                        &&& a.offset == b.offset
                        &&& a.module_index == b.module_index
                        &&& a.module_name == b.module_name
                    },
            decreases n - i,
        {
            let src: &PointerChainStep = &self.steps[i];
            let name: Option<String> = match &src.module_name {
                Some(nm) => Some(nm.clone()),
                None => None,
            };
            steps.push(
                PointerChainStep {
                    module_name: name,
                    module_index: src.module_index,
                    offset: src.offset,
                    is_static: src.is_static,
                },
            );
            i += 1;
        }
        PointerChain { steps, target_address: self.target_address }
    }

    /// Renders the chain as `name[index]+0xBASE->+0xOFF->-0xOFF...`.
    pub fn format(&self) -> (r: String)
        ensures
            r@ =~= spec_chain_text(self.steps@),
    {
        let mut out: String = String::new();
        let n: usize = self.steps.len();
        let mut i: usize = 0;
        proof {
            assert(self.steps@.take(0) =~= Seq::<PointerChainStep>::empty());
        }
        while i < n
            invariant
                i <= n,
                n == self.steps@.len(),
                out@ =~= spec_chain_text(self.steps@.take(i as int)),
            decreases n - i,
        {
            proof {
                assert(self.steps@.take(i + 1).drop_last() =~= self.steps@.take(i as int));
                assert(self.steps@.take(i + 1).last() == self.steps@[i as int]);
                assert(self.steps@.take(i + 1).len() == i + 1);
            }
            let first: bool = i == 0;
            let step: &PointerChainStep = &self.steps[i];
            if first {
                match &step.module_name {
                    Some(nm) => {
                        out.append(nm.as_str());
                        proof {
                            reveal_strlit("[");
                            reveal_strlit("]+0x");
                            assert("["@ =~= seq!['[']);
                            assert("]+0x"@ =~= seq![']', '+', '0', 'x']);
                        }
                        out.append("[");
                        push_dec_u64(&mut out, step.module_index as u64);
                        out.append("]+0x");
                        push_hex_u64(&mut out, step.offset as u64);
                    },
                    None => {},
                }
            } else {
                let mag: u64 = if step.offset >= 0 {
                    step.offset as u64
                } else {
                    (-(step.offset as i128)) as u64
                };
                proof {
                    reveal_strlit("->+0x");
                    reveal_strlit("->-0x");
                    assert("->+0x"@ =~= seq!['-', '>', '+', '0', 'x']);
                    assert("->-0x"@ =~= seq!['-', '>', '-', '0', 'x']);
                }
                if step.offset >= 0 {
                    out.append("->+0x");
                } else {
                    out.append("->-0x");
                }
                push_hex_u64(&mut out, mag);
            }
            i += 1;
        }
        proof {
            assert(self.steps@.take(n as int) =~= self.steps@);
        }
        out
    }
}

/// Scan parameters: the target, the chain depth, the dereference window,
/// and the pointer alignment.
#[derive(Debug, Clone)]
pub struct PointerScanConfig {
    pub target_address: u64,
    pub max_depth: u32,
    pub max_offset: u32,
    pub align: u32,
    pub is_layer_bfs: bool,
    pub data_start: bool,
    pub bss_start: bool,
}

impl Default for PointerScanConfig {
    /// Depth 5, a 4 KiB window, 4-byte alignment.
    fn default() -> (r: Self)
        ensures
            r.target_address == 0,
            r.max_depth == 5,
            r.max_offset == 0x1000,
            r.align == 4,
            !r.is_layer_bfs,
            r.data_start,
            !r.bss_start,
    {
        Self {
            target_address: 0,
            max_depth: 5,
            max_offset: 0x1000,
            align: 4,
            is_layer_bfs: false,
            data_start: true,
            bss_start: false,
        }
    }
}

impl PointerScanConfig {
    pub fn new(target_address: u64) -> (r: Self)
        ensures
            r.target_address == target_address,
            r.max_depth == 5,
            r.max_offset == 0x1000,
            r.align == 4,
            !r.is_layer_bfs,
            r.data_start,
            !r.bss_start,
    {
        Self {
            target_address,
            max_depth: 5,
            max_offset: 0x1000,
            align: 4,
            is_layer_bfs: false,
            data_start: true,
            bss_start: false,
        }
    }

    pub fn with_depth(self, depth: u32) -> (r: Self)
        ensures
            r.max_depth == depth,
            r.target_address == self.target_address,
            r.max_offset == self.max_offset,
            r.align == self.align,
    {
        Self { max_depth: depth, ..self }
    }

    pub fn with_offset(self, offset: u32) -> (r: Self)
        ensures
            r.max_offset == offset,
            r.target_address == self.target_address,
            r.max_depth == self.max_depth,
            r.align == self.align,
    {
        Self { max_offset: offset, ..self }
    }

    pub fn with_align(self, align: u32) -> (r: Self)
        ensures
            r.align == align,
            r.target_address == self.target_address,
            r.max_depth == self.max_depth,
            r.max_offset == self.max_offset,
    {
        Self { align, ..self }
    }
}

/// A breadth-first node: a pointer plus the half-open index range of its
/// children in the level below.
#[derive(Debug, Clone, Copy, PartialEq, Eq, Structural)]
pub struct PointerDir {
    pub address: u64,
    pub value: u64,
    pub start: u32,
    pub end: u32,
}

impl PointerDir {
    pub fn new(address: u64, value: u64) -> (r: Self)
        ensures
            r == (PointerDir { address, value, start: 0u32, end: 1u32 }),
    {
        Self { address, value, start: 0, end: 1 }
    }

    pub fn with_range(address: u64, value: u64, start: u32, end: u32) -> (r: Self)
        ensures
            r == (PointerDir { address, value, start, end }),
    {
        Self { address, value, start, end }
    }

    pub fn from_data(data: &PointerData) -> (r: Self)
        ensures
            r == (PointerDir { address: data.address, value: data.value, start: 0u32, end: 1u32 }),
    {
        Self::new(data.address, data.value)
    }

    /// Number of children, zero when the range is inverted.
    pub fn child_count(&self) -> (r: u32)
        ensures
            r == if self.end >= self.start {
                (self.end - self.start) as u32
            } else {
                0u32
            },
    {
        if self.end >= self.start {
            self.end - self.start
        } else {
            0
        }
    }
}

/// The kind of a mapped memory region, judged from its name and
/// permissions.
#[derive(Debug, Clone, Copy, PartialEq, Eq, Structural)]
pub enum MemRange {
    Anonymous,
    CHeap,
    CAlloc,
    CodeApp,
    CodeSystem,
    CBss,
    CData,
    Other,
}

/// The region-kind rules, over the mapping's name and permission string.
pub open spec fn spec_detect_range(name: Seq<char>, perms: Seq<char>) -> MemRange {
    if name.len() == 0 {
        MemRange::Anonymous
    } else if name == "[heap]"@ {
        MemRange::CHeap
    } else if spec_match_at(name, "[anon:libc_malloc"@, 0) || spec_match_at(
        name,
        "[anon:scudo:"@,
        0,
    ) {
        MemRange::CAlloc
    } else if spec_str_contains(name, "/data/app/"@) && perms.contains('x') && spec_str_contains(
        name,
        ".so"@,
    ) {
        MemRange::CodeApp
    } else if spec_str_contains(name, "/system/framework/"@) {
        MemRange::CodeSystem
    } else if spec_str_contains(name, "[anon:.bss]"@) {
        MemRange::CBss
    } else if spec_str_contains(name, "/data/app/"@) && spec_str_contains(name, ".so"@) {
        MemRange::CData
    } else {
        MemRange::Other
    }
}

impl MemRange {
    /// Classifies a mapping by name and permissions: heap and allocator
    /// arenas, app code (needs execute permission), app data, system
    /// framework code, `.bss`, or other.
    pub fn detect(name: &str, perms: &str) -> (r: Self)
        ensures
            r == spec_detect_range(name@, perms@),
    {
        if name.unicode_len() == 0 {
            return MemRange::Anonymous;
        }
        if str_eq(name, "[heap]") {
            return MemRange::CHeap;
        }
        if str_starts_with(name, "[anon:libc_malloc") || str_starts_with(name, "[anon:scudo:") {
            return MemRange::CAlloc;
        }
        let in_app: bool = str_contains(name, "/data/app/");
        let is_so: bool = str_contains(name, ".so");
        if in_app && str_contains_char(perms, 'x') && is_so {
            return MemRange::CodeApp;
        }
        if str_contains(name, "/system/framework/") {
            return MemRange::CodeSystem;
        }
        if str_contains(name, "[anon:.bss]") {
            return MemRange::CBss;
        }
        if in_app && is_so {
            return MemRange::CData;
        }
        MemRange::Other
    }

    /// Whether chain roots may live in this kind of region.
    pub fn is_static(&self) -> (r: bool)
        ensures
            r == (*self == MemRange::CData || *self == MemRange::CodeApp),
    {
        matches!(self, MemRange::CData | MemRange::CodeApp)
    }
}

/// A region with its kind, name, and instance ordinal.
#[derive(Debug, Clone)]
pub struct VmAreaData {
    pub start: u64,
    pub end: u64,
    pub range: MemRange,
    pub name: String,
    pub count: i32,
}

impl VmAreaData {
    pub fn new(start: u64, end: u64, range: MemRange, name: String, count: i32) -> (r: Self)
        ensures
            r.start == start,
            r.end == end,
            r.range == range,
            r.name == name,
            r.count == count,
    {
        Self { start, end, range, name, count }
    }

    pub fn from_static(vma: &VmStaticData) -> (r: Self)
        ensures
            r.start == vma.base_address,
            r.end == vma.end_address,
            r.range == if vma.is_static {
                MemRange::CData
            } else {
                MemRange::Other
            },
            r.name == vma.name,
            r.count == vma.index as i32,
    {
        Self {
            start: vma.base_address,
            end: vma.end_address,
            range: if vma.is_static {
                MemRange::CData
            } else {
                MemRange::Other
            },
            name: vma.name.clone(),
            count: vma.index as i32,
        }
    }

    pub fn size(&self) -> (r: u64)
        requires
            self.start <= self.end,
        ensures
            r == self.end - self.start,
    {
        self.end - self.start
    }
}

/// One static-rooted exit band: the module it roots in and its nodes at
/// one breadth-first depth.
pub struct PointerRange {
    pub level: i32,
    pub vma: VmAreaData,
    pub results: MapQueue<PointerDir>,
}

impl PointerRange {
    pub fn new(level: i32, vma: VmAreaData, results: MapQueue<PointerDir>) -> (r: Self)
        ensures
            r.level == level,
            r.vma == vma,
            r.results == results,
    {
        Self { level, vma, results }
    }
}

/// The prefix-sum tree built after the walk: per level, the cumulative
/// leaf-chain counts and the level's nodes.
pub struct ChainInfo {
    pub counts: Vec<MapQueue<usize>>,
    pub contents: Vec<MapQueue<PointerDir>>,
}

impl ChainInfo {
    pub fn new(counts: Vec<MapQueue<usize>>, contents: Vec<MapQueue<PointerDir>>) -> (r: Self)
        ensures
            r.counts == counts,
            r.contents == contents,
    {
        Self { counts, contents }
    }

    pub fn is_empty(&self) -> (r: bool)
        ensures
            r == (self.counts@.len() == 0 || self.contents@.len() == 0),
    {
        self.counts.len() == 0 || self.contents.len() == 0
    }

    pub fn level_count(&self) -> (r: usize)
        ensures
            r == self.contents@.len(),
    {
        self.contents.len()
    }
}

/// Module metadata of the on-disk chain listing: a base address and a
/// NUL-terminated name of at most 63 bytes.
#[derive(Debug, Clone, Copy)]
pub struct ChainSymbol {
    pub start: u64,
    pub name: [u8; 64],
    pub range: i32,
    pub count: i32,
    pub pointer_count: i32,
    pub level: i32,
}

impl Default for ChainSymbol {
    fn default() -> (r: Self)
        ensures
            r.start == 0,
            r.range == 0,
            r.count == 0,
            r.pointer_count == 0,
            r.level == 0,
            forall|i: int| 0 <= i < 64 ==> r.name@[i] == 0u8,
    {
        Self { start: 0, name: [0u8; 64], range: 0, count: 0, pointer_count: 0, level: 0 }
    }
}

impl ChainSymbol {
    /// Stores at most 63 bytes of `name` followed by a NUL.
    pub fn set_name(&mut self, name: &str)
        ensures
            final(self).start == old(self).start,
            final(self).range == old(self).range,
            final(self).count == old(self).count,
            final(self).pointer_count == old(self).pointer_count,
            final(self).level == old(self).level,
            final(self).name@.len() == 64,
            ({
                let len = if name.spec_bytes().len() < 63 {
                    name.spec_bytes().len() as int
                } else {
                    63
                };
                &&& forall|i: int|
                    0 <= i < len ==> final(self).name@[i] == name.spec_bytes()[i]
                &&& final(self).name@[len] == 0u8
            }),
    {
        let bytes: &[u8] = name.as_bytes();
        let len: usize = if bytes.len() < 63 {
            bytes.len()
        } else {
            63
        };
        let mut i: usize = 0;
        while i < len
            invariant
                i <= len,
                len <= 63,
                len <= bytes@.len(),
                self.name@.len() == 64,
                self.start == old(self).start,
                self.range == old(self).range,
                self.count == old(self).count,
                self.pointer_count == old(self).pointer_count,
                self.level == old(self).level,
                forall|j: int| 0 <= j < i ==> self.name@[j] == bytes@[j],
            decreases len - i,
        {
            self.name[i] = *vstd::slice::slice_index_get(bytes, i);
            i += 1;
        }
        self.name[len] = 0;
    }

    /// The stored name up to its NUL, decoded back to text.
    pub fn get_name(&self) -> (r: String)
        ensures
            (forall|i: int|
                0 <= i < spec_sym_name_len(self.name@) ==> self.name@[i] < 128) ==> r@.len()
                == spec_sym_name_len(self.name@) && forall|i: int|
                0 <= i < r@.len() ==> r@[i] == self.name@[i] as char,
    {
        let mut end: usize = 64;
        let mut i: usize = 0;
        while i < 64
            invariant
                i <= 64,
                end <= 64,
                self.name@.len() == 64,
                end == 64 ==> forall|j: int| 0 <= j < i ==> self.name@[j] != 0u8,
                end < 64 ==> end < i && self.name@[end as int] == 0u8 && forall|j: int|
                    0 <= j < end ==> self.name@[j] != 0u8,
            decreases 64 - i,
        {
            if end == 64 && self.name[i] == 0 {
                end = i;
            }
            i += 1;
        }
        let mut bytes: Vec<u8> = Vec::new();
        let mut k: usize = 0;
        while k < end
            invariant
                k <= end,
                end <= 64,
                self.name@.len() == 64,
                bytes@.len() == k,
                forall|j: int| 0 <= j < k ==> bytes@[j] == self.name@[j],
            decreases end - k,
        {
            bytes.push(self.name[k]);
            k += 1;
        }
        proof {
            assert(end == spec_sym_name_len(self.name@));
        }
        string_from_bytes(bytes)
    }
}

/// Length of a NUL-terminated name within its 64-byte field.
pub open spec fn spec_sym_name_len(name: Seq<u8>) -> int {
    if exists|i: int| 0 <= i < 64 && name[i] == 0u8 {
        choose|i: int| 0 <= i < 64 && name[i] == 0u8 && forall|j: int| 0 <= j < i ==> name[j] != 0u8
    } else {
        64
    }
}

/// Header of the on-disk chain listing.
#[derive(Debug, Clone, Copy)]
pub struct ChainHeader {
    pub sign: [u8; 128],
    pub module_count: i32,
    pub version: i32,
    pub size: i32,
    pub level: i32,
}

impl Default for ChainHeader {
    fn default() -> (r: Self)
        ensures
            r.module_count == 0,
            r.version == 101,
            r.size == 8,
            r.level == 0,
            r.sign@.len() == 128,
    {
        Self { sign: [0u8; 128], module_count: 0, version: 101, size: 8, level: 0 }
    }
}

/// Per-level length record of the on-disk chain listing.
#[derive(Debug, Clone, Copy, PartialEq, Eq, Structural)]
pub struct ChainLevelLen {
    pub module_count: i32,
    pub count: u32,
    pub level: i32,
}

impl Default for ChainLevelLen {
    fn default() -> (r: Self)
        ensures
            r.module_count == 0,
            r.count == 0,
            r.level == 0,
    {
        Self { module_count: 0, count: 0, level: 0 }
    }
}

} // verus!
