//! Shared bounded descriptor walk. The reader chooses execution or inspection effects.

use vstd::prelude::*;

use crate::cpu_m68k::pmmu::regs::{PmmuPageDescriptorType as Dt, RootPointerReg, TcReg};

verus! {

/// Why a descriptor search cannot produce a translation.
#[derive(Debug, Clone, Copy, PartialEq, Eq, Structural)]
pub enum WalkFailureKind {
    InvalidDescriptor,
    LimitViolation,
    InvalidConfiguration,
    UnsupportedRoot,
    DepthExceeded,
    UnreadableDescriptor,
    DescriptorUpdate,
    WriteProtected,
    SupervisorOnly,
}

/// A failure belongs to this attempted search, not to the live status register.
#[derive(Debug, Clone, PartialEq, Eq)]
pub struct WalkFailure {
    pub kind: WalkFailureKind,
    pub level: u8,
    pub address: Option<u32>,
    pub detail: String,
    /// Long words read before an unreadable boundary in the failing descriptor.
    pub partial_words: Vec<u32>,
    /// Bytes read within the incomplete long word at the failing boundary.
    pub partial_bytes: Vec<u8>,
}

/// The value of a [`WalkFailure`].
#[verifier::ext_equal]
pub ghost struct FailureModel {
    pub kind: WalkFailureKind,
    pub level: u8,
    pub address: Option<u32>,
    pub detail: Seq<char>,
    pub partial_words: Seq<u32>,
    pub partial_bytes: Seq<u8>,
}

impl View for WalkFailure {
    type V = FailureModel;

    open spec fn view(&self) -> FailureModel {
        FailureModel {
            kind: self.kind,
            level: self.level,
            address: self.address,
            detail: self.detail@,
            partial_words: self.partial_words@,
            partial_bytes: self.partial_bytes@,
        }
    }
}

/// A failure that carries no partially read descriptor.
pub open spec fn plain_failure(
    kind: WalkFailureKind,
    level: u8,
    address: Option<u32>,
    detail: Seq<char>,
) -> FailureModel {
    FailureModel {
        kind,
        level,
        address,
        detail,
        partial_words: Seq::empty(),
        partial_bytes: Seq::empty(),
    }
}

impl WalkFailure {
    /// A failure at level zero, without partial data.
    pub fn new(kind: WalkFailureKind, address: Option<u32>, detail: String) -> (failure: Self)
        ensures
            failure@ == plain_failure(kind, 0, address, detail@),
    {
        WalkFailure {
            kind,
            level: 0,
            address,
            detail,
            partial_words: Vec::new(),
            partial_bytes: Vec::new(),
        }
    }

    /// An equal failure with storage of its own.
    pub fn duplicate(&self) -> (copy: Self)
        ensures
            copy@ == self@,
    {
        let copy = WalkFailure {
            kind: self.kind,
            level: self.level,
            address: self.address,
            detail: self.detail.clone(),
            partial_words: self.partial_words.clone(),
            partial_bytes: self.partial_bytes.clone(),
        };
        assert(copy.partial_words@ =~= self.partial_words@);
        assert(copy.partial_bytes@ =~= self.partial_bytes@);
        copy
    }
}

/// Which address-space or logical-address field selects a descriptor.
#[derive(Debug, Clone, Copy, PartialEq, Eq, Structural)]
pub enum DescriptorIndex {
    FunctionCode,
    TableA,
    TableB,
    TableC,
    TableD,
}

/// Bound that a table descriptor puts on indices into its table.
#[derive(Debug, Clone, Copy, PartialEq, Eq, Structural)]
pub struct IndexLimit {
    pub value: u16,
    pub lower: bool,
}

/// Evidence for one descriptor, before any execution-side U/M updates.
#[derive(Debug, Clone, PartialEq, Eq)]
pub struct DescriptorStep {
    pub level: u8,
    pub index_source: DescriptorIndex,
    pub index: u32,
    pub address: u32,
    pub width: u8,
    pub words: Vec<u32>,
    pub descriptor_type: u8,
    pub target_address: Option<u32>,
    pub write_protected: bool,
    pub supervisor_only: bool,
    pub used: bool,
    pub modified: bool,
    pub cache_inhibit: bool,
    pub parent_limit: Option<IndexLimit>,
    pub child_limit: Option<IndexLimit>,
}

/// The value of a [`DescriptorStep`].
#[verifier::ext_equal]
pub ghost struct StepModel {
    pub level: u8,
    pub index_source: DescriptorIndex,
    pub index: u32,
    pub address: u32,
    pub width: u8,
    pub words: Seq<u32>,
    pub descriptor_type: u8,
    pub target_address: Option<u32>,
    pub write_protected: bool,
    pub supervisor_only: bool,
    pub used: bool,
    pub modified: bool,
    pub cache_inhibit: bool,
    pub parent_limit: Option<IndexLimit>,
    pub child_limit: Option<IndexLimit>,
}

impl View for DescriptorStep {
    type V = StepModel;

    open spec fn view(&self) -> StepModel {
        StepModel {
            level: self.level,
            index_source: self.index_source,
            index: self.index,
            address: self.address,
            width: self.width,
            words: self.words@,
            descriptor_type: self.descriptor_type,
            target_address: self.target_address,
            write_protected: self.write_protected,
            supervisor_only: self.supervisor_only,
            used: self.used,
            modified: self.modified,
            cache_inhibit: self.cache_inhibit,
            parent_limit: self.parent_limit,
            child_limit: self.child_limit,
        }
    }
}

impl DescriptorStep {
    /// Equal evidence with storage of its own.
    pub fn duplicate(&self) -> (copy: Self)
        ensures
            copy@ == self@,
    {
        let words = self.words.clone();
        assert(words@ =~= self.words@);
        DescriptorStep {
            level: self.level,
            index_source: self.index_source,
            index: self.index,
            address: self.address,
            width: self.width,
            words,
            descriptor_type: self.descriptor_type,
            target_address: self.target_address,
            write_protected: self.write_protected,
            supervisor_only: self.supervisor_only,
            used: self.used,
            modified: self.modified,
            cache_inhibit: self.cache_inhibit,
            parent_limit: self.parent_limit,
            child_limit: self.child_limit,
        }
    }
}

/// The page that a successful search ends at.
#[derive(Debug, Clone, Copy, PartialEq, Eq, Structural)]
pub struct ResolvedPage {
    pub physical_address: u32,
    pub offset_bits: u8,
    pub write_protected: bool,
    pub supervisor_only: bool,
    pub leaf_address: u32,
    pub modified: bool,
}

/// What a search found, level by level.
#[derive(Debug, Clone, PartialEq, Eq)]
pub struct TableWalk {
    pub descriptors: Vec<DescriptorStep>,
    pub level: u8,
    pub resolved: Option<ResolvedPage>,
    pub failure: Option<WalkFailure>,
}

/// The value of a [`TableWalk`].
#[verifier::ext_equal]
pub ghost struct WalkModel {
    pub descriptors: Seq<StepModel>,
    pub level: u8,
    pub resolved: Option<ResolvedPage>,
    pub failure: Option<FailureModel>,
}

/// The value of an optional failure.
pub open spec fn failure_model(failure: Option<WalkFailure>) -> Option<FailureModel> {
    match failure {
        Some(failure) => Some(failure@),
        None => None,
    }
}

/// The values of a list of steps.
pub open spec fn step_models(steps: Seq<DescriptorStep>) -> Seq<StepModel> {
    steps.map_values(|step: DescriptorStep| step@)
}

impl View for TableWalk {
    type V = WalkModel;

    open spec fn view(&self) -> WalkModel {
        WalkModel {
            descriptors: step_models(self.descriptors@),
            level: self.level,
            resolved: self.resolved,
            failure: failure_model(self.failure),
        }
    }
}

impl TableWalk {
    /// Records a failure at the current level.
    pub fn fail(&mut self, kind: WalkFailureKind, address: Option<u32>, detail: &str)
        ensures
            final(self)@ == (WalkModel {
                failure: Some(plain_failure(kind, old(self).level, address, detail@)),
                ..old(self)@
            }),
    {
        self.failure = Some(
            WalkFailure {
                kind,
                level: self.level,
                address,
                detail: detail.to_owned(),
                partial_words: Vec::new(),
                partial_bytes: Vec::new(),
            },
        );
    }

    /// Equal evidence with storage of its own.
    pub fn duplicate(&self) -> (copy: Self)
        ensures
            copy@ == self@,
    {
        let mut descriptors: Vec<DescriptorStep> = Vec::new();
        let mut i: usize = 0;
        while i < self.descriptors.len()
            invariant
                i <= self.descriptors@.len(),
                descriptors@.len() == i,
                forall|j: int|
                    0 <= j < i ==> (#[trigger] descriptors@[j])@ == self.descriptors@[j]@,
            decreases self.descriptors@.len() - i,
        {
            descriptors.push(self.descriptors[i].duplicate());
            i += 1;
        }
        assert(step_models(descriptors@) =~= step_models(self.descriptors@));
        TableWalk {
            descriptors,
            level: self.level,
            resolved: self.resolved,
            failure: match &self.failure {
                Some(failure) => Some(failure.duplicate()),
                None => None,
            },
        }
    }
}

/// Access to descriptor memory. Implementations must not choose a different descriptor
/// interpretation: they answer reads, and decide what selecting and marking a descriptor does.
pub trait WalkMemory: Sized {
    /// What the memory is, as far as a search can observe or change it.
    type State;

    spec fn state(&self) -> Self::State;

    /// The memory after a descriptor has been selected.
    spec fn selected(state: Self::State, address: u32) -> Self::State;

    /// The answer to a long word read, and the memory after it.
    spec fn long_read(state: Self::State, address: u32) -> (
        Result<u32, FailureModel>,
        Self::State,
    );

    /// The outcome of marking a descriptor used, and the memory after it.
    spec fn used_marked(state: Self::State, address: u32, original: u32) -> (
        Result<(), FailureModel>,
        Self::State,
    );

    fn select_descriptor(&mut self, address: u32)
        ensures
            final(self).state() == Self::selected(old(self).state(), address),
    ;

    fn read_long(&mut self, address: u32) -> (result: Result<u32, WalkFailure>)
        ensures
            read_model(result) == Self::long_read(old(self).state(), address).0,
            final(self).state() == Self::long_read(old(self).state(), address).1,
    ;

    fn mark_used(&mut self, address: u32, original: u32) -> (result: Result<(), WalkFailure>)
        ensures
            mark_model(result) == Self::used_marked(old(self).state(), address, original).0,
            final(self).state() == Self::used_marked(old(self).state(), address, original).1,
    ;
}

/// The value of a read's answer.
pub open spec fn read_model(result: Result<u32, WalkFailure>) -> Result<u32, FailureModel> {
    match result {
        Ok(word) => Ok(word),
        Err(failure) => Err(failure@),
    }
}

/// The value of a mark's outcome.
pub open spec fn mark_model(result: Result<(), WalkFailure>) -> Result<(), FailureModel> {
    match result {
        Ok(()) => Ok(()),
        Err(failure) => Err(failure@),
    }
}

pub const GEOMETRY_DETAIL: &'static str =
    "TC initial shift, table indices and page offset must total 32 bits";

pub const ROOT_DETAIL: &'static str = "Snow's walker requires a short or long table root (DT=2 or DT=3)";

pub const INDEX_DETAIL: &'static str =
    "A table descriptor requires another nonzero index; indirect descriptors are unsupported";

pub const LIMIT_DETAIL: &'static str = "Descriptor index violates its parent limit";

pub const INVALID_DETAIL: &'static str = "Descriptor DT is invalid";

pub const DEPTH_DETAIL: &'static str = "Table search exceeds F/A/B/C/D descriptor levels";

/// Bits that TC accounts for. A usable configuration accounts for all 32.
pub open spec fn geometry(tc: TcReg) -> int {
    tc.is() + tc.ps() + tc.tia() + tc.tib() + tc.tic() + tc.tid()
}

/// The index fields of a search, in order, with their widths in address bits.
pub open spec fn index_fields(tc: TcReg) -> Seq<(DescriptorIndex, u32)> {
    let address = seq![
        (DescriptorIndex::TableA, tc.tia()),
        (DescriptorIndex::TableB, tc.tib()),
        (DescriptorIndex::TableC, tc.tic()),
        (DescriptorIndex::TableD, tc.tid()),
    ];
    if tc.fcl() {
        seq![(DescriptorIndex::FunctionCode, 0u32)] + address
    } else {
        address
    }
}

/// The `bits` bits of `logical` that follow its first `consumed` bits.
pub open spec fn address_field(logical: u32, consumed: u32, bits: u32) -> u32 {
    (logical >> (32 - consumed - bits) as u32) & ((1u32 << bits) - 1) as u32
}

/// The index of a descriptor in its table.
pub open spec fn descriptor_index(
    source: DescriptorIndex,
    bits: u32,
    consumed: u32,
    logical: u32,
    function_code: u8,
) -> u32 {
    if source is FunctionCode {
        (function_code & 7) as u32
    } else {
        address_field(logical, consumed, bits)
    }
}

/// Whether an index respects the limit of the descriptor that names its table.
pub open spec fn within_limit(limit: Option<IndexLimit>, index: u32) -> bool {
    match limit {
        Some(bound) => if bound.lower {
            index >= bound.value
        } else {
            index <= bound.value
        },
        None => true,
    }
}

/// Ones in the bits that remain once `consumed` high bits are taken away.
pub open spec fn offset_mask(consumed: u32) -> u32 {
    if consumed >= 32 {
        0
    } else {
        u32::MAX >> consumed
    }
}

/// The limit that a descriptor puts on the table it names. Only long table descriptors do.
pub open spec fn child_limit(flags: u32, long: bool) -> Option<IndexLimit> {
    let kind = Dt::from_bits(flags);
    if long && (kind is Valid4b || kind is Valid8b) {
        Some(IndexLimit { value: ((flags >> 16) & 0x7FFF) as u16, lower: flags >> 31 != 0 })
    } else {
        None
    }
}

/// Reading of a descriptor: its words, and where and how it was found.
pub open spec fn decoded(
    level: u8,
    source: DescriptorIndex,
    index: u32,
    address: u32,
    long: bool,
    words: Seq<u32>,
    parent_limit: Option<IndexLimit>,
) -> StepModel {
    let flags = words[0];
    let target = words.last();
    let kind = Dt::from_bits(flags);
    StepModel {
        level,
        index_source: source,
        index,
        address,
        width: if long {
            8
        } else {
            4
        },
        words,
        descriptor_type: kind.code(),
        target_address: match kind {
            Dt::Invalid => None,
            Dt::PageDescriptor => Some(target & !255u32),
            Dt::Valid4b | Dt::Valid8b => Some(target & !15u32),
        },
        write_protected: flags & 4 != 0,
        supervisor_only: long && flags & 0x100 != 0,
        used: flags & 8 != 0,
        modified: kind is PageDescriptor && flags & 16 != 0,
        cache_inhibit: kind is PageDescriptor && flags & 64 != 0,
        parent_limit,
        child_limit: child_limit(flags, long),
    }
}

/// A search between two levels: the table it is about to index, and what it has gathered.
#[verifier::ext_equal]
pub ghost struct Search {
    pub table: u32,
    /// The table holds eight-byte descriptors.
    pub long: bool,
    pub limit: Option<IndexLimit>,
    pub consumed: u32,
    pub write_protected: bool,
    pub supervisor_only: bool,
    pub steps: Seq<StepModel>,
}

/// Address of entry `index` in the table that a search has reached.
pub open spec fn entry_address(search: Search, index: u32) -> u32 {
    search.table.wrapping_add(
        (index * (if search.long {
            8int
        } else {
            4int
        })) as u32,
    )
}

/// The words of the descriptor at `address`, read low address first. A failed read keeps the
/// words before it.
pub open spec fn descriptor_read<M: WalkMemory>(
    memory: M::State,
    address: u32,
    long: bool,
) -> (Result<Seq<u32>, FailureModel>, M::State) {
    let (first, memory) = M::long_read(memory, address);
    match first {
        Err(failure) => (Err(FailureModel { partial_words: Seq::empty(), ..failure }), memory),
        Ok(flags) => if !long {
            (Ok(seq![flags]), memory)
        } else {
            let (second, memory) = M::long_read(memory, address.wrapping_add(4));
            match second {
                Err(failure) => (Err(FailureModel { partial_words: seq![flags], ..failure }), memory),
                Ok(target) => (Ok(seq![flags, target]), memory),
            }
        },
    }
}

/// A search that ended without a page.
pub open spec fn failed(steps: Seq<StepModel>, level: u8, failure: FailureModel) -> WalkModel {
    WalkModel {
        descriptors: steps,
        level,
        resolved: None,
        failure: Some(FailureModel { level, ..failure }),
    }
}

/// A search that ended at a page descriptor.
pub open spec fn resolved(before: Search, bits: u32, step: StepModel, logical: u32) -> WalkModel {
    let consumed = (before.consumed + bits) as u32;
    let mask = offset_mask(consumed);
    WalkModel {
        descriptors: before.steps.push(step),
        level: step.level,
        resolved: Some(
            ResolvedPage {
                physical_address: (step.words.last() & !255u32 & !mask) | (logical & mask),
                offset_bits: (32 - consumed) as u8,
                write_protected: before.write_protected || step.write_protected,
                supervisor_only: before.supervisor_only || step.supervisor_only,
                leaf_address: step.address,
                modified: step.modified,
            },
        ),
        failure: None,
    }
}

/// The search one level down, in the table that a table descriptor names.
pub open spec fn descended(before: Search, bits: u32, step: StepModel) -> Search {
    Search {
        table: step.words.last() & !15u32,
        long: step.descriptor_type == 3,
        limit: step.child_limit,
        consumed: (before.consumed + bits) as u32,
        write_protected: before.write_protected || step.write_protected,
        supervisor_only: before.supervisor_only || step.supervisor_only,
        steps: before.steps.push(step),
    }
}

/// The search from the table reached after `done` levels, and the memory after it.
pub open spec fn searched<M: WalkMemory>(
    memory: M::State,
    tc: TcReg,
    logical: u32,
    function_code: u8,
    done: nat,
    search: Search,
) -> (WalkModel, M::State)
    decreases 5 - done,
{
    let fields = index_fields(tc);
    if done >= fields.len() || done >= 5 {
        let failure = plain_failure(
            WalkFailureKind::DepthExceeded,
            0,
            Some(search.table),
            DEPTH_DETAIL@,
        );
        (failed(search.steps, fields.len() as u8, failure), memory)
    } else {
        let (source, bits) = fields[done as int];
        let level = (done + 1) as u8;
        let index = descriptor_index(source, bits, search.consumed, logical, function_code);
        let address = entry_address(search, index);
        if bits == 0 && !(source is FunctionCode) {
            let failure = plain_failure(
                WalkFailureKind::DepthExceeded,
                0,
                Some(search.table),
                INDEX_DETAIL@,
            );
            (failed(search.steps, level, failure), memory)
        } else if !within_limit(search.limit, index) {
            let failure = plain_failure(
                WalkFailureKind::LimitViolation,
                0,
                Some(search.table),
                LIMIT_DETAIL@,
            );
            (failed(search.steps, level, failure), memory)
        } else {
            match descriptor_read::<M>(M::selected(memory, address), address, search.long) {
                (Err(failure), memory) => (failed(search.steps, level, failure), memory),
                (Ok(words), memory) => {
                    let step = decoded(
                        level,
                        source,
                        index,
                        address,
                        search.long,
                        words,
                        search.limit,
                    );
                    if step.descriptor_type == 0 {
                        let failure = plain_failure(
                            WalkFailureKind::InvalidDescriptor,
                            0,
                            Some(address),
                            INVALID_DETAIL@,
                        );
                        (failed(search.steps.push(step), level, failure), memory)
                    } else {
                        let (marked, memory) = if step.used {
                            (Ok(()), memory)
                        } else {
                            M::used_marked(memory, address, words[0])
                        };
                        match marked {
                            Err(failure) => (
                                failed(search.steps.push(step), level, failure),
                                memory,
                            ),
                            Ok(()) => if step.descriptor_type == 1 {
                                (resolved(search, bits, step, logical), memory)
                            } else {
                                searched::<M>(
                                    memory,
                                    tc,
                                    logical,
                                    function_code,
                                    done + 1,
                                    descended(search, bits, step),
                                )
                            },
                        }
                    }
                },
            }
        }
    }
}

/// The search before its first level. FCL suppresses the root limit (MC68030 UM 9.7.2,
/// MC68851 UM 6.1.3.3).
pub open spec fn search_start(tc: TcReg, root: RootPointerReg) -> Search {
    Search {
        table: root.table_addr() << 4,
        long: root.dt() is Valid8b,
        limit: if tc.fcl() {
            None
        } else {
            Some(IndexLimit { value: root.limit(), lower: root.lu() })
        },
        consumed: tc.is(),
        write_protected: false,
        supervisor_only: false,
        steps: Seq::empty(),
    }
}

/// The search for `logical` from `root`, and the memory after it.
pub open spec fn walked<M: WalkMemory>(
    memory: M::State,
    tc: TcReg,
    root: RootPointerReg,
    logical: u32,
    function_code: u8,
) -> (WalkModel, M::State) {
    if geometry(tc) != 32 {
        let failure = plain_failure(
            WalkFailureKind::InvalidConfiguration,
            0,
            None,
            GEOMETRY_DETAIL@,
        );
        (failed(Seq::empty(), 0, failure), memory)
    } else if !(root.dt() is Valid4b || root.dt() is Valid8b) {
        let failure = plain_failure(WalkFailureKind::UnsupportedRoot, 0, None, ROOT_DETAIL@);
        (failed(Seq::empty(), 0, failure), memory)
    } else {
        searched::<M>(memory, tc, logical, function_code, 0, search_start(tc, root))
    }
}

/// Every TC field has four bits.
pub proof fn lemma_field_widths(tc: TcReg)
    ensures
        tc.is() <= 15,
        tc.ps() <= 15,
        tc.tia() <= 15,
        tc.tib() <= 15,
        tc.tic() <= 15,
        tc.tid() <= 15,
{
    let word = tc.0;
    assert((word >> 20) & 15 <= 15 && (word >> 16) & 15 <= 15 && (word >> 12) & 15 <= 15 && (word
        >> 8) & 15 <= 15 && (word >> 4) & 15 <= 15 && word & 15 <= 15) by (bit_vector);
}

/// Shifting the consumed bits out at the top leaves the next field on top.
proof fn lemma_shifted_field(logical: u32, consumed: u32, bits: u32)
    requires
        consumed + bits <= 32,
        1 <= bits <= 15,
    ensures
        (logical << consumed) >> (32 - bits) as u32 == address_field(logical, consumed, bits),
        address_field(logical, consumed, bits) < 0x8000,
{
    assert((logical << consumed) >> ((32 - bits) as u32) == (logical >> ((32 - consumed
        - bits) as u32)) & (((1u32 << bits) - 1) as u32) && (logical >> ((32 - consumed
        - bits) as u32)) & (((1u32 << bits) - 1) as u32) < 0x8000u32) by (bit_vector)
        requires
            consumed + bits <= 32,
            1 <= bits <= 15,
    ;
}

/// Shifting out one field after the consumed bits consumes both.
proof fn lemma_shift_on(logical: u32, consumed: u32, bits: u32)
    requires
        consumed + bits < 32,
    ensures
        (logical << consumed) << bits == logical << (consumed + bits) as u32,
{
    assert((logical << consumed) << bits == logical << ((consumed + bits) as u32))
        by (bit_vector)
        requires
            consumed + bits < 32,
    ;
}

/// The descriptor bits that a search looks at.
proof fn lemma_descriptor_bits(flags: u32)
    ensures
        flags & 3 <= 3,
        (flags & 3) & 3 == flags & 3,
        (flags >> 16) & 0x7FFF <= 0x7FFF,
{
    assert(flags & 3 <= 3 && (flags & 3) & 3 == flags & 3 && (flags >> 16) & 0x7FFF <= 0x7FFF)
        by (bit_vector);
}

/// The index fields of a search, in order, with their widths in address bits.
fn list_fields(tc: TcReg) -> (fields: Vec<(DescriptorIndex, u32)>)
    ensures
        fields@ == index_fields(tc),
{
    let mut fields: Vec<(DescriptorIndex, u32)> = Vec::new();
    if tc.fcl() {
        fields.push((DescriptorIndex::FunctionCode, 0));
    }
    fields.push((DescriptorIndex::TableA, tc.tia()));
    fields.push((DescriptorIndex::TableB, tc.tib()));
    fields.push((DescriptorIndex::TableC, tc.tic()));
    fields.push((DescriptorIndex::TableD, tc.tid()));
    assert(fields@ =~= index_fields(tc));
    fields
}

/// Address bits that the first `done` fields of a search consume, ignored ones counted.
pub open spec fn consumed_by(tc: TcReg, done: nat) -> int
    decreases done,
{
    if done == 0 {
        tc.is() as int
    } else {
        consumed_by(tc, (done - 1) as nat) + index_fields(tc)[done - 1].1
    }
}

/// The fields together consume all but the page offset.
pub proof fn lemma_consumed_by(tc: TcReg)
    ensures
        geometry(tc) == 32 ==> forall|done: nat|
            done <= index_fields(tc).len() ==> tc.is() <= #[trigger] consumed_by(tc, done) <= 32
                - tc.ps(),
{
    lemma_field_widths(tc);
    reveal_with_fuel(consumed_by, 6);
    let n = index_fields(tc).len();
    assert forall|done: nat| done <= n && geometry(tc) == 32 implies tc.is()
        <= #[trigger] consumed_by(tc, done) <= 32 - tc.ps() by {
        assert(done == 0 || done == 1 || done == 2 || done == 3 || done == 4 || done == 5);
    }
}

/// Walk the optional F level followed by A/B/C/D, using the same effects policy.
pub fn walk_tables<M: WalkMemory>(
    memory: &mut M,
    tc: TcReg,
    root: RootPointerReg,
    logical: u32,
    function_code: u8,
) -> (evidence: TableWalk)
    ensures
        evidence@ == walked::<M>(old(memory).state(), tc, root, logical, function_code).0,
        final(memory).state() == walked::<M>(
            old(memory).state(),
            tc,
            root,
            logical,
            function_code,
        ).1,
{
    let mut evidence = TableWalk {
        descriptors: Vec::new(),
        level: 0,
        resolved: None,
        failure: None,
    };
    assert(step_models(evidence.descriptors@) =~= Seq::empty());
    proof {
        lemma_field_widths(tc);
        lemma_consumed_by(tc);
    }
    let total: u32 = tc.is() + tc.ps() + tc.tia() + tc.tib() + tc.tic() + tc.tid();
    if total != 32 {
        evidence.fail(WalkFailureKind::InvalidConfiguration, None, GEOMETRY_DETAIL);
        return evidence;
    }
    let mut descriptor_type = root.dt();
    let mut table_address: u32 = root.table_addr() << 4;
    // MC68030 UM 9.7.2 and MC68851 UM 6.1.3.3: FCL suppresses the root limit.
    let mut limit: Option<IndexLimit> = if tc.fcl() {
        None
    } else {
        Some(IndexLimit { value: root.limit(), lower: root.lu() })
    };
    let mut consumed: u32 = tc.is();
    let mut shifted: u32 = logical << tc.is();
    let mut write_protected: bool = false;
    let mut supervisor_only: bool = false;
    if descriptor_type != Dt::Valid4b && descriptor_type != Dt::Valid8b {
        evidence.fail(WalkFailureKind::UnsupportedRoot, None, ROOT_DETAIL);
        return evidence;
    }
    let fields = list_fields(tc);
    let mut done: usize = 0;
    let ghost start = old(memory).state();
    let ghost mut search = search_start(tc, root);
    while done < fields.len()
        invariant
            geometry(tc) == 32,
            root.dt() is Valid4b || root.dt() is Valid8b,
            fields@ == index_fields(tc),
            done <= fields@.len() <= 5,
            start == old(memory).state(),
            evidence.level == done,
            evidence.resolved is None,
            evidence.failure is None,
            descriptor_type is Valid4b || descriptor_type is Valid8b,
            search == (Search {
                table: table_address,
                long: descriptor_type is Valid8b,
                limit,
                consumed,
                write_protected,
                supervisor_only,
                steps: step_models(evidence.descriptors@),
            }),
            consumed == consumed_by(tc, done as nat),
            consumed < 32 ==> shifted == logical << consumed,
            forall|n: nat| n <= fields@.len() ==> tc.is() <= #[trigger] consumed_by(tc, n) <= 32,
            walked::<M>(start, tc, root, logical, function_code) == searched::<M>(
                memory.state(),
                tc,
                logical,
                function_code,
                done as nat,
                search,
            ),
        decreases fields@.len() - done,
    {
        let (index_source, bits) = fields[done];
        proof {
            lemma_field_widths(tc);
            assert(consumed_by(tc, (done + 1) as nat) == consumed + bits);
        }
        evidence.level = (done + 1) as u8;
        if bits == 0 && index_source != DescriptorIndex::FunctionCode {
            evidence.fail(WalkFailureKind::DepthExceeded, Some(table_address), INDEX_DETAIL);
            return evidence;
        }
        let index: u32 = if index_source == DescriptorIndex::FunctionCode {
            (function_code & 7) as u32
        } else {
            proof {
                lemma_shifted_field(logical, consumed, bits);
            }
            shifted >> (32 - bits)
        };
        assert(index == descriptor_index(index_source, bits, consumed, logical, function_code));
        assert(index <= 0x8000) by {
            assert(function_code & 7 <= 7) by (bit_vector);
        }
        if let Some(bound) = limit {
            let invalid: bool = if bound.lower {
                index < bound.value as u32
            } else {
                index > bound.value as u32
            };
            if invalid {
                evidence.fail(WalkFailureKind::LimitViolation, Some(table_address), LIMIT_DETAIL);
                return evidence;
            }
        }
        let long: bool = descriptor_type == Dt::Valid8b;
        let width: u8 = if long {
            8
        } else {
            4
        };
        let address: u32 = table_address.wrapping_add(index * (width as u32));
        assert(address == entry_address(search, index));
        let ghost before = memory.state();
        memory.select_descriptor(address);
        let mut words: Vec<u32> = Vec::new();
        match memory.read_long(address) {
            Ok(word) => words.push(word),
            Err(mut error) => {
                error.level = evidence.level;
                error.partial_words = words;
                evidence.failure = Some(error);
                return evidence;
            },
        }
        if long {
            match memory.read_long(address.wrapping_add(4)) {
                Ok(word) => words.push(word),
                Err(mut error) => {
                    error.level = evidence.level;
                    error.partial_words = words;
                    evidence.failure = Some(error);
                    return evidence;
                },
            }
        }
        let ghost words_read = words@;
        assert(words_read =~= if long {
            seq![words_read[0], words_read[1]]
        } else {
            seq![words_read[0]]
        });
        assert(descriptor_read::<M>(M::selected(before, address), address, long) == (
            Ok::<Seq<u32>, FailureModel>(words_read),
            memory.state(),
        ));
        let flags: u32 = words[0];
        let target: u32 = words[words.len() - 1];
        proof {
            lemma_descriptor_bits(flags);
        }
        descriptor_type = Dt::from_bits(flags & 3);
        let page: bool = descriptor_type == Dt::PageDescriptor;
        let step_wp: bool = flags & 4 != 0;
        let step_s: bool = width == 8 && flags & 0x100 != 0;
        let child_limit: Option<IndexLimit> = if width == 8 && !page && descriptor_type
            != Dt::Invalid {
            Some(IndexLimit { value: ((flags >> 16) & 0x7FFF) as u16, lower: flags >> 31 != 0 })
        } else {
            None
        };
        let target_address: Option<u32> = if descriptor_type == Dt::Invalid {
            None
        } else if page {
            Some(target & !255u32)
        } else {
            Some(target & !15u32)
        };
        let ghost steps = search.steps;
        evidence.descriptors.push(
            DescriptorStep {
                level: evidence.level,
                index_source,
                index,
                address,
                width,
                words,
                descriptor_type: descriptor_type.code(),
                target_address,
                write_protected: step_wp,
                supervisor_only: step_s,
                used: flags & 8 != 0,
                modified: page && flags & 16 != 0,
                cache_inhibit: page && flags & 64 != 0,
                parent_limit: limit,
                child_limit,
            },
        );
        let ghost step = decoded(
            (done + 1) as u8,
            index_source,
            index,
            address,
            long,
            words_read,
            limit,
        );
        assert(step_models(evidence.descriptors@) =~= steps.push(step));
        if descriptor_type == Dt::Invalid {
            evidence.fail(WalkFailureKind::InvalidDescriptor, Some(address), INVALID_DETAIL);
            return evidence;
        }
        if flags & 8 == 0 {
            if let Err(mut error) = memory.mark_used(address, flags) {
                error.level = evidence.level;
                evidence.failure = Some(error);
                return evidence;
            }
        }
        consumed = consumed + bits;
        write_protected = write_protected || step_wp;
        supervisor_only = supervisor_only || step_s;
        if page {
            let mask: u32 = if consumed >= 32 {
                0
            } else {
                u32::MAX >> consumed
            };
            evidence.resolved = Some(
                ResolvedPage {
                    physical_address: (target & !255u32 & !mask) | (logical & mask),
                    offset_bits: (32 - consumed) as u8,
                    write_protected,
                    supervisor_only,
                    leaf_address: address,
                    modified: flags & 16 != 0,
                },
            );
            return evidence;
        }
        table_address = target & !15u32;
        limit = child_limit;
        proof {
            if consumed < 32 {
                lemma_shift_on(logical, (consumed - bits) as u32, bits);
            }
            search = descended(search, bits, step);
        }
        shifted = shifted << bits;
        done = done + 1;
    }
    evidence.fail(WalkFailureKind::DepthExceeded, Some(table_address), DEPTH_DETAIL);
    evidence
}

/// Whether the protection that a page inherited rejects an access.
#[verifier::allow_in_spec]
pub fn protection_failure(page: ResolvedPage, fc: u8, writing: bool) -> Option<WalkFailureKind>
    returns
        (if fc & 4 == 0 && page.supervisor_only {
            Some(WalkFailureKind::SupervisorOnly)
        } else if writing && page.write_protected {
            Some(WalkFailureKind::WriteProtected)
        } else {
            None
        }),
{
    if fc & 4 == 0 && page.supervisor_only {
        Some(WalkFailureKind::SupervisorOnly)
    } else if writing && page.write_protected {
        Some(WalkFailureKind::WriteProtected)
    } else {
        None
    }
}

/// A search either ends at a page or fails.
pub proof fn lemma_search_outcome<M: WalkMemory>(
    memory: M::State,
    tc: TcReg,
    logical: u32,
    function_code: u8,
    done: nat,
    search: Search,
)
    ensures
        ({
            let walk = searched::<M>(memory, tc, logical, function_code, done, search).0;
            walk.resolved is Some <==> walk.failure is None
        }),
    decreases 5 - done,
{
    let fields = index_fields(tc);
    if done < fields.len() && done < 5 {
        let (source, bits) = fields[done as int];
        let index = descriptor_index(source, bits, search.consumed, logical, function_code);
        let address = entry_address(search, index);
        let (read, after) = descriptor_read::<M>(
            M::selected(memory, address),
            address,
            search.long,
        );
        if let Ok(words) = read {
            let step = decoded(
                (done + 1) as u8,
                source,
                index,
                address,
                search.long,
                words,
                search.limit,
            );
            let next = if step.used {
                after
            } else {
                M::used_marked(after, address, words[0]).1
            };
            lemma_search_outcome::<M>(
                next,
                tc,
                logical,
                function_code,
                done + 1,
                descended(search, bits, step),
            );
        }
    }
}

/// A walk either resolves a page or fails, never both.
pub proof fn law_walk_resolves_or_fails<M: WalkMemory>(
    memory: M::State,
    tc: TcReg,
    root: RootPointerReg,
    logical: u32,
    function_code: u8,
)
    ensures
        ({
            let walk = walked::<M>(memory, tc, root, logical, function_code).0;
            walk.resolved is Some <==> walk.failure is None
        }),
{
    lemma_search_outcome::<M>(memory, tc, logical, function_code, 0, search_start(tc, root));
}

} // verus!
