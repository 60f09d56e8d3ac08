//! Hardware with memory alone, for trying out what surrounds it.

use vstd::prelude::*;

use crate::cpu_m68k::cpu::{HistoryEntry, RegisterFile, M68000, M68020, M68030};
use crate::cpu_m68k::pmmu::inspect::{
    AtcPage, AtcSlot, DescriptorEffect, InspectError, InspectionModel, TranslationInspection,
    TranslationQuery, TranslationRoute,
};
use crate::cpu_m68k::pmmu::regs::{
    PmmuRegs, RegisterPSR, RootPointerReg, TcReg, TrTranslationReg,
};
use crate::floppy::noise::Noise;
use crate::headless::digest::{
    key_index, machine_shaped, member_value, same_evidence, well_keyed,
};
use crate::headless::emulator::{
    frames_model, reset_vector, Action, AtcPageModel, Attached, AttachedModel, Attempt,
    AttemptModel, Blueprint, BlueprintModel, BytesModel, CoreError, CoreErrorModel, EmulatorCore,
    Facts, FloppySource, FramesModel, HitsModel, Offer, RegistersModel, Run, RunModel,
};
use crate::headless::json::{lemma_object_model, members_model, JsonModel, JsonValue};
use crate::headless::media::{FloppyMedium, MediumModel};
use crate::headless::types::{
    times, Breakpoint, BreakpointHit, DebuggableProperty, DriveActivity, Family, MacModel,
    ModelFacts, ModelFactsModel, Register, SccCh, SystrapHistoryEntry,
};
use crate::renderer::channel::{updated, ChannelRenderer, RendererModel};

verus! {

pub const NO_DRIVE: &'static str = "No floppy drive is fitted";

pub const NO_MEMORY: &'static str = "No memory at that address";

/// A board with memory and a clock, but nothing that executes instructions: a step takes time,
/// finishes a frame, and leaves everything else as it was.
pub struct BareBoard {
    pub mac_model: MacModel,
    pub registers: RegisterFile,
    pub cycles: u64,
    pub ram: Vec<u8>,
    pub seconds: u32,
    pub breakpoints: Vec<Breakpoint>,
    pub reset_pc: u32,
}

/// The state of a [`BareBoard`].
#[verifier::ext_equal]
pub ghost struct BoardModel {
    pub mac_model: MacModel,
    pub registers: RegistersModel,
    pub cycles: u64,
    pub ram: Seq<u8>,
    pub seconds: u32,
    pub breakpoints: Seq<Breakpoint>,
    pub reset_pc: u32,
}

/// The name of a model.
#[verifier::allow_in_spec]
pub fn model_name(model: MacModel) -> &'static str
    returns
        (match model {
            MacModel::Early128K => "Macintosh 128K",
            MacModel::Early512K => "Macintosh 512K",
            MacModel::Early512Ke => "Macintosh 512Ke",
            MacModel::Plus => "Macintosh Plus",
            MacModel::SE => "Macintosh SE",
            MacModel::SeFdhd => "Macintosh SE FDHD",
            MacModel::Classic => "Macintosh Classic",
            MacModel::Portable => "Macintosh Portable",
            MacModel::Portable15MB => "Macintosh Portable 15 MB",
            MacModel::MacII => "Macintosh II",
            MacModel::MacIIFDHD => "Macintosh II FDHD",
            MacModel::MacIIx => "Macintosh IIx",
            MacModel::MacIIcx => "Macintosh IIcx",
            MacModel::SE30 => "Macintosh SE/30",
        }),
{
    match model {
        MacModel::Early128K => "Macintosh 128K",
        MacModel::Early512K => "Macintosh 512K",
        MacModel::Early512Ke => "Macintosh 512Ke",
        MacModel::Plus => "Macintosh Plus",
        MacModel::SE => "Macintosh SE",
        MacModel::SeFdhd => "Macintosh SE FDHD",
        MacModel::Classic => "Macintosh Classic",
        MacModel::Portable => "Macintosh Portable",
        MacModel::Portable15MB => "Macintosh Portable 15 MB",
        MacModel::MacII => "Macintosh II",
        MacModel::MacIIFDHD => "Macintosh II FDHD",
        MacModel::MacIIx => "Macintosh IIx",
        MacModel::MacIIcx => "Macintosh IIcx",
        MacModel::SE30 => "Macintosh SE/30",
    }
}

/// The processor of a model.
#[verifier::allow_in_spec]
pub fn model_cpu(model: MacModel) -> usize
    returns
        match model {
            MacModel::MacII => M68020,
            MacModel::MacIIFDHD => M68020,
            MacModel::MacIIx => M68030,
            MacModel::MacIIcx => M68030,
            MacModel::SE30 => M68030,
            _ => M68000,
        },
{
    match model {
        MacModel::MacII => M68020,
        MacModel::MacIIFDHD => M68020,
        MacModel::MacIIx => M68030,
        MacModel::MacIIcx => M68030,
        MacModel::SE30 => M68030,
        _ => M68000,
    }
}

/// The family of a model.
#[verifier::allow_in_spec]
pub fn model_family(model: MacModel) -> Family
    returns
        match model {
            MacModel::Portable => Family::Portable,
            MacModel::Portable15MB => Family::Portable,
            MacModel::MacII => Family::MacII,
            MacModel::MacIIFDHD => Family::MacII,
            MacModel::MacIIx => Family::MacII,
            MacModel::MacIIcx => Family::MacII,
            MacModel::SE30 => Family::MacII,
            _ => Family::Compact,
        },
{
    match model {
        MacModel::Portable => Family::Portable,
        MacModel::Portable15MB => Family::Portable,
        MacModel::MacII => Family::MacII,
        MacModel::MacIIFDHD => Family::MacII,
        MacModel::MacIIx => Family::MacII,
        MacModel::MacIIcx => Family::MacII,
        MacModel::SE30 => Family::MacII,
        _ => Family::Compact,
    }
}

/// Whether a model has a SCSI controller.
#[verifier::allow_in_spec]
pub fn model_scsi(model: MacModel) -> bool
    returns
        !(model == MacModel::Early128K || model == MacModel::Early512K || model
            == MacModel::Early512Ke),
{
    !(model == MacModel::Early128K || model == MacModel::Early512K || model
        == MacModel::Early512Ke)
}

/// Registers that are all clear.
pub open spec fn clear_registers() -> RegistersModel {
    RegistersModel {
        d: seq![0u32, 0, 0, 0, 0, 0, 0, 0],
        a: seq![0u32, 0, 0, 0, 0, 0, 0, 0],
        pc: 0,
        sr: 0,
        tc: TcReg(0),
        crp: RootPointerReg(0),
        srp: RootPointerReg(0),
        tt: seq![TrTranslationReg(0), TrTranslationReg(0)],
        psr: RegisterPSR(0),
        last_desc: 0,
    }
}

/// Make registers that are all clear.
fn new_registers() -> (registers: RegisterFile)
    ensures
        registers@ == clear_registers(),
{
    let registers = RegisterFile {
        d: [0, 0, 0, 0, 0, 0, 0, 0],
        a: [0, 0, 0, 0, 0, 0, 0, 0],
        pc: 0,
        sr: 0,
        pmmu: PmmuRegs {
            tc: TcReg(0),
            crp: RootPointerReg(0),
            srp: RootPointerReg(0),
            tt: [TrTranslationReg(0), TrTranslationReg(0)],
            psr: RegisterPSR(0),
            last_desc: 0,
        },
    };
    assert(registers@ =~= clear_registers());
    registers
}

/// What an access is translated to without an MMU.
pub open spec fn bare_translation(query: TranslationQuery) -> InspectionModel {
    InspectionModel {
        query,
        route: TranslationRoute::NoMmu,
        root: None,
        root_pointer: None,
        transparent_register: None,
        cache_generation: 0,
        page_bits: 0,
        ignored_bits: 0,
        cached: None,
        tables: None,
        cache_matches_tables: None,
        physical_address: Some(query.address),
        bus_address: Some(query.address),
        write_protected: false,
        supervisor_only: false,
        failure: None,
        descriptor_effects: Seq::empty(),
        limitations: Seq::empty(),
    }
}

/// What a snapshot of a board says.
pub open spec fn board_snapshot(board: BoardModel) -> JsonModel {
    let bus = JsonModel::Object(
        seq![
            ("ram"@, JsonModel::Text(board.ram.map_values(|byte: u8| byte as char))),
            ("seconds"@, JsonModel::Number(board.seconds as int)),
        ],
    );
    let cpu = JsonModel::Object(
        seq![
            ("pc"@, JsonModel::Number(board.registers.pc as int)),
            ("cycles"@, JsonModel::Number(board.cycles as int)),
            ("breakpoints"@, JsonModel::Number(board.breakpoints.len() as int)),
            ("bus"@, bus),
        ],
    );
    JsonModel::Object(seq![("Bare"@, cpu)])
}

/// Registers after a debugger has changed one.
pub open spec fn board_registers(
    registers: RegistersModel,
    register: Register,
    value: u32,
) -> RegistersModel {
    match register {
        Register::Dn(n) => if n < registers.d.len() {
            RegistersModel { d: registers.d.update(n as int, value), ..registers }
        } else {
            registers
        },
        Register::An(n) => if n < registers.a.len() {
            RegistersModel { a: registers.a.update(n as int, value), ..registers }
        } else {
            registers
        },
        Register::PC => RegistersModel { pc: value, ..registers },
        _ => registers,
    }
}

/// Where a board with a ROM starts.
pub open spec fn board_vector(rom: Seq<u8>) -> u32 {
    if rom.len() >= 8 {
        reset_vector(rom)
    } else {
        0
    }
}

/// Breakpoints without a certain one.
pub open spec fn cleared(breakpoints: Seq<Breakpoint>, breakpoint: Breakpoint) -> Seq<Breakpoint>
    decreases breakpoints.len(),
{
    if breakpoints.len() == 0 {
        Seq::empty()
    } else if breakpoints.last() == breakpoint {
        cleared(breakpoints.drop_last(), breakpoint)
    } else {
        cleared(breakpoints.drop_last(), breakpoint).push(breakpoints.last())
    }
}

/// Clear a breakpoint.
fn clear_breakpoint(breakpoints: &Vec<Breakpoint>, breakpoint: Breakpoint) -> (rest: Vec<
    Breakpoint,
>)
    ensures
        rest@ == cleared(breakpoints@, breakpoint),
{
    let mut rest: Vec<Breakpoint> = Vec::new();
    let mut i: usize = 0;
    assert(breakpoints@.take(0) =~= Seq::empty());
    while i < breakpoints.len()
        invariant
            i <= breakpoints@.len(),
            rest@ == cleared(breakpoints@.take(i as int), breakpoint),
        decreases breakpoints@.len() - i,
    {
        if breakpoints[i] != breakpoint {
            rest.push(breakpoints[i]);
        }
        i += 1;
        assert(breakpoints@.take(i as int).drop_last() =~= breakpoints@.take(i - 1));
    }
    assert(breakpoints@.take(i as int) =~= breakpoints@);
    rest
}

/// Clearing a breakpoint leaves none of it, and every other one.
proof fn lemma_cleared(breakpoints: Seq<Breakpoint>, breakpoint: Breakpoint, other: Breakpoint)
    ensures
        times(cleared(breakpoints, breakpoint), other) == if other == breakpoint {
            0
        } else {
            times(breakpoints, other)
        },
    decreases breakpoints.len(),
{
    if breakpoints.len() > 0 {
        let shorter = breakpoints.drop_last();
        lemma_cleared(shorter, breakpoint, other);
        if breakpoints.last() != breakpoint {
            assert(cleared(breakpoints, breakpoint).drop_last() =~= cleared(shorter, breakpoint));
        }
    }
}

impl EmulatorCore for BareBoard {
    type Model = BoardModel;

    type Image = ();

    type ImageModel = ();

    open spec fn image_value(image: ()) -> () {
        image
    }

    open spec fn alike(a: BoardModel, b: BoardModel) -> bool {
        a == (BoardModel { breakpoints: a.breakpoints, ..b })
    }

    open spec fn model(&self) -> BoardModel {
        BoardModel {
            mac_model: self.mac_model,
            registers: self.registers@,
            cycles: self.cycles,
            ram: self.ram@,
            seconds: self.seconds,
            breakpoints: self.breakpoints@,
            reset_pc: self.reset_pc,
        }
    }

    open spec fn facts(core: BoardModel) -> Facts {
        let absent = DriveActivity {
            present: false,
            write_protected: false,
            noise_draws: 0,
            media_noise_draws: 0,
            dirty: false,
        };
        Facts {
            registers: core.registers,
            cycles: core.cycles,
            ram: core.ram,
            model: core.mac_model,
            family: model_family(core.mac_model),
            step_over: None,
            history_status: (false, 0, false, 0, 0),
            instruction_history: None,
            systrap_history: None,
            properties: Seq::empty(),
            controller_draws: 0,
            drives: seq![absent, absent, absent],
            breakpoints: core.breakpoints,
            reset_pc: core.reset_pc,
            fresh: true,
        }
    }

    open spec fn model_known(model: MacModel) -> ModelFactsModel {
        ModelFactsModel {
            name: model_name(model)@,
            ram_sizes: seq![0x10_0000, 0x40_0000],
            cpu_type: model_cpu(model),
            fdd_drives: 0,
            fdd_hd: false,
            has_scsi: model_scsi(model),
        }
    }

    open spec fn built(plan: BlueprintModel, renderer: RendererModel) -> (
        Result<BoardModel, CoreErrorModel>,
        RendererModel,
    ) {
        (
            Ok(
                BoardModel {
                    mac_model: plan.model,
                    registers: clear_registers(),
                    cycles: 0,
                    ram: Seq::new(plan.ram_bytes as nat, |i: int| 0),
                    seconds: 0,
                    breakpoints: Seq::empty(),
                    reset_pc: board_vector(plan.rom),
                },
            ),
            renderer,
        )
    }

    open spec fn ran(core: BoardModel, attached: AttachedModel, run: Run) -> RunModel<BoardModel> {
        match run {
            Run::Step => RunModel {
                result: Ok(()),
                core: BoardModel { cycles: core.cycles.wrapping_add(4), ..core },
                attached: AttachedModel { renderer: updated(attached.renderer), ..attached },
            },
            Run::SyncBus => RunModel { result: Ok(()), core, attached },
            Run::SetPc(pc) => if pc < core.ram.len() {
                RunModel {
                    result: Ok(()),
                    core: BoardModel {
                        registers: RegistersModel { pc, ..core.registers },
                        ..core
                    },
                    attached,
                }
            } else {
                RunModel {
                    result: Err(CoreErrorModel { message: NO_MEMORY@ }),
                    core,
                    attached,
                }
            },
            Run::RefillPrefetch => RunModel {
                result: Ok(()),
                core: BoardModel { cycles: core.cycles.wrapping_add(8), ..core },
                attached,
            },
            Run::ResetBus => RunModel {
                result: Ok(()),
                core: BoardModel { cycles: 0, ..core },
                attached,
            },
            Run::ResetCpu => RunModel {
                result: Ok(()),
                core: BoardModel {
                    registers: RegistersModel { pc: core.reset_pc, ..clear_registers() },
                    cycles: core.cycles.wrapping_add(40),
                    ..core
                },
                attached,
            },
        }
    }

    open spec fn acted(core: BoardModel, action: Action) -> BoardModel {
        match action {
            Action::WriteRegister(register, value) => BoardModel {
                registers: board_registers(core.registers, register, value),
                ..core
            },
            Action::ClearBreakpoint(breakpoint) => BoardModel {
                breakpoints: cleared(core.breakpoints, breakpoint),
                ..core
            },
            Action::SetBreakpoint(breakpoint) => BoardModel {
                breakpoints: core.breakpoints.push(breakpoint),
                ..core
            },
            _ => core,
        }
    }

    open spec fn attempted(core: BoardModel, attempt: AttemptModel) -> (
        Result<(), CoreErrorModel>,
        BoardModel,
    ) {
        match attempt {
            AttemptModel::InitializeRtc { seconds, pram } => (
                Ok(()),
                BoardModel { seconds, ..core },
            ),
            _ => (Ok(()), core),
        }
    }

    open spec fn offered(core: BoardModel, offer: Offer) -> (bool, BoardModel) {
        match offer {
            Offer::MouseAbsolute { .. } => (false, core),
            Offer::WriteRam { address, value } => if address < core.ram.len() {
                (true, BoardModel { ram: core.ram.update(address as int, value), ..core })
            } else {
                (false, core)
            },
            Offer::WriteMemory { address, value } => if address < core.ram.len() {
                (true, BoardModel { ram: core.ram.update(address as int, value), ..core })
            } else {
                (false, core)
            },
        }
    }

    open spec fn received(
        core: BoardModel,
        channel: SccCh,
        data: BytesModel,
        frame: bool,
    ) -> BoardModel {
        core
    }

    open spec fn receiver_ready(core: BoardModel, channel: SccCh) -> bool {
        false
    }

    open spec fn sent(core: BoardModel, channel: SccCh) -> (BytesModel, BoardModel) {
        (BytesModel { bytes: Seq::empty() }, core)
    }

    open spec fn frames_sent(core: BoardModel, channel: SccCh) -> (FramesModel, BoardModel) {
        (FramesModel { frames: Seq::empty() }, core)
    }

    open spec fn hits_taken(core: BoardModel) -> (HitsModel, BoardModel) {
        (HitsModel { hits: Seq::empty(), dropped: 0 }, core)
    }

    open spec fn byte_at(core: BoardModel, address: u32) -> Option<u8> {
        if address < core.ram.len() {
            Some(core.ram[address as int])
        } else {
            None
        }
    }

    open spec fn ram_offset(core: BoardModel, address: u32) -> Option<u32> {
        if address < core.ram.len() {
            Some(address)
        } else {
            None
        }
    }

    open spec fn translation(core: BoardModel, query: TranslationQuery) -> Result<
        InspectionModel,
        InspectError,
    > {
        if query.function_code > 7 {
            Err(InspectError::FunctionCode)
        } else {
            Ok(bare_translation(query))
        }
    }

    open spec fn atc_page(
        core: BoardModel,
        start: usize,
        scan_limit: usize,
        entry_limit: usize,
    ) -> Result<AtcPageModel, InspectError> {
        if !(1 <= scan_limit <= 65536) {
            Err(InspectError::ScanLimit)
        } else if !(1 <= entry_limit <= 4096) {
            Err(InspectError::EntryLimit)
        } else if start > 0 {
            Err(InspectError::Cursor)
        } else {
            Ok(
                AtcPageModel {
                    generation: 0,
                    tc: 0,
                    cpu_slots: 0,
                    supervisor_slots: 0,
                    start: 0,
                    scanned: 0,
                    next: None,
                    entries: Seq::empty(),
                },
            )
        }
    }

    open spec fn floppy_loaded(source: FloppySource) -> Result<MediumModel<()>, CoreErrorModel> {
        Ok(MediumModel { image: (), dirty: false, force_wp: false })
    }

    open spec fn floppy_inserted(core: BoardModel, drive: usize, medium: MediumModel<()>) -> (
        Result<(), CoreErrorModel>,
        BoardModel,
    ) {
        (Err(CoreErrorModel { message: NO_DRIVE@ }), core)
    }

    open spec fn floppy_saved(core: BoardModel, drive: usize) -> Result<
        BytesModel,
        CoreErrorModel,
    > {
        Err(CoreErrorModel { message: NO_DRIVE@ })
    }

    open spec fn snapshot_taken(core: BoardModel) -> Result<JsonModel, CoreErrorModel> {
        Ok(board_snapshot(core))
    }

    proof fn built_to_plan(plan: BlueprintModel, renderer: RendererModel) {
    }

    proof fn build_is_fixed(core: BoardModel) {
    }

    proof fn reset_restarts(core: BoardModel, attached: AttachedModel) {
    }

    proof fn jump_goes_there(core: BoardModel, attached: AttachedModel, pc: u32) {
    }

    proof fn written_register_holds(core: BoardModel, register: Register, value: u32) {
    }

    proof fn offers_are_taken_or_left(core: BoardModel, offer: Offer) {
    }

    proof fn breakpoints_are_kept(core: BoardModel, breakpoint: Breakpoint) {
        let before = core.breakpoints;
        assert(before.push(breakpoint).drop_last() =~= before);
        lemma_cleared(before, breakpoint, breakpoint);
        assert forall|other: Breakpoint| other != breakpoint implies #[trigger] times(
            cleared(before, breakpoint),
            other,
        ) == times(before, other) by {
            lemma_cleared(before, breakpoint, other);
        }
    }

    proof fn policy_leaves_alike(core: BoardModel, other: BoardModel) {
    }

    proof fn alike_runs(a: BoardModel, b: BoardModel, attached: AttachedModel, run: Run) {
    }

    proof fn alike_looks(a: BoardModel, b: BoardModel) {
        lemma_alike_snapshots(a, b);
    }

    proof fn alike_floppies(a: BoardModel, b: BoardModel, drive: usize, medium: MediumModel<()>) {
    }

    proof fn inserted_as_it_came(core: BoardModel, drive: usize, medium: MediumModel<()>) {
    }

    proof fn detaching_frees_the_id(core: BoardModel, id: usize, image: BytesModel) {
    }

    fn known_model(model: MacModel) -> (facts: ModelFacts) {
        let facts = ModelFacts {
            name: model_name(model).to_owned(),
            ram_sizes: vec![0x10_0000, 0x40_0000],
            cpu_type: model_cpu(model),
            fdd_drives: 0,
            fdd_hd: false,
            has_scsi: model_scsi(model),
        };
        assert(facts@ =~= Self::model_known(model));
        facts
    }

    fn build(plan: Blueprint<'_>, renderer: &mut ChannelRenderer) -> (result: Result<
        Self,
        CoreError,
    >) {
        let mut ram: Vec<u8> = Vec::new();
        ram.resize(plan.ram_bytes, 0);
        assert(ram@ =~= Seq::new(plan.ram_bytes as nat, |i: int| 0u8));
        let reset_pc: u32 = if plan.rom.len() >= 8 {
            plan.rom[4] as u32 * 0x100_0000 + plan.rom[5] as u32 * 0x1_0000 + plan.rom[6] as u32
                * 0x100 + plan.rom[7] as u32
        } else {
            0
        };
        Ok(
            BareBoard {
                mac_model: plan.model,
                registers: new_registers(),
                cycles: 0,
                ram,
                seconds: 0,
                breakpoints: Vec::new(),
                reset_pc,
            },
        )
    }

    fn run(&mut self, attached: &mut Attached, run: Run) -> (result: Result<(), CoreError>) {
        match run {
            Run::Step => {
                self.cycles = self.cycles.wrapping_add(4);
                attached.renderer.update();
            },
            Run::SyncBus => {},
            Run::SetPc(pc) => {
                if pc as usize >= self.ram.len() {
                    return Err(CoreError { message: NO_MEMORY.to_owned() });
                }
                self.registers.pc = pc;
            },
            Run::RefillPrefetch => {
                self.cycles = self.cycles.wrapping_add(8);
            },
            Run::ResetBus => {
                self.cycles = 0;
            },
            Run::ResetCpu => {
                self.registers = new_registers();
                self.registers.pc = self.reset_pc;
                self.cycles = self.cycles.wrapping_add(40);
            },
        }
        Ok(())
    }

    fn act(&mut self, action: Action) {
        match action {
            Action::WriteRegister(register, value) => match register {
                Register::Dn(n) => {
                    if n < 8 {
                        self.registers.d[n] = value;
                    }
                },
                Register::An(n) => {
                    if n < 8 {
                        self.registers.a[n] = value;
                    }
                },
                Register::PC => {
                    self.registers.pc = value;
                },
                _ => {},
            },
            Action::ClearBreakpoint(breakpoint) => {
                self.breakpoints = clear_breakpoint(&self.breakpoints, breakpoint);
            },
            Action::SetBreakpoint(breakpoint) => {
                self.breakpoints.push(breakpoint);
            },
            _ => {},
        }
    }

    fn attempt(&mut self, attempt: Attempt<'_>) -> (result: Result<(), CoreError>) {
        match attempt {
            Attempt::InitializeRtc { seconds, pram: _ } => {
                self.seconds = seconds;
                Ok(())
            },
            _ => Ok(()),
        }
    }

    fn offer(&mut self, offer: Offer) -> (done: bool) {
        match offer {
            Offer::MouseAbsolute { .. } => false,
            Offer::WriteRam { address, value } => {
                if (address as usize) < self.ram.len() {
                    self.ram.set(address as usize, value);
                    true
                } else {
                    false
                }
            },
            Offer::WriteMemory { address, value } => {
                if (address as usize) < self.ram.len() {
                    self.ram.set(address as usize, value);
                    true
                } else {
                    false
                }
            },
        }
    }

    fn receive(&mut self, channel: SccCh, data: &[u8], frame: bool) {
    }

    fn is_receiver_ready(&self, channel: SccCh) -> (ready: bool) {
        false
    }

    fn take_sent(&mut self, channel: SccCh) -> (bytes: Vec<u8>) {
        Vec::new()
    }

    fn take_frames_sent(&mut self, channel: SccCh) -> (frames: Vec<Vec<u8>>) {
        let frames: Vec<Vec<u8>> = Vec::new();
        assert(frames_model(frames@).frames =~= Seq::empty());
        frames
    }

    fn take_hits(&mut self) -> (hits: (Vec<BreakpointHit>, u64)) {
        (Vec::new(), 0)
    }

    fn registers(&self) -> (registers: &RegisterFile) {
        &self.registers
    }

    fn cycles(&self) -> (cycles: u64) {
        self.cycles
    }

    fn ram(&self) -> (ram: &[u8]) {
        self.ram.as_slice()
    }

    fn mac_model(&self) -> (model: MacModel) {
        self.mac_model
    }

    fn family(&self) -> (family: Family) {
        model_family(self.mac_model)
    }

    fn inspect_byte(&self, address: u32) -> (byte: Option<u8>) {
        if (address as usize) < self.ram.len() {
            Some(self.ram[address as usize])
        } else {
            None
        }
    }

    fn find_in_ram(&self, address: u32) -> (offset: Option<u32>) {
        if (address as usize) < self.ram.len() {
            Some(address)
        } else {
            None
        }
    }

    fn inspect_translation(&self, query: TranslationQuery) -> (result: Result<
        TranslationInspection,
        InspectError,
    >) {
        if query.function_code > 7 {
            return Err(InspectError::FunctionCode);
        }
        let effects: Vec<DescriptorEffect> = Vec::new();
        let limitations: Vec<String> = Vec::new();
        let inspection = TranslationInspection {
            query,
            route: TranslationRoute::NoMmu,
            root: None,
            root_pointer: None,
            transparent_register: None,
            cache_generation: 0,
            page_bits: 0,
            ignored_bits: 0,
            cached: None,
            tables: None,
            cache_matches_tables: None,
            physical_address: Some(query.address),
            bus_address: Some(query.address),
            write_protected: false,
            supervisor_only: false,
            failure: None,
            descriptor_effects: effects,
            limitations,
        };
        assert(inspection@.limitations =~= Seq::empty());
        Ok(inspection)
    }

    fn inspect_atc(&self, start: usize, scan_limit: usize, entry_limit: usize) -> (result: Result<
        AtcPage,
        InspectError,
    >) {
        if !(1 <= scan_limit && scan_limit <= 65536) {
            return Err(InspectError::ScanLimit);
        }
        if !(1 <= entry_limit && entry_limit <= 4096) {
            return Err(InspectError::EntryLimit);
        }
        if start > 0 {
            return Err(InspectError::Cursor);
        }
        let entries: Vec<AtcSlot> = Vec::new();
        Ok(
            AtcPage {
                generation: 0,
                tc: 0,
                table_sizes: [0, 0],
                start: 0,
                scanned: 0,
                next: None,
                entries,
            },
        )
    }

    fn step_over(&self) -> (target: Option<u32>) {
        None
    }

    fn history_status(&self) -> (status: (bool, u64, bool, u64, usize)) {
        (false, 0, false, 0, 0)
    }

    fn instruction_history(&self) -> (history: Option<&[HistoryEntry]>) {
        None
    }

    fn systrap_history(&self) -> (history: Option<&[SystrapHistoryEntry]>) {
        None
    }

    fn properties(&self) -> (properties: &[DebuggableProperty]) {
        let properties: &[DebuggableProperty] = &[];
        assert(properties@ =~= Seq::empty());
        properties
    }

    fn controller_draws(&self) -> (draws: u64) {
        0
    }

    fn drive(&self, drive: usize) -> (activity: DriveActivity) {
        DriveActivity {
            present: false,
            write_protected: false,
            noise_draws: 0,
            media_noise_draws: 0,
            dirty: false,
        }
    }

    fn load_floppy(image: &[u8], name: &str, noise: Noise) -> (result: Result<
        FloppyMedium<()>,
        CoreError,
    >) {
        Ok(FloppyMedium { image: (), dirty: false, force_wp: false })
    }

    fn insert_floppy(&mut self, drive: usize, medium: FloppyMedium<()>) -> (result: Result<
        (),
        CoreError,
    >) {
        Err(CoreError { message: NO_DRIVE.to_owned() })
    }

    fn save_floppy(&self, drive: usize) -> (result: Result<Vec<u8>, CoreError>) {
        Err(CoreError { message: NO_DRIVE.to_owned() })
    }

    fn snapshot(&self) -> (result: Result<JsonValue, CoreError>) {
        let mut text = String::new();
        let mut i: usize = 0;
        while i < self.ram.len()
            invariant
                i <= self.ram@.len(),
                text@ == self.ram@.take(i as int).map_values(|byte: u8| byte as char),
            decreases self.ram@.len() - i,
        {
            text.push(self.ram[i] as char);
            i += 1;
            assert(self.ram@.take(i as int) =~= self.ram@.take(i - 1).push(self.ram@[i - 1]));
            assert(text@ =~= self.ram@.take(i as int).map_values(|byte: u8| byte as char));
        }
        assert(self.ram@.take(i as int) =~= self.ram@);
        let mut bus: Vec<(String, JsonValue)> = Vec::new();
        bus.push(("ram".to_owned(), JsonValue::Text(text)));
        bus.push(("seconds".to_owned(), JsonValue::Unsigned(self.seconds as u64)));
        let mut cpu: Vec<(String, JsonValue)> = Vec::new();
        cpu.push(("pc".to_owned(), JsonValue::Unsigned(self.registers.pc as u64)));
        cpu.push(("cycles".to_owned(), JsonValue::Unsigned(self.cycles)));
        cpu.push(
            ("breakpoints".to_owned(), JsonValue::Unsigned(self.breakpoints.len() as u64)),
        );
        let ghost bus_model = board_snapshot(self.model())->Object_0[0].1->Object_0[3].1;
        proof {
            lemma_object_model(bus);
            assert(members_model(bus@) =~= bus_model->Object_0);
        }
        cpu.push(("bus".to_owned(), JsonValue::Object(bus)));
        let ghost cpu_model = board_snapshot(self.model())->Object_0[0].1;
        proof {
            lemma_object_model(cpu);
            assert(members_model(cpu@) =~= cpu_model->Object_0);
        }
        let mut variants: Vec<(String, JsonValue)> = Vec::new();
        variants.push(("Bare".to_owned(), JsonValue::Object(cpu)));
        proof {
            lemma_object_model(variants);
            assert(members_model(variants@) =~= board_snapshot(self.model())->Object_0);
            lemma_board_snapshot(self.model());
        }
        Ok(JsonValue::Object(variants))
    }
}

/// A snapshot of a board has the shape of a machine's.
proof fn lemma_board_snapshot(board: BoardModel)
    ensures
        machine_shaped(board_snapshot(board)),
        well_keyed(board_snapshot(board)),
{
    reveal_strlit("ram");
    reveal_strlit("seconds");
    reveal_strlit("pc");
    reveal_strlit("cycles");
    reveal_strlit("breakpoints");
    reveal_strlit("bus");
    let snapshot = board_snapshot(board);
    let cpu = snapshot->Object_0[0].1;
    let bus = cpu->Object_0[3].1;
    assert("ram"@.len() != "seconds"@.len());
    assert("pc"@.len() == 2 && "cycles"@.len() == 6 && "breakpoints"@.len() == 11 && "bus"@.len()
        == 3);
    assert(well_keyed(bus->Object_0[0].1) && well_keyed(bus->Object_0[1].1));
    assert(well_keyed(bus));
    assert(well_keyed(cpu->Object_0[0].1) && well_keyed(cpu->Object_0[1].1) && well_keyed(
        cpu->Object_0[2].1,
    ));
    assert(well_keyed(cpu));
    assert(well_keyed(snapshot));
    assert(key_index(cpu->Object_0, "bus"@) == Some(3int));
}

/// Snapshots of boards that differ in their breakpoints alone agree on everything else.
proof fn lemma_alike_snapshots(a: BoardModel, b: BoardModel)
    requires
        a == (BoardModel { breakpoints: a.breakpoints, ..b }),
    ensures
        same_evidence(board_snapshot(a), board_snapshot(b)),
{
    lemma_board_snapshot(a);
    lemma_board_snapshot(b);
    let x = board_snapshot(a)->Object_0[0].1->Object_0;
    let y = board_snapshot(b)->Object_0[0].1->Object_0;
    reveal_with_fuel(key_index, 5);
    assert forall|key: Seq<char>| key != "breakpoints"@ implies #[trigger] member_value(x, key)
        == member_value(y, key) by {
        assert(x.drop_last().drop_last() =~= y.drop_last().drop_last());
    }
}

} // verus!
