//! What a machine asks of the emulated hardware.

use vstd::prelude::*;

use crate::cpu_m68k::cpu::{HistoryEntry, RegisterFile};
use crate::cpu_m68k::pmmu::inspect::{
    AtcPage, AtcSlot, InspectError, InspectionModel, TranslationInspection, TranslationQuery,
};
use crate::cpu_m68k::pmmu::regs::{RegisterPSR, RootPointerReg, TcReg, TrTranslationReg};
use crate::floppy::noise::{Noise, NoiseModel};
use crate::headless::digest::{machine_shaped, same_evidence, well_keyed};
use crate::headless::json::{JsonModel, JsonValue};
use crate::headless::media::{
    media_model, same_shape, FloppyMedium, Media, MediumModel, MemoryDisk,
};
use crate::headless::types::{
    extra_rom_models, times, Breakpoint, BreakpointHit, DebuggableProperty, DriveActivity,
    ExtraROMs, ExtraRomModel, Family, KeyEvent, MacModel, ModelFacts, ModelFactsModel, MouseMode,
    Register, SccCh, SystrapHistoryEntry, MAX_BREAKPOINT_HITS,
};
use crate::renderer::channel::{ChannelRenderer, RendererModel};

verus! {

/// Why the hardware did not do what it was asked.
#[derive(Debug, PartialEq, Eq)]
pub struct CoreError {
    pub message: String,
}

/// The value of a [`CoreError`].
#[verifier::ext_equal]
pub ghost struct CoreErrorModel {
    pub message: Seq<char>,
}

impl View for CoreError {
    type V = CoreErrorModel;

    open spec fn view(&self) -> CoreErrorModel {
        CoreErrorModel { message: self.message@ }
    }
}

/// The outcome of a request.
pub open spec fn core_outcome<T>(result: Result<T, CoreError>) -> Result<T, CoreErrorModel> {
    match result {
        Ok(value) => Ok(value),
        Err(error) => Err(error@),
    }
}

/// What the hardware works on together with its owner: the block images and the renderer.
#[derive(Debug)]
pub struct Attached {
    pub media: Media,
    pub renderer: ChannelRenderer,
}

/// The value of [`Attached`].
#[verifier::ext_equal]
pub ghost struct AttachedModel {
    pub media: Seq<(usize, Seq<u8>)>,
    pub renderer: RendererModel,
}

impl View for Attached {
    type V = AttachedModel;

    open spec fn view(&self) -> AttachedModel {
        AttachedModel { media: media_model(self.media@), renderer: self.renderer@ }
    }
}

/// Something that lets the guest run.
#[derive(Debug, Clone, Copy, PartialEq, Eq, Structural)]
pub enum Run {
    /// One CPU instruction.
    Step,
    /// Bring the device clocks up to the processor's.
    SyncBus,
    /// Go on at another address.
    SetPc(u32),
    /// Fill the prefetch queue again.
    RefillPrefetch,
    /// Reset the devices.
    ResetBus,
    /// Reset the processor.
    ResetCpu,
}

/// What running the guest gives.
pub ghost struct RunModel<M> {
    pub result: Result<(), CoreErrorModel>,
    pub core: M,
    pub attached: AttachedModel,
}

/// Something that is done without fail.
#[derive(Debug, Clone, Copy, PartialEq, Eq, Structural)]
pub enum Action {
    Keyboard(KeyEvent),
    MouseRelative { x: i16, y: i16, button: Option<bool> },
    ClearBreakpoint(Breakpoint),
    SetBreakpoint(Breakpoint),
    ClearBreakpointHit,
    EnableHistory(bool),
    EnableSystrapHistory(bool),
    WriteRegister(Register, u32),
    ReleaseInputs,
    ProgrammerKey,
    SetMouseMode(MouseMode),
    SetBusFrequency(u64),
    /// Run as fast as the host can.
    Uncap,
    /// Fit a floppy controller whose noise comes from a seed.
    FitSwim { drives: usize, high_density: bool, frequency: u64, seed: u64 },
    EjectFloppy(usize),
    SetFloppyRpm(usize, i32),
    DetachScsi(usize),
    /// Attach a CD-ROM drive without a disc.
    AttachCdrom(usize),
    SetDcd(SccCh, bool),
    ShowFramebuffers(bool),
}

/// Something that can be refused.
pub enum Attempt<'a> {
    InitializeRtc { seconds: u32, pram: &'a [u8] },
    InitializePowerClock { seconds: u32, pram: &'a [u8] },
    AttachDisk { id: usize, disk: &'a MemoryDisk },
    InsertDisc { id: usize, disk: &'a MemoryDisk },
}

/// The value of an [`Attempt`].
#[verifier::ext_equal]
pub ghost enum AttemptModel {
    InitializeRtc { seconds: u32, pram: Seq<u8> },
    InitializePowerClock { seconds: u32, pram: Seq<u8> },
    AttachDisk { id: usize, image: Seq<u8> },
    InsertDisc { id: usize, image: Seq<u8> },
}

impl<'a> View for Attempt<'a> {
    type V = AttemptModel;

    open spec fn view(&self) -> AttemptModel {
        match *self {
            Attempt::InitializeRtc { seconds, pram } => AttemptModel::InitializeRtc {
                seconds,
                pram: pram@,
            },
            Attempt::InitializePowerClock { seconds, pram } => AttemptModel::InitializePowerClock {
                seconds,
                pram: pram@,
            },
            Attempt::AttachDisk { id, disk } => AttemptModel::AttachDisk { id, image: disk@ },
            Attempt::InsertDisc { id, disk } => AttemptModel::InsertDisc { id, image: disk@ },
        }
    }
}

/// What a floppy image is loaded from.
#[verifier::ext_equal]
pub ghost struct FloppySource {
    pub image: Seq<u8>,
    pub name: Seq<char>,
    pub noise: NoiseModel,
}

/// Something that the guest can take or leave.
#[derive(Debug, Clone, Copy, PartialEq, Eq, Structural)]
pub enum Offer {
    /// Move the mouse to a place. Without initialized mouse globals it stays.
    MouseAbsolute { x: u16, y: u16 },
    /// Write a byte of backing RAM. Without RAM there nothing happens.
    WriteRam { address: u32, value: u8 },
    /// Write a byte of inspected memory. Where inspection cannot write nothing happens.
    WriteMemory { address: u32, value: u8 },
}

/// Bytes.
#[verifier::ext_equal]
pub ghost struct BytesModel {
    pub bytes: Seq<u8>,
}

/// Serial frames.
#[verifier::ext_equal]
pub ghost struct FramesModel {
    pub frames: Seq<Seq<u8>>,
}

/// Breakpoints that were met, and how many more were dropped.
#[verifier::ext_equal]
pub ghost struct HitsModel {
    pub hits: Seq<BreakpointHit>,
    pub dropped: u64,
}

/// The value of an [`AtcPage`].
#[verifier::ext_equal]
pub ghost struct AtcPageModel {
    pub generation: u32,
    pub tc: u32,
    pub cpu_slots: usize,
    pub supervisor_slots: usize,
    pub start: usize,
    pub scanned: usize,
    pub next: Option<usize>,
    pub entries: Seq<AtcSlot>,
}

impl View for AtcPage {
    type V = AtcPageModel;

    open spec fn view(&self) -> AtcPageModel {
        AtcPageModel {
            generation: self.generation,
            tc: self.tc,
            cpu_slots: self.table_sizes@[0],
            supervisor_slots: self.table_sizes@[1],
            start: self.start,
            scanned: self.scanned,
            next: self.next,
            entries: self.entries@,
        }
    }
}

/// What to build.
pub struct Blueprint<'a> {
    pub rom: &'a [u8],
    pub extra_roms: &'a [ExtraROMs<'a>],
    pub model: MacModel,
    pub mouse: MouseMode,
    pub ram_bytes: usize,
    pub pmmu: bool,
}

/// The value of a [`Blueprint`].
#[verifier::ext_equal]
pub ghost struct BlueprintModel {
    pub rom: Seq<u8>,
    pub extra_roms: Seq<ExtraRomModel>,
    pub model: MacModel,
    pub mouse: MouseMode,
    pub ram_bytes: usize,
    pub pmmu: bool,
}

impl<'a> View for Blueprint<'a> {
    type V = BlueprintModel;

    open spec fn view(&self) -> BlueprintModel {
        BlueprintModel {
            rom: self.rom@,
            extra_roms: extra_rom_models(self.extra_roms@),
            model: self.model,
            mouse: self.mouse,
            ram_bytes: self.ram_bytes,
            pmmu: self.pmmu,
        }
    }
}

/// The value of a [`RegisterFile`].
#[verifier::ext_equal]
pub ghost struct RegistersModel {
    pub d: Seq<u32>,
    pub a: Seq<u32>,
    pub pc: u32,
    pub sr: u16,
    pub tc: TcReg,
    pub crp: RootPointerReg,
    pub srp: RootPointerReg,
    pub tt: Seq<TrTranslationReg>,
    pub psr: RegisterPSR,
    pub last_desc: u32,
}

impl View for RegisterFile {
    type V = RegistersModel;

    open spec fn view(&self) -> RegistersModel {
        RegistersModel {
            d: self.d@,
            a: self.a@,
            pc: self.pc,
            sr: self.sr,
            tc: self.pmmu.tc,
            crp: self.pmmu.crp,
            srp: self.pmmu.srp,
            tt: self.pmmu.tt@,
            psr: self.pmmu.psr,
            last_desc: self.pmmu.last_desc,
        }
    }
}

/// What a data or address register, or the program counter, holds.
pub open spec fn register_value(registers: RegistersModel, register: Register) -> Option<u32> {
    match register {
        Register::Dn(n) => if n < registers.d.len() {
            Some(registers.d[n as int])
        } else {
            None
        },
        Register::An(n) => if n < registers.a.len() {
            Some(registers.a[n as int])
        } else {
            None
        },
        Register::PC => Some(registers.pc),
        _ => None,
    }
}

/// Where a processor starts after a reset, by its ROM.
pub open spec fn reset_vector(rom: Seq<u8>) -> u32 {
    (rom[4] * 0x100_0000 + rom[5] * 0x1_0000 + rom[6] * 0x100 + rom[7]) as u32
}

/// What can be seen of the hardware at any time.
pub ghost struct Facts {
    pub registers: RegistersModel,
    pub cycles: u64,
    pub ram: Seq<u8>,
    pub model: MacModel,
    pub family: Family,
    pub step_over: Option<u32>,
    pub history_status: (bool, u64, bool, u64, usize),
    pub instruction_history: Option<Seq<HistoryEntry>>,
    pub systrap_history: Option<Seq<SystrapHistoryEntry>>,
    pub properties: Seq<DebuggableProperty>,
    pub controller_draws: u64,
    pub drives: Seq<DriveActivity>,
    pub breakpoints: Seq<Breakpoint>,
    /// Where the processor starts after a reset.
    pub reset_pc: u32,
    /// Whether the guest has not run since the hardware was built.
    pub fresh: bool,
}

/// Whether two states can be of the same hardware: what was built does not change.
pub open spec fn same_build(a: Facts, b: Facts) -> bool {
    &&& a.model == b.model
    &&& a.family == b.family
    &&& a.ram.len() == b.ram.len()
    &&& a.reset_pc == b.reset_pc
}

/// Whether a state can follow another of the same hardware while the guest does not run.
pub open spec fn same_rest(a: Facts, b: Facts) -> bool {
    &&& same_build(a, b)
    &&& a.fresh ==> b.fresh
}

/// Whether an action changes the debugger's policy alone.
pub open spec fn debugger_policy(action: Action) -> bool {
    match action {
        Action::ClearBreakpoint(_) => true,
        Action::SetBreakpoint(_) => true,
        Action::ClearBreakpointHit => true,
        Action::EnableHistory(_) => true,
        Action::EnableSystrapHistory(_) => true,
        _ => false,
    }
}

/// Whether two snapshots differ in the debugger's policy alone, or both fail for one reason.
pub open spec fn snapshots_agree(
    a: Result<JsonModel, CoreErrorModel>,
    b: Result<JsonModel, CoreErrorModel>,
) -> bool {
    match (a, b) {
        (Ok(x), Ok(y)) => same_evidence(x, y),
        (Err(x), Err(y)) => x == y,
        _ => false,
    }
}

/// The emulated hardware: processor, bus and devices. Whatever it does depends on its state and
/// on what it is asked alone. The proof functions are what an implementation owes besides: what
/// was built stays, a reset starts over, edits are there afterwards, what is refused changes
/// nothing, and the debugger's policy does not reach the guest.
pub trait EmulatorCore: Sized {
    /// The hardware's state.
    type Model;

    /// A loaded floppy image.
    type Image;

    /// The value of a loaded floppy image.
    type ImageModel;

    spec fn model(&self) -> Self::Model;

    spec fn image_value(image: Self::Image) -> Self::ImageModel;

    /// Whether two states differ in the debugger's policy alone.
    spec fn alike(a: Self::Model, b: Self::Model) -> bool;

    spec fn facts(core: Self::Model) -> Facts;

    spec fn model_known(model: MacModel) -> ModelFactsModel;

    spec fn built(plan: BlueprintModel, renderer: RendererModel) -> (
        Result<Self::Model, CoreErrorModel>,
        RendererModel,
    );

    spec fn ran(core: Self::Model, attached: AttachedModel, run: Run) -> RunModel<Self::Model>;

    spec fn acted(core: Self::Model, action: Action) -> Self::Model;

    spec fn attempted(core: Self::Model, attempt: AttemptModel) -> (
        Result<(), CoreErrorModel>,
        Self::Model,
    );

    spec fn offered(core: Self::Model, offer: Offer) -> (bool, Self::Model);

    spec fn received(
        core: Self::Model,
        channel: SccCh,
        data: BytesModel,
        frame: bool,
    ) -> Self::Model;

    spec fn receiver_ready(core: Self::Model, channel: SccCh) -> bool;

    spec fn sent(core: Self::Model, channel: SccCh) -> (BytesModel, Self::Model);

    spec fn frames_sent(core: Self::Model, channel: SccCh) -> (FramesModel, Self::Model);

    spec fn hits_taken(core: Self::Model) -> (HitsModel, Self::Model);

    spec fn byte_at(core: Self::Model, address: u32) -> Option<u8>;

    spec fn ram_offset(core: Self::Model, address: u32) -> Option<u32>;

    spec fn translation(core: Self::Model, query: TranslationQuery) -> Result<
        InspectionModel,
        InspectError,
    >;

    spec fn atc_page(
        core: Self::Model,
        start: usize,
        scan_limit: usize,
        entry_limit: usize,
    ) -> Result<AtcPageModel, InspectError>;

    spec fn floppy_loaded(source: FloppySource) -> Result<
        MediumModel<Self::ImageModel>,
        CoreErrorModel,
    >;

    spec fn floppy_inserted(
        core: Self::Model,
        drive: usize,
        medium: MediumModel<Self::ImageModel>,
    ) -> (Result<(), CoreErrorModel>, Self::Model);

    spec fn floppy_saved(core: Self::Model, drive: usize) -> Result<BytesModel, CoreErrorModel>;

    spec fn snapshot_taken(core: Self::Model) -> Result<JsonModel, CoreErrorModel>;

    /// New hardware is the model that was asked for, with RAM of the size that was asked for. It
    /// starts where its ROM says, except on the one model whose ROM is patched.
    proof fn built_to_plan(plan: BlueprintModel, renderer: RendererModel)
        ensures
            Self::built(plan, renderer).0 matches Ok(core) ==> {
                &&& Self::facts(core).model == plan.model
                &&& Self::facts(core).ram.len() == plan.ram_bytes
                &&& Self::facts(core).fresh
                &&& plan.rom.len() >= 8 && !(plan.model is Portable15MB) ==> Self::facts(
                    core,
                ).reset_pc == reset_vector(plan.rom)
            },
    ;

    /// Nothing that is done to hardware changes what was built, and the guest does not run unless
    /// it is let run.
    proof fn build_is_fixed(core: Self::Model)
        ensures
            forall|attached: AttachedModel, run: Run|
                same_build(
                    Self::facts(core),
                    Self::facts((#[trigger] Self::ran(core, attached, run)).core),
                ),
            forall|action: Action|
                same_rest(Self::facts(core), Self::facts(#[trigger] Self::acted(core, action))),
            forall|attempt: AttemptModel|
                same_rest(
                    Self::facts(core),
                    Self::facts((#[trigger] Self::attempted(core, attempt)).1),
                ),
            forall|drive: usize, medium: MediumModel<Self::ImageModel>|
                same_rest(
                    Self::facts(core),
                    Self::facts((#[trigger] Self::floppy_inserted(core, drive, medium)).1),
                ),
            forall|offer: Offer|
                same_build(
                    Self::facts(core),
                    Self::facts((#[trigger] Self::offered(core, offer)).1),
                ),
            forall|channel: SccCh, data: BytesModel, frame: bool|
                same_build(
                    Self::facts(core),
                    Self::facts(#[trigger] Self::received(core, channel, data, frame)),
                ),
            forall|channel: SccCh|
                same_build(Self::facts(core), Self::facts((#[trigger] Self::sent(core, channel)).1)),
            forall|channel: SccCh|
                same_build(
                    Self::facts(core),
                    Self::facts((#[trigger] Self::frames_sent(core, channel)).1),
                ),
            same_build(Self::facts(core), Self::facts(Self::hits_taken(core).1)),
    ;

    /// A reset that succeeds takes time, starts the processor where it starts after a reset, and
    /// leaves the images as they were. The first reset of new hardware does not need that of the
    /// devices.
    proof fn reset_restarts(core: Self::Model, attached: AttachedModel)
        ensures
            ({
                let bus = Self::ran(core, attached, Run::ResetBus);
                let cpu = Self::ran(bus.core, bus.attached, Run::ResetCpu);
                let synced = Self::ran(cpu.core, cpu.attached, Run::SyncBus);
                bus.result is Ok && cpu.result is Ok && synced.result is Ok ==> {
                    &&& Self::facts(synced.core).cycles > 0
                    &&& Self::facts(synced.core).registers.pc == Self::facts(core).reset_pc
                    &&& synced.attached.media == attached.media
                }
            }),
            ({
                let cpu = Self::ran(core, attached, Run::ResetCpu);
                let synced = Self::ran(cpu.core, cpu.attached, Run::SyncBus);
                Self::facts(core).fresh && cpu.result is Ok && synced.result is Ok ==> Self::facts(
                    synced.core,
                ).registers.pc == Self::facts(core).reset_pc
            }),
    ;

    /// Going on at another address sets the program counter. Filling the prefetch queue again takes
    /// time, as far as the counter can count it.
    proof fn jump_goes_there(core: Self::Model, attached: AttachedModel, pc: u32)
        ensures
            ({
                let set = Self::ran(core, attached, Run::SetPc(pc));
                let filled = Self::ran(set.core, set.attached, Run::RefillPrefetch);
                let synced = Self::ran(filled.core, filled.attached, Run::SyncBus);
                &&& set.result is Ok ==> Self::facts(set.core).registers.pc == pc
                &&& set.result is Ok && filled.result is Ok && synced.result is Ok ==> {
                    &&& Self::facts(synced.core).registers.pc == pc
                    &&& Self::facts(core).cycles <= u64::MAX - u32::MAX ==> Self::facts(
                        synced.core,
                    ).cycles > Self::facts(core).cycles
                }
            }),
    ;

    /// A register that a debugger has written holds what was written, and no time has passed.
    proof fn written_register_holds(core: Self::Model, register: Register, value: u32)
        ensures
            ({
                let after = Self::facts(Self::acted(core, Action::WriteRegister(register, value)));
                &&& after.cycles == Self::facts(core).cycles
                &&& register_value(after.registers, register) is Some ==> register_value(
                    after.registers,
                    register,
                ) == Some(value)
            }),
    ;

    /// What the guest leaves undone changes nothing. A byte that is written to backing RAM is there,
    /// and the rest of RAM stays.
    proof fn offers_are_taken_or_left(core: Self::Model, offer: Offer)
        ensures
            ({
                let (done, after) = Self::offered(core, offer);
                &&& !done ==> after == core
                &&& offer matches Offer::WriteRam { address, value } ==> done ==> {
                    &&& address < Self::facts(core).ram.len()
                    &&& Self::facts(after).ram == Self::facts(core).ram.update(
                        address as int,
                        value,
                    )
                }
            }),
    ;

    /// The breakpoints are those that were set and not cleared since.
    proof fn breakpoints_are_kept(core: Self::Model, breakpoint: Breakpoint)
        ensures
            ({
                let before = Self::facts(core).breakpoints;
                let cleared = Self::facts(
                    Self::acted(core, Action::ClearBreakpoint(breakpoint)),
                ).breakpoints;
                let set = Self::facts(
                    Self::acted(core, Action::SetBreakpoint(breakpoint)),
                ).breakpoints;
                &&& times(cleared, breakpoint) == 0
                &&& times(set, breakpoint) == times(before, breakpoint) + 1
                &&& forall|other: Breakpoint|
                    other != breakpoint ==> #[trigger] times(cleared, other) == times(before, other)
                &&& forall|other: Breakpoint|
                    other != breakpoint ==> #[trigger] times(set, other) == times(before, other)
            }),
    ;

    /// A change of the debugger's policy leaves hardware that differs in that alone.
    proof fn policy_leaves_alike(core: Self::Model, other: Self::Model)
        ensures
            Self::alike(core, core),
            Self::alike(core, other) ==> {
                &&& forall|action: Action|
                    debugger_policy(action) ==> Self::alike(
                        core,
                        #[trigger] Self::acted(other, action),
                    )
                &&& Self::alike(core, Self::hits_taken(other).1)
            },
    ;

    /// Hardware that differs in the debugger's policy alone runs alike.
    proof fn alike_runs(a: Self::Model, b: Self::Model, attached: AttachedModel, run: Run)
        requires
            Self::alike(a, b),
        ensures
            Self::ran(a, attached, run).result == Self::ran(b, attached, run).result,
            Self::ran(a, attached, run).attached == Self::ran(b, attached, run).attached,
            Self::alike(Self::ran(a, attached, run).core, Self::ran(b, attached, run).core),
    ;

    /// Hardware that differs in the debugger's policy alone looks alike.
    proof fn alike_looks(a: Self::Model, b: Self::Model)
        requires
            Self::alike(a, b),
        ensures
            Self::facts(a).cycles == Self::facts(b).cycles,
            snapshots_agree(Self::snapshot_taken(a), Self::snapshot_taken(b)),
    ;

    /// Hardware that differs in the debugger's policy alone takes a medium alike, and saves alike.
    proof fn alike_floppies(
        a: Self::Model,
        b: Self::Model,
        drive: usize,
        medium: MediumModel<Self::ImageModel>,
    )
        requires
            Self::alike(a, b),
        ensures
            Self::floppy_inserted(a, drive, medium).0 == Self::floppy_inserted(b, drive, medium).0,
            Self::alike(
                Self::floppy_inserted(a, drive, medium).1,
                Self::floppy_inserted(b, drive, medium).1,
            ),
            Self::facts(a).drives == Self::facts(b).drives,
            Self::floppy_saved(a, drive) == Self::floppy_saved(b, drive),
    ;

    /// A medium that is inserted is in the drive, as dirty as it came and no less protected.
    proof fn inserted_as_it_came(
        core: Self::Model,
        drive: usize,
        medium: MediumModel<Self::ImageModel>,
    )
        requires
            drive < 3,
        ensures
            ({
                let (result, after) = Self::floppy_inserted(core, drive, medium);
                let activity = Self::facts(after).drives[drive as int];
                result is Ok ==> {
                    &&& activity.present
                    &&& activity.dirty == medium.dirty
                    &&& medium.force_wp ==> activity.write_protected
                }
            }),
    ;

    /// Detaching a device that is gone changes nothing, and a disk can be attached in its place.
    proof fn detaching_frees_the_id(core: Self::Model, id: usize, image: BytesModel)
        requires
            id < 7,
        ensures
            ({
                let detached = Self::acted(core, Action::DetachScsi(id));
                &&& Self::acted(detached, Action::DetachScsi(id)) == detached
                &&& Self::model_known(Self::facts(core).model).has_scsi && image.bytes.len() > 0
                    && image.bytes.len() % 512 == 0 ==> Self::attempted(
                    detached,
                    AttemptModel::AttachDisk { id, image: image.bytes },
                ).0 is Ok
            }),
    ;

    /// What is known of a model.
    fn known_model(model: MacModel) -> (facts: ModelFacts)
        ensures
            facts@ == Self::model_known(model),
    ;

    /// Build hardware that renders to the given renderer.
    fn build(plan: Blueprint<'_>, renderer: &mut ChannelRenderer) -> (result: Result<
        Self,
        CoreError,
    >)
        requires
            old(renderer).well_formed(),
        ensures
            final(renderer).well_formed(),
            final(renderer)@ == Self::built(plan@, old(renderer)@).1,
            match result {
                Ok(core) => Self::built(plan@, old(renderer)@).0 == Ok::<
                    Self::Model,
                    CoreErrorModel,
                >(core.model()),
                Err(error) => Self::built(plan@, old(renderer)@).0 == Err::<
                    Self::Model,
                    CoreErrorModel,
                >(error@),
            },
    ;

    /// Let the guest run. It can write to the images, and it can render.
    fn run(&mut self, attached: &mut Attached, run: Run) -> (result: Result<(), CoreError>)
        requires
            old(attached).renderer.well_formed(),
        ensures
            final(attached).renderer.well_formed(),
            same_shape(old(attached)@.media, final(attached)@.media),
            Self::ran(old(self).model(), old(attached)@, run) == (RunModel {
                result: core_outcome(result),
                core: final(self).model(),
                attached: final(attached)@,
            }),
    ;

    /// Do something that cannot fail.
    fn act(&mut self, action: Action)
        ensures
            final(self).model() == Self::acted(old(self).model(), action),
    ;

    /// Do something that can be refused.
    fn attempt(&mut self, attempt: Attempt<'_>) -> (result: Result<(), CoreError>)
        ensures
            Self::attempted(old(self).model(), attempt@) == (
                core_outcome(result),
                final(self).model(),
            ),
    ;

    /// Do something that the guest can leave undone, and tell whether it was done.
    fn offer(&mut self, offer: Offer) -> (done: bool)
        ensures
            Self::offered(old(self).model(), offer) == (done, final(self).model()),
    ;

    /// Give bytes or a complete frame to a serial channel.
    fn receive(&mut self, channel: SccCh, data: &[u8], frame: bool)
        ensures
            final(self).model() == Self::received(
                old(self).model(),
                channel,
                BytesModel { bytes: data@ },
                frame,
            ),
    ;

    /// Whether the receiver of a serial channel is ready for data.
    fn is_receiver_ready(&self, channel: SccCh) -> (ready: bool)
        ensures
            ready == Self::receiver_ready(self.model(), channel),
    ;

    /// Take the bytes that a serial channel has sent.
    fn take_sent(&mut self, channel: SccCh) -> (bytes: Vec<u8>)
        ensures
            Self::sent(old(self).model(), channel) == (
                BytesModel { bytes: bytes@ },
                final(self).model(),
            ),
    ;

    /// Take the frames that a serial channel has sent.
    fn take_frames_sent(&mut self, channel: SccCh) -> (frames: Vec<Vec<u8>>)
        ensures
            Self::frames_sent(old(self).model(), channel) == (
                frames_model(frames@),
                final(self).model(),
            ),
    ;

    /// Take the breakpoints that were met.
    fn take_hits(&mut self) -> (hits: (Vec<BreakpointHit>, u64))
        ensures
            Self::hits_taken(old(self).model()) == (
                HitsModel { hits: hits.0@, dropped: hits.1 },
                final(self).model(),
            ),
            hits.0@.len() <= MAX_BREAKPOINT_HITS,
    ;

    /// The registers.
    fn registers(&self) -> (registers: &RegisterFile)
        ensures
            registers@ == Self::facts(self.model()).registers,
    ;

    /// The processor's cycles since its last reset.
    fn cycles(&self) -> (cycles: u64)
        ensures
            cycles == Self::facts(self.model()).cycles,
    ;

    /// Backing RAM.
    fn ram(&self) -> (ram: &[u8])
        ensures
            ram@ == Self::facts(self.model()).ram,
    ;

    /// The model that was built.
    fn mac_model(&self) -> (model: MacModel)
        ensures
            model == Self::facts(self.model()).model,
    ;

    /// The family of the model that was built.
    fn family(&self) -> (family: Family)
        ensures
            family == Self::facts(self.model()).family,
    ;

    /// Read a byte where that has no effect on the guest.
    fn inspect_byte(&self, address: u32) -> (byte: Option<u8>)
        ensures
            byte == Self::byte_at(self.model(), address),
    ;

    /// Where an address is in backing RAM.
    fn find_in_ram(&self, address: u32) -> (offset: Option<u32>)
        ensures
            offset == Self::ram_offset(self.model(), address),
    ;

    /// Explain how an access is translated.
    fn inspect_translation(&self, query: TranslationQuery) -> (result: Result<
        TranslationInspection,
        InspectError,
    >)
        ensures
            inspection_outcome(result) == Self::translation(self.model(), query),
    ;

    /// Show part of the address translation cache.
    fn inspect_atc(&self, start: usize, scan_limit: usize, entry_limit: usize) -> (result: Result<
        AtcPage,
        InspectError,
    >)
        ensures
            page_outcome(result) == Self::atc_page(self.model(), start, scan_limit, entry_limit),
    ;

    /// Where stepping over the current instruction ends.
    fn step_over(&self) -> (target: Option<u32>)
        ensures
            target == Self::facts(self.model()).step_over,
    ;

    /// Whether instructions are recorded and how many were, the same of system traps, and how many
    /// entries a history keeps.
    fn history_status(&self) -> (status: (bool, u64, bool, u64, usize))
        ensures
            status == Self::facts(self.model()).history_status,
    ;

    /// The recorded instructions.
    fn instruction_history(&self) -> (history: Option<&[HistoryEntry]>)
        ensures
            match history {
                Some(entries) => Self::facts(self.model()).instruction_history == Some(entries@),
                None => Self::facts(self.model()).instruction_history is None,
            },
            history matches Some(entries) ==> entries@.len() <= Self::facts(
                self.model(),
            ).history_status.4,
    ;

    /// The recorded system traps.
    fn systrap_history(&self) -> (history: Option<&[SystrapHistoryEntry]>)
        ensures
            match history {
                Some(entries) => Self::facts(self.model()).systrap_history == Some(entries@),
                None => Self::facts(self.model()).systrap_history is None,
            },
    ;

    /// What the peripherals show to a debugger.
    fn properties(&self) -> (properties: &[DebuggableProperty])
        ensures
            properties@ == Self::facts(self.model()).properties,
    ;

    /// How often the floppy controller has drawn noise.
    fn controller_draws(&self) -> (draws: u64)
        ensures
            draws == Self::facts(self.model()).controller_draws,
    ;

    /// What a floppy drive has done.
    fn drive(&self, drive: usize) -> (activity: DriveActivity)
        requires
            drive < 3,
        ensures
            Self::facts(self.model()).drives.len() == 3,
            activity == Self::facts(self.model()).drives[drive as int],
    ;

    /// Load a floppy image.
    fn load_floppy(image: &[u8], name: &str, noise: Noise) -> (result: Result<
        FloppyMedium<Self::Image>,
        CoreError,
    >)
        ensures
            Self::floppy_loaded(
                FloppySource { image: image@, name: name@, noise: noise@ },
            ) == match result {
                Ok(medium) => Ok::<MediumModel<Self::ImageModel>, CoreErrorModel>(
                    MediumModel {
                        image: Self::image_value(medium.image),
                        dirty: medium.dirty,
                        force_wp: medium.force_wp,
                    },
                ),
                Err(error) => Err(error@),
            },
    ;

    /// Insert a medium into a floppy drive.
    fn insert_floppy(&mut self, drive: usize, medium: FloppyMedium<Self::Image>) -> (result: Result<
        (),
        CoreError,
    >)
        requires
            drive < 3,
        ensures
            Self::floppy_inserted(
                old(self).model(),
                drive,
                MediumModel {
                    image: Self::image_value(medium.image),
                    dirty: medium.dirty,
                    force_wp: medium.force_wp,
                },
            ) == (core_outcome(result), final(self).model()),
    ;

    /// Save the image in a floppy drive.
    fn save_floppy(&self, drive: usize) -> (result: Result<Vec<u8>, CoreError>)
        requires
            drive < 3,
        ensures
            Self::floppy_saved(self.model(), drive) == match result {
                Ok(bytes) => Ok::<BytesModel, CoreErrorModel>(BytesModel { bytes: bytes@ }),
                Err(error) => Err(error@),
            },
    ;

    /// Take a snapshot of the guest's state: an object with the kind of machine, whose value is
    /// the processor, with the bus as one of its members.
    fn snapshot(&self) -> (result: Result<JsonValue, CoreError>)
        ensures
            Self::snapshot_taken(self.model()) == match result {
                Ok(snapshot) => Ok::<JsonModel, CoreErrorModel>(snapshot@),
                Err(error) => Err(error@),
            },
            result matches Ok(snapshot) ==> machine_shaped(snapshot@) && well_keyed(snapshot@),
    ;
}

/// What frames hold.
pub open spec fn frames_model(frames: Seq<Vec<u8>>) -> FramesModel {
    FramesModel { frames: Seq::new(frames.len(), |i: int| frames[i]@) }
}

/// What an inspection says.
pub open spec fn inspection_outcome(result: Result<TranslationInspection, InspectError>) -> Result<
    InspectionModel,
    InspectError,
> {
    match result {
        Ok(inspection) => Ok(inspection@),
        Err(error) => Err(error),
    }
}

/// What a part of the cache shows.
pub open spec fn page_outcome(result: Result<AtcPage, InspectError>) -> Result<
    AtcPageModel,
    InspectError,
> {
    match result {
        Ok(page) => Ok(page@),
        Err(error) => Err(error),
    }
}

} // verus!
