//! A Macintosh with one owner.

use vstd::arithmetic::power2::{lemma2_to64, pow2};
use vstd::prelude::*;

use crate::cpu_m68k::cpu::{HistoryEntry, RegisterFile, M68000, M68030};
use crate::cpu_m68k::pmmu::inspect::{AtcPage, TranslationInspection, TranslationQuery};
use crate::floppy::noise::{seeded_noise, Noise};
use crate::headless::building::{
    law_machine_is_built_to_its_configuration, plan_follows, started,
};
use crate::headless::digest::{digest_guest, guest_digest, Digests};
use crate::headless::emulator::{
    reset_vector, same_rest, Action, Attached, AttachedModel, Attempt, AttemptModel, Blueprint, BlueprintModel,
    CoreError, CoreErrorModel, EmulatorCore, FloppySource, HitsModel, Offer, Run,
};
use crate::headless::error::{outcome, ErrorModel, HeadlessError};
use crate::headless::media::{
    has_image, ids_valid, image_at, lemma_ids_push, readied, same_shape, FloppyMedium,
    MediumModel, MemoryDisk,
};
use crate::headless::types::{
    extra_rom_models, rom_bytes, Breakpoint, BreakpointHit, ConfigModel, DebuggableProperty,
    ExtraROMs, ExtraRomModel, Family, Frame, HeadlessConfig, KeyEvent, MacModel, ModelFactsModel,
    MouseMode, ObservedFrame, SystrapHistoryEntry, MAX_BREAKPOINT_HITS,
};
use crate::renderer::channel::{blank_frame, ChannelRenderer, RendererModel};

verus! {

/// What the noise of the boot disk mixes into the machine's seed.
pub const MEDIA_SEED: u64 = 0x4D_4544_4941;

/// A directly owned Macintosh. All methods act synchronously at instruction boundaries.
pub struct HeadlessMachine<C: EmulatorCore> {
    pub core: C,
    pub cycle_offset: u64,
    pub attached: Attached,
    pub last_frame: Option<Frame>,
}

/// Another name, for machines that are Plus models.
pub type HeadlessPlus<C> = HeadlessMachine<C>;

/// The state of a machine.
pub ghost struct MachineModel<M> {
    pub core: M,
    pub cycle_offset: u64,
    pub attached: AttachedModel,
    pub last_frame: Option<ObservedFrame>,
}

impl<C: EmulatorCore> View for HeadlessMachine<C> {
    type V = MachineModel<C::Model>;

    open spec fn view(&self) -> MachineModel<C::Model> {
        MachineModel {
            core: self.core.model(),
            cycle_offset: self.cycle_offset,
            attached: self.attached@,
            last_frame: match self.last_frame {
                Some(frame) => Some(frame@),
                None => None,
            },
        }
    }
}

/// Whether a ROM of so many bytes can be fitted: a power of two from 64 KB through 4 MB.
pub open spec fn rom_fits(len: nat) -> bool {
    exists|k: nat| 16 <= k <= 22 && len == #[trigger] pow2(k)
}

/// Whether a ROM of so many bytes can be fitted.
fn check_rom(len: usize) -> (fits: bool)
    ensures
        fits == rom_fits(len as nat),
{
    proof {
        lemma2_to64();
        if rom_fits(len as nat) {
            let k = choose|k: nat| 16 <= k <= 22 && len == #[trigger] pow2(k);
            assert(k == 16 || k == 17 || k == 18 || k == 19 || k == 20 || k == 21 || k == 22);
        }
        assert(pow2(16) == 0x1_0000 && pow2(17) == 0x2_0000 && pow2(18) == 0x4_0000 && pow2(19)
            == 0x8_0000 && pow2(20) == 0x10_0000 && pow2(21) == 0x20_0000 && pow2(22)
            == 0x40_0000);
    }
    len == 0x1_0000 || len == 0x2_0000 || len == 0x4_0000 || len == 0x8_0000 || len == 0x10_0000
        || len == 0x20_0000 || len == 0x40_0000
}

/// A ROM that can be fitted holds the reset vectors.
proof fn lemma_rom_holds_vectors(len: nat)
    ensures
        rom_fits(len) ==> len >= 8,
{
    lemma2_to64();
    if rom_fits(len) {
        let k = choose|k: nat| 16 <= k <= 22 && len == #[trigger] pow2(k);
        assert(k == 16 || k == 17 || k == 18 || k == 19 || k == 20 || k == 21 || k == 22);
    }
}

/// The bus clock of a model, as far as the floppy controller goes.
#[verifier::allow_in_spec]
pub fn swim_frequency(model: MacModel) -> u64
    returns
        match model {
            MacModel::Early128K => 8_000_000u64,
            MacModel::Early512K => 8_000_000u64,
            MacModel::Early512Ke => 8_000_000u64,
            MacModel::Plus => 8_000_000u64,
            MacModel::SE => 8_000_000u64,
            MacModel::SeFdhd => 8_000_000u64,
            MacModel::Classic => 8_000_000u64,
            _ => 16_000_000u64,
        },
{
    match model {
        MacModel::Early128K => 8_000_000,
        MacModel::Early512K => 8_000_000,
        MacModel::Early512Ke => 8_000_000,
        MacModel::Plus => 8_000_000,
        MacModel::SE => 8_000_000,
        MacModel::SeFdhd => 8_000_000,
        MacModel::Classic => 8_000_000,
        _ => 16_000_000,
    }
}

/// Why a configuration cannot be built, if it cannot.
pub open spec fn config_error(config: ConfigModel, facts: ModelFactsModel) -> Option<ErrorModel> {
    if !rom_fits(config.rom.len()) {
        Some(ErrorModel::RomSize)
    } else if !facts.ram_sizes.contains(config.ram_bytes) {
        Some(ErrorModel::RamSize(facts.name))
    } else if facts.cpu_type == M68000 && config.pmmu {
        Some(ErrorModel::PmmuUnsupported)
    } else if facts.cpu_type == M68030 && !config.pmmu {
        Some(ErrorModel::PmmuIntegrated)
    } else if config.model is Portable15MB && config.rom.len() < 0x4_0000 {
        Some(ErrorModel::PortableRom)
    } else if some_rom_empty(config.extra_roms) {
        Some(ErrorModel::EmptyExtraRom)
    } else {
        None
    }
}

/// The hardware that a configuration calls for.
pub open spec fn blueprint(config: ConfigModel) -> BlueprintModel {
    BlueprintModel {
        rom: config.rom,
        extra_roms: config.extra_roms,
        model: config.model,
        mouse: config.mouse,
        ram_bytes: config.ram_bytes,
        pmmu: config.pmmu,
    }
}

/// The renderer that a machine starts with.
pub open spec fn first_renderer() -> RendererModel {
    RendererModel { drawing: blank_frame(512, 342), sequence: 0, channel: None }
}

/// Whether a size is among those that a model comes with.
fn offers_size(sizes: &Vec<usize>, size: usize) -> (offered: bool)
    ensures
        offered == sizes@.contains(size),
{
    let mut i: usize = 0;
    while i < sizes.len()
        invariant
            i <= sizes@.len(),
            forall|k: int| 0 <= k < i ==> sizes@[k] != size,
        decreases sizes@.len() - i,
    {
        if sizes[i] == size {
            assert(sizes@[i as int] == size);
            return true;
        }
        i += 1;
    }
    false
}

/// Whether some extra ROM has no bytes.
pub open spec fn some_rom_empty(extra: Seq<ExtraRomModel>) -> bool {
    exists|i: int| 0 <= i < extra.len() && rom_bytes(#[trigger] extra[i]).len() == 0
}

/// Whether some extra ROM has no bytes.
fn has_empty_rom(extra: &[ExtraROMs<'_>]) -> (found: bool)
    ensures
        found == some_rom_empty(extra_rom_models(extra@)),
{
    let mut i: usize = 0;
    while i < extra.len()
        invariant
            i <= extra@.len(),
            forall|k: int|
                0 <= k < i ==> rom_bytes(#[trigger] extra_rom_models(extra@)[k]).len() > 0,
        decreases extra@.len() - i,
    {
        let data = match extra[i] {
            ExtraROMs::MDC12(data) => data,
            ExtraROMs::Toby(data) => data,
            ExtraROMs::SE30Video(data) => data,
            ExtraROMs::ExtensionROM(data) => data,
        };
        assert(data@ == rom_bytes(extra_rom_models(extra@)[i as int]));
        if data.len() == 0 {
            return true;
        }
        i += 1;
    }
    false
}

/// Check a configuration.
fn check_config<C: EmulatorCore>(config: &HeadlessConfig<'_>) -> (result: Result<
    (),
    HeadlessError,
>)
    ensures
        match config_error(config@, C::model_known(config.model)) {
            Some(error) => result matches Err(refusal) && refusal@ == error,
            None => result is Ok,
        },
{
    if !check_rom(config.rom.len()) {
        return Err(HeadlessError::RomSize);
    }
    let facts = C::known_model(config.model);
    if !offers_size(&facts.ram_sizes, config.ram_bytes) {
        return Err(HeadlessError::RamSize(facts.name));
    }
    if facts.cpu_type == M68000 && config.pmmu {
        return Err(HeadlessError::PmmuUnsupported);
    }
    if facts.cpu_type == M68030 && !config.pmmu {
        return Err(HeadlessError::PmmuIntegrated);
    }
    if config.model == MacModel::Portable15MB && config.rom.len() < 0x4_0000 {
        return Err(HeadlessError::PortableRom);
    }
    if has_empty_rom(config.extra_roms) {
        return Err(HeadlessError::EmptyExtraRom);
    }
    Ok(())
}

/// A floppy image that has been loaded and made ready for a drive.
pub open spec fn floppy_readied<C: EmulatorCore>(source: FloppySource, write_protect: bool) -> Result<
    MediumModel<C::ImageModel>,
    CoreErrorModel,
> {
    match C::floppy_loaded(source) {
        Ok(medium) => Ok(readied(medium, write_protect)),
        Err(error) => Err(error),
    }
}

/// Load a floppy image and make it ready for a drive: clean, and protected if that is asked for.
pub(crate) fn ready_floppy<C: EmulatorCore>(
    image: &[u8],
    name: &str,
    noise: Noise,
    write_protect: bool,
) -> (result: Result<FloppyMedium<C::Image>, CoreError>)
    ensures
        floppy_readied::<C>(
            FloppySource { image: image@, name: name@, noise: noise@ },
            write_protect,
        ) == match result {
            Ok(medium) => Ok::<MediumModel<C::ImageModel>, CoreErrorModel>(
                MediumModel {
                    image: C::image_value(medium.image),
                    dirty: medium.dirty,
                    force_wp: medium.force_wp,
                },
            ),
            Err(error) => Err(error@),
        },
{
    match C::load_floppy(image, name, noise) {
        Err(error) => Err(error),
        Ok(mut medium) => {
            if write_protect {
                medium.set_force_wp();
            }
            medium.clear_dirty();
            Ok(medium)
        },
    }
}

/// New hardware with its controllers, clocks and boot disk, before it is reset.
pub open spec fn equipped<C: EmulatorCore>(core: C::Model, config: ConfigModel) -> Result<
    C::Model,
    CoreErrorModel,
> {
    let facts = C::model_known(config.model);
    let core = C::acted(
        core,
        Action::FitSwim {
            drives: facts.fdd_drives,
            high_density: facts.fdd_hd,
            frequency: swim_frequency(config.model),
            seed: config.seed,
        },
    );
    match C::attempted(
        core,
        AttemptModel::InitializeRtc { seconds: config.seconds, pram: config.pram },
    ) {
        (Err(error), _) => Err(error),
        (Ok(()), core) => {
            let clock = if C::facts(core).family is Portable {
                C::attempted(
                    core,
                    AttemptModel::InitializePowerClock {
                        seconds: config.seconds,
                        pram: config.pram,
                    },
                )
            } else {
                (Ok(()), core)
            };
            match clock {
                (Err(error), _) => Err(error),
                (Ok(()), core) => {
                    let core = C::acted(core, Action::Uncap);
                    match config.disk {
                        None => Ok(core),
                        Some(image) => match floppy_readied::<C>(
                            boot_source(image, config.seed),
                            false,
                        ) {
                            Err(error) => Err(error),
                            Ok(medium) => match C::floppy_inserted(core, 0, medium) {
                                (Err(error), _) => Err(error),
                                (Ok(()), core) => Ok(core),
                            },
                        },
                    }
                },
            }
        },
    }
}

/// What the boot disk is loaded from.
pub open spec fn boot_source(image: Seq<u8>, seed: u64) -> FloppySource {
    FloppySource { image, name: "boot"@, noise: seeded_noise(seed ^ MEDIA_SEED) }
}

/// A machine that has been built, equipped and reset, or why there is none.
pub open spec fn booted<C: EmulatorCore>(config: ConfigModel) -> Result<
    MachineModel<C::Model>,
    ErrorModel,
> {
    match config_error(config, C::model_known(config.model)) {
        Some(error) => Err(error),
        None => {
            let (built, renderer) = C::built(blueprint(config), first_renderer());
            match built {
                Err(error) => Err(ErrorModel::Core(error)),
                Ok(core) => match equipped::<C>(core, config) {
                    Err(error) => Err(ErrorModel::Core(error)),
                    Ok(core) => {
                        let attached = AttachedModel { media: Seq::empty(), renderer };
                        let reset = C::ran(core, attached, Run::ResetCpu);
                        let synced = C::ran(reset.core, reset.attached, Run::SyncBus);
                        match (reset.result, synced.result) {
                            (Err(error), _) => Err(ErrorModel::Core(error)),
                            (Ok(()), Err(error)) => Err(ErrorModel::Core(error)),
                            (Ok(()), Ok(())) => Ok(
                                MachineModel {
                                    core: synced.core,
                                    cycle_offset: 0,
                                    attached: synced.attached,
                                    last_frame: None,
                                },
                            ),
                        }
                    },
                },
            }
        },
    }
}

/// The configuration of a Plus with 4 MB.
pub open spec fn plus_config(
    rom: Seq<u8>,
    disk: Option<Seq<u8>>,
    seed: u64,
    seconds: u32,
    pram: Seq<u8>,
    mouse: MouseMode,
) -> ConfigModel {
    ConfigModel {
        rom,
        extra_roms: Seq::empty(),
        model: MacModel::Plus,
        ram_bytes: 0x40_0000,
        pmmu: false,
        disk,
        seed,
        seconds,
        pram,
        mouse,
    }
}

/// The machine that a constructor gives.
pub open spec fn machine_outcome<C: EmulatorCore>(
    result: Result<HeadlessMachine<C>, HeadlessError>,
) -> Result<MachineModel<C::Model>, ErrorModel> {
    match result {
        Ok(machine) => Ok(machine@),
        Err(error) => Err(error@),
    }
}

/// Fit new hardware with its controllers, clocks and boot disk.
fn equip<C: EmulatorCore>(core: C, config: &HeadlessConfig<'_>) -> (result: Result<
    C,
    HeadlessError,
>)
    ensures
        match equipped::<C>(core.model(), config@) {
            Ok(model) => result matches Ok(fitted) && fitted.model() == model,
            Err(error) => result matches Err(refusal) && refusal@ == ErrorModel::Core(error),
        },
        result matches Ok(fitted) ==> same_rest(
            C::facts(core.model()),
            C::facts(fitted.model()),
        ),
{
    let mut core = core;
    let facts = C::known_model(config.model);
    proof {
        C::build_is_fixed(core.model());
    }
    core.act(
        Action::FitSwim {
            drives: facts.fdd_drives,
            high_density: facts.fdd_hd,
            frequency: swim_frequency(config.model),
            seed: config.seed,
        },
    );
    proof {
        C::build_is_fixed(core.model());
    }
    if let Err(error) = core.attempt(
        Attempt::InitializeRtc { seconds: config.seconds, pram: config.pram },
    ) {
        return Err(HeadlessError::Core(error));
    }
    proof {
        C::build_is_fixed(core.model());
    }
    if core.family() == Family::Portable {
        if let Err(error) = core.attempt(
            Attempt::InitializePowerClock { seconds: config.seconds, pram: config.pram },
        ) {
            return Err(HeadlessError::Core(error));
        }
        proof {
            C::build_is_fixed(core.model());
        }
    }
    core.act(Action::Uncap);
    if let Some(image) = config.disk {
        let medium = match ready_floppy::<C>(
            image,
            "boot",
            Noise::seeded(config.seed ^ MEDIA_SEED),
            false,
        ) {
            Err(error) => {
                return Err(HeadlessError::Core(error));
            },
            Ok(medium) => medium,
        };
        proof {
            C::build_is_fixed(core.model());
        }
        if let Err(error) = core.insert_floppy(0, medium) {
            return Err(HeadlessError::Core(error));
        }
    }
    Ok(core)
}

impl<C: EmulatorCore> HeadlessMachine<C> {
    /// Whether the renderer has its frame, and every image an ID of its own.
    pub open spec fn well_formed(self) -> bool {
        &&& self.attached.renderer.well_formed()
        &&& ids_valid(self@.attached.media)
    }

    /// Creates an isolated 4 MB Plus. Raw 400/800 KB sector media is supported.
    /// `seconds` is a Macintosh RTC value (seconds since 1904), independent of timezone.
    pub fn new(
        rom: &[u8],
        disk: Option<&[u8]>,
        seed: u64,
        seconds: u32,
        pram: &[u8],
        mouse: MouseMode,
    ) -> (result: Result<Self, HeadlessError>)
        ensures
            machine_outcome(result) == booted::<C>(
                plus_config(
                    rom@,
                    match disk {
                        Some(image) => Some(image@),
                        None => None,
                    },
                    seed,
                    seconds,
                    pram@,
                    mouse,
                ),
            ),
            result matches Ok(machine) ==> machine.well_formed(),
            result matches Ok(machine) ==> machine@.attached.media.len() == 0,
            result matches Ok(machine) ==> C::facts(machine@.core).ram.len() == 0x40_0000,
            result matches Ok(machine) ==> C::facts(machine@.core).model == MacModel::Plus,
            result matches Ok(machine) ==> C::facts(machine@.core).reset_pc == reset_vector(rom@),
            result matches Ok(machine) ==> C::facts(machine@.core).registers.pc == reset_vector(
                rom@,
            ),
            result matches Ok(machine) ==> started::<C>(
                (BlueprintModel {
                    rom: rom@,
                    extra_roms: Seq::empty(),
                    model: MacModel::Plus,
                    mouse,
                    ram_bytes: 0x40_0000,
                    pmmu: false,
                }),
                match disk {
                    Some(image) => Some(image@),
                    None => None,
                },
                seed,
                seconds,
                pram@,
                machine@,
            ),
    {
        let config = HeadlessConfig {
            rom,
            extra_roms: &[],
            model: MacModel::Plus,
            ram_bytes: 0x40_0000,
            pmmu: false,
            disk,
            seed,
            seconds,
            pram,
            mouse,
        };
        assert(config@.extra_roms =~= Seq::empty());
        proof {
            law_machine_is_built_to_its_configuration::<C>(
                config@,
                BlueprintModel {
                    rom: rom@,
                    extra_roms: Seq::empty(),
                    model: MacModel::Plus,
                    mouse,
                    ram_bytes: 0x40_0000,
                    pmmu: false,
                },
            );
        }
        Self::new_model(config)
    }

    /// Constructs any supported model.
    pub fn new_model(options: HeadlessConfig<'_>) -> (result: Result<Self, HeadlessError>)
        ensures
            machine_outcome(result) == booted::<C>(options@),
            result matches Ok(machine) ==> machine.well_formed(),
            result matches Ok(machine) ==> machine@.attached.media.len() == 0,
            result matches Ok(machine) ==> C::facts(machine@.core).ram.len() == options.ram_bytes,
            result matches Ok(machine) ==> C::facts(machine@.core).model == options.model,
            result matches Ok(machine) ==> options.model is Portable15MB || C::facts(
                machine@.core,
            ).reset_pc == reset_vector(options.rom@),
            result matches Ok(machine) ==> C::facts(machine@.core).registers.pc == C::facts(
                machine@.core,
            ).reset_pc,
            result matches Ok(machine) ==> exists|plan: BlueprintModel| #[trigger]
                plan_follows(plan, options) && started::<C>(
                    plan,
                    match options.disk {
                        Some(image) => Some(image@),
                        None => None,
                    },
                    options.seed,
                    options.seconds,
                    options.pram@,
                    machine@,
                ),
    {
        match check_config::<C>(&options) {
            Err(error) => {
                return Err(error);
            },
            Ok(()) => {},
        }
        let mut renderer = ChannelRenderer::new(512, 342);
        let plan = Blueprint {
            rom: options.rom,
            extra_roms: options.extra_roms,
            model: options.model,
            mouse: options.mouse,
            ram_bytes: options.ram_bytes,
            pmmu: options.pmmu,
        };
        assert(plan@ == blueprint(options@));
        proof {
            law_machine_is_built_to_its_configuration::<C>(options@, plan@);
            assert(plan_follows(plan@, options));
            C::built_to_plan(plan@, renderer@);
            lemma_rom_holds_vectors(options.rom@.len());
        }
        let core = match C::build(plan, &mut renderer) {
            Err(error) => {
                return Err(HeadlessError::Core(error));
            },
            Ok(core) => core,
        };
        let mut core = match equip(core, &options) {
            Err(error) => {
                return Err(error);
            },
            Ok(core) => core,
        };
        let mut attached = Attached { media: Vec::new(), renderer };
        assert(attached@.media =~= Seq::empty());
        proof {
            C::build_is_fixed(core.model());
            C::reset_restarts(core.model(), attached@);
        }
        if let Err(error) = core.run(&mut attached, Run::ResetCpu) {
            return Err(HeadlessError::Core(error));
        }
        proof {
            C::build_is_fixed(core.model());
        }
        if let Err(error) = core.run(&mut attached, Run::SyncBus) {
            return Err(HeadlessError::Core(error));
        }
        Ok(HeadlessMachine { core, cycle_offset: 0, attached, last_frame: None })
    }
}

/// The cycles of a machine's whole life, over all its resets. The counter wraps.
pub open spec fn machine_cycles<C: EmulatorCore>(machine: MachineModel<C::Model>) -> u64 {
    machine.cycle_offset.wrapping_add(C::facts(machine.core).cycles)
}

/// A machine after its hardware has done something.
pub open spec fn with_core<M>(machine: MachineModel<M>, core: M) -> MachineModel<M> {
    MachineModel { core, ..machine }
}

/// A machine after its hardware has run.
pub open spec fn run_on<C: EmulatorCore>(machine: MachineModel<C::Model>, run: Run) -> (
    Result<(), ErrorModel>,
    MachineModel<C::Model>,
) {
    let after = C::ran(machine.core, machine.attached, run);
    (
        match after.result {
            Ok(()) => Ok(()),
            Err(error) => Err(ErrorModel::Core(error)),
        },
        MachineModel { core: after.core, attached: after.attached, ..machine },
    )
}

/// A machine after it has looked for a new frame: if there is one, it becomes the last frame.
pub open spec fn observed<C: EmulatorCore>(machine: MachineModel<C::Model>) -> MachineModel<
    C::Model,
> {
    let renderer = machine.attached.renderer;
    let seen = match machine.last_frame {
        Some(frame) => frame.sequence,
        None => 0,
    };
    if renderer.sequence <= seen {
        machine
    } else {
        MachineModel {
            attached: AttachedModel {
                renderer: RendererModel { channel: None, ..renderer },
                ..machine.attached
            },
            last_frame: match renderer.channel {
                Some(buffer) => Some(
                    ObservedFrame {
                        width: buffer.width,
                        height: buffer.height,
                        rgba: buffer.frame,
                        sequence: renderer.sequence,
                        observed_at_cycle: machine_cycles::<C>(machine),
                    },
                ),
                None => machine.last_frame,
            },
            ..machine
        }
    }
}

/// The outcome of one CPU instruction, and the machine after it.
pub open spec fn stepped<C: EmulatorCore>(machine: MachineModel<C::Model>) -> (
    Result<(), ErrorModel>,
    MachineModel<C::Model>,
) {
    let (result, ran) = run_on::<C>(machine, Run::Step);
    let (synced, after) = run_on::<C>(ran, Run::SyncBus);
    match (synced, result) {
        (Err(error), _) => (Err(error), after),
        (Ok(()), Err(error)) => (Err(error), after),
        (Ok(()), Ok(())) => (Ok(()), observed::<C>(after)),
    }
}

/// The outcome of attaching a block image, and the machine after it.
pub open spec fn scsi_attached<C: EmulatorCore>(
    machine: MachineModel<C::Model>,
    id: usize,
    image: Seq<u8>,
) -> (Result<(), ErrorModel>, MachineModel<C::Model>) {
    if !C::model_known(C::facts(machine.core).model).has_scsi {
        (Err(ErrorModel::NoScsi), machine)
    } else if !(id < 7 && image_at(machine.attached.media, id) is None) {
        (Err(ErrorModel::ScsiId), machine)
    } else if image.len() == 0 || image.len() % 512 != 0 {
        (Err(ErrorModel::ScsiBlocks), machine)
    } else {
        match C::attempted(machine.core, AttemptModel::AttachDisk { id, image }) {
            (Err(error), core) => (Err(ErrorModel::Core(error)), with_core(machine, core)),
            (Ok(()), core) => (
                Ok(()),
                MachineModel {
                    core,
                    attached: AttachedModel {
                        media: machine.attached.media.push((id, image)),
                        ..machine.attached
                    },
                    ..machine
                },
            ),
        }
    }
}

/// A machine after a breakpoint has been set or cleared.
pub open spec fn breakpoint_set<C: EmulatorCore>(
    machine: MachineModel<C::Model>,
    breakpoint: Breakpoint,
    enabled: bool,
) -> MachineModel<C::Model> {
    let cleared = C::acted(machine.core, Action::ClearBreakpoint(breakpoint));
    with_core(
        machine,
        if enabled {
            C::acted(cleared, Action::SetBreakpoint(breakpoint))
        } else {
            cleared
        },
    )
}

/// The breakpoints that were met, and the machine after they have been taken.
pub open spec fn hits_drained<C: EmulatorCore>(machine: MachineModel<C::Model>) -> (
    HitsModel,
    MachineModel<C::Model>,
) {
    let (hits, core) = C::hits_taken(C::acted(machine.core, Action::ClearBreakpointHit));
    (hits, with_core(machine, core))
}

/// A machine that records instructions and system traps, or does not.
pub open spec fn history_configured<C: EmulatorCore>(
    machine: MachineModel<C::Model>,
    instructions: bool,
    traps: bool,
) -> MachineModel<C::Model> {
    with_core(
        machine,
        C::acted(
            C::acted(machine.core, Action::EnableHistory(instructions)),
            Action::EnableSystrapHistory(traps),
        ),
    )
}

/// Images of the same shape have the same IDs.
pub proof fn lemma_shape_keeps_ids(a: Seq<(usize, Seq<u8>)>, b: Seq<(usize, Seq<u8>)>)
    requires
        ids_valid(a),
        same_shape(a, b),
    ensures
        ids_valid(b),
{
    assert forall|i: int| 0 <= i < b.len() implies (#[trigger] b[i]).0 < 7 by {
        assert(a[i].0 == b[i].0);
    }
    assert forall|i: int, j: int| 0 <= i < b.len() && 0 <= j < b.len() && i != j implies (
    #[trigger] b[i]).0 != (#[trigger] b[j]).0 by {
        assert(a[i].0 == b[i].0 && a[j].0 == b[j].0);
    }
}

impl<C: EmulatorCore> HeadlessMachine<C> {
    /// The registers.
    pub fn registers(&self) -> (registers: &RegisterFile)
        ensures
            registers@ == C::facts(self@.core).registers,
    {
        self.core.registers()
    }

    /// The cycles of the machine's whole life, over all its resets. The counter wraps.
    pub fn cycles(&self) -> (cycles: u64)
        ensures
            cycles == machine_cycles::<C>(self@),
    {
        self.cycle_offset.wrapping_add(self.core.cycles())
    }

    /// Backing RAM.
    pub fn ram(&self) -> (ram: &[u8])
        ensures
            ram@ == C::facts(self@.core).ram,
    {
        self.core.ram()
    }

    /// Read a byte where that has no effect on the guest.
    pub fn peek(&self, address: u32) -> (byte: Option<u8>)
        ensures
            byte == C::byte_at(self@.core, address),
    {
        self.core.inspect_byte(address)
    }

    /// Explain translation and compare cached mappings with current tables without guest effects.
    pub fn inspect_translation(&self, query: TranslationQuery) -> (result: Result<
        TranslationInspection,
        HeadlessError,
    >)
        ensures
            match C::translation(self@.core, query) {
                Ok(model) => result matches Ok(inspection) && inspection@ == model,
                Err(error) => result matches Err(refusal) && refusal@ == ErrorModel::Inspect(error),
            },
    {
        match self.core.inspect_translation(query) {
            Ok(inspection) => Ok(inspection),
            Err(error) => Err(HeadlessError::Inspect(error)),
        }
    }

    /// Inspect a bounded page of valid and flushed software ATC slots.
    pub fn inspect_atc(&self, start: usize, scan_limit: usize, entry_limit: usize) -> (result:
        Result<AtcPage, HeadlessError>)
        ensures
            match C::atc_page(self@.core, start, scan_limit, entry_limit) {
                Ok(model) => result matches Ok(page) && page@ == model,
                Err(error) => result matches Err(refusal) && refusal@ == ErrorModel::Inspect(error),
            },
    {
        match self.core.inspect_atc(start, scan_limit, entry_limit) {
            Ok(page) => Ok(page),
            Err(error) => Err(HeadlessError::Inspect(error)),
        }
    }

    /// The last frame that was observed.
    pub fn frame(&self) -> (frame: Option<&Frame>)
        ensures
            match self@.last_frame {
                Some(model) => frame matches Some(found) && found@ == model,
                None => frame is None,
            },
    {
        match &self.last_frame {
            Some(frame) => Some(frame),
            None => None,
        }
    }

    /// Let the hardware run.
    pub(crate) fn run(&mut self, run: Run) -> (result: Result<(), HeadlessError>)
        requires
            old(self).well_formed(),
        ensures
            final(self).well_formed(),
            (outcome(result), final(self)@) == run_on::<C>(old(self)@, run),
            same_shape(old(self)@.attached.media, final(self)@.attached.media),
    {
        let result = self.core.run(&mut self.attached, run);
        proof {
            lemma_shape_keeps_ids(old(self)@.attached.media, self@.attached.media);
        }
        match result {
            Ok(()) => Ok(()),
            Err(error) => Err(HeadlessError::Core(error)),
        }
    }

    /// One CPU instruction, with device clocks synchronized before returning.
    pub fn step(&mut self) -> (result: Result<(), HeadlessError>)
        requires
            old(self).well_formed(),
        ensures
            final(self).well_formed(),
            (outcome(result), final(self)@) == stepped::<C>(old(self)@),
            same_shape(old(self)@.attached.media, final(self)@.attached.media),
    {
        let result = self.run(Run::Step);
        if let Err(error) = self.run(Run::SyncBus) {
            return Err(error);
        }
        if let Err(error) = result {
            return Err(error);
        }
        let sequence: u64 = self.attached.renderer.frame_sequence();
        let seen: u64 = match &self.last_frame {
            Some(frame) => frame.sequence,
            None => 0,
        };
        if sequence > seen {
            let observed_at_cycle: u64 = self.cycles();
            let buffer = self.attached.renderer.get_receiver().take();
            if let Some(buffer) = buffer {
                self.last_frame = Some(
                    Frame {
                        width: buffer.width(),
                        height: buffer.height(),
                        rgba: buffer.into_inner(),
                        sequence,
                        observed_at_cycle,
                    },
                );
            }
        }
        Ok(())
    }

    /// A key goes down or up.
    pub fn key(&mut self, event: KeyEvent)
        requires
            old(self).well_formed(),
        ensures
            final(self).well_formed(),
            final(self)@ == with_core(
                old(self)@,
                C::acted(old(self)@.core, Action::Keyboard(event)),
            ),
    {
        self.core.act(Action::Keyboard(event));
    }

    /// Move the mouse, and press or release its button.
    pub fn mouse_relative(&mut self, x: i16, y: i16, button: Option<bool>)
        requires
            old(self).well_formed(),
        ensures
            final(self).well_formed(),
            final(self)@ == with_core(
                old(self)@,
                C::acted(old(self)@.core, Action::MouseRelative { x, y, button }),
            ),
    {
        self.core.act(Action::MouseRelative { x, y, button });
    }

    /// Returns false when the OS has not initialized its absolute mouse globals.
    pub fn mouse_absolute(&mut self, x: u16, y: u16) -> (moved: bool)
        requires
            old(self).well_formed(),
        ensures
            final(self).well_formed(),
            moved == C::offered(old(self)@.core, Offer::MouseAbsolute { x, y }).0,
            final(self)@ == with_core(
                old(self)@,
                C::offered(old(self)@.core, Offer::MouseAbsolute { x, y }).1,
            ),
            !moved ==> final(self)@ == old(self)@,
    {
        proof {
            C::offers_are_taken_or_left(self@.core, Offer::MouseAbsolute { x, y });
        }
        self.core.offer(Offer::MouseAbsolute { x, y })
    }

    /// Qualification counters: controller noise, drive noise, media-loading noise, dirty media.
    /// Reading these values performs no controller or device bus reads.
    pub fn media_activity(&self) -> (activity: (u64, [u64; 3], [u64; 3], [bool; 3]))
        ensures
            ({
                let facts = C::facts(self@.core);
                &&& activity.0 == facts.controller_draws
                &&& forall|i: int|
                    #![trigger facts.drives[i]]
                    0 <= i < 3 ==> activity.1@[i] == facts.drives[i].noise_draws && activity.2@[i]
                        == facts.drives[i].media_noise_draws && activity.3@[i]
                        == facts.drives[i].dirty
            }),
    {
        let first = self.core.drive(0);
        let second = self.core.drive(1);
        let third = self.core.drive(2);
        (
            self.core.controller_draws(),
            [first.noise_draws, second.noise_draws, third.noise_draws],
            [first.media_noise_draws, second.media_noise_draws, third.media_noise_draws],
            [first.dirty, second.dirty, third.dirty],
        )
    }

    /// Attach a private block image; no host paths or writeback are retained.
    pub fn attach_scsi(&mut self, id: usize, bytes: Vec<u8>) -> (result: Result<(), HeadlessError>)
        requires
            old(self).well_formed(),
        ensures
            final(self).well_formed(),
            (outcome(result), final(self)@) == scsi_attached::<C>(old(self)@, id, bytes@),
    {
        let facts = C::known_model(self.core.mac_model());
        if !facts.has_scsi {
            return Err(HeadlessError::NoScsi);
        }
        if !(id < 7 && !has_image(&self.attached.media, id)) {
            return Err(HeadlessError::ScsiId);
        }
        if bytes.len() == 0 || bytes.len() % 512 != 0 {
            return Err(HeadlessError::ScsiBlocks);
        }
        let disk = MemoryDisk { bytes };
        if let Err(error) = self.core.attempt(Attempt::AttachDisk { id, disk: &disk }) {
            return Err(HeadlessError::Core(error));
        }
        proof {
            lemma_ids_push(self@.attached.media, (id, disk@));
        }
        self.attached.media.push((id, disk));
        assert(self@.attached.media =~= old(self)@.attached.media.push((id, bytes@)));
        Ok(())
    }

    /// Native breakpoint matching retains the hardware's trigger semantics.
    pub fn set_breakpoint(&mut self, bp: Breakpoint, enabled: bool)
        requires
            old(self).well_formed(),
        ensures
            final(self).well_formed(),
            final(self)@ == breakpoint_set::<C>(old(self)@, bp, enabled),
    {
        self.core.act(Action::ClearBreakpoint(bp));
        if enabled {
            self.core.act(Action::SetBreakpoint(bp));
        }
    }

    /// The breakpoints that were met, and how many more were dropped.
    pub fn take_breakpoint_hits(&mut self) -> (hits: (Vec<BreakpointHit>, u64))
        requires
            old(self).well_formed(),
        ensures
            final(self).well_formed(),
            (HitsModel { hits: hits.0@, dropped: hits.1 }, final(self)@) == hits_drained::<C>(
                old(self)@,
            ),
            hits.0@.len() <= MAX_BREAKPOINT_HITS,
    {
        self.core.act(Action::ClearBreakpointHit);
        self.core.take_hits()
    }

    /// Where stepping over the current instruction ends.
    pub fn step_over_target(&self) -> (target: Option<u32>)
        ensures
            target == C::facts(self@.core).step_over,
    {
        self.core.step_over()
    }

    /// Record instructions and system traps, or do not.
    pub fn configure_history(&mut self, instructions: bool, traps: bool)
        requires
            old(self).well_formed(),
        ensures
            final(self).well_formed(),
            final(self)@ == history_configured::<C>(old(self)@, instructions, traps),
    {
        self.core.act(Action::EnableHistory(instructions));
        self.core.act(Action::EnableSystrapHistory(traps));
    }

    /// Whether instructions are recorded and how many were, the same of system traps, and how many
    /// entries a history keeps.
    pub fn history_status(&self) -> (status: (bool, u64, bool, u64, usize))
        ensures
            status == C::facts(self@.core).history_status,
    {
        self.core.history_status()
    }

    /// The recorded instructions.
    pub fn instruction_history(&self) -> (history: Option<&[HistoryEntry]>)
        ensures
            match history {
                Some(entries) => C::facts(self@.core).instruction_history == Some(entries@),
                None => C::facts(self@.core).instruction_history is None,
            },
            history matches Some(entries) ==> entries@.len() <= C::facts(
                self@.core,
            ).history_status.4,
    {
        self.core.instruction_history()
    }

    /// The recorded system traps.
    pub fn trap_history(&self) -> (history: Option<&[SystrapHistoryEntry]>)
        ensures
            match history {
                Some(entries) => C::facts(self@.core).systrap_history == Some(entries@),
                None => C::facts(self@.core).systrap_history is None,
            },
    {
        self.core.systrap_history()
    }

    /// What the peripherals show to a debugger.
    pub fn peripherals(&self) -> (properties: &[DebuggableProperty])
        ensures
            properties@ == C::facts(self@.core).properties,
    {
        self.core.properties()
    }

    /// Canonical guest-state components. JSON objects are sorted before hashing;
    /// paths, renderers, audio presentation and host RTC statistics are excluded.
    /// This is a comparison format, not a save-state API.
    pub fn digests(&self) -> (result: Result<Digests, HeadlessError>)
        ensures
            match C::snapshot_taken(self@.core) {
                Ok(snapshot) => {
                    &&& result matches Ok(digests)
                    &&& digests.well_formed()
                    &&& forall|name: Seq<char>| #[trigger]
                        digests.digest_of(name) == guest_digest(
                            snapshot,
                            self@.cycle_offset,
                            self@.attached.media,
                            name,
                        )
                },
                Err(error) => result matches Err(refusal) && refusal@ == ErrorModel::Core(error),
            },
    {
        match self.core.snapshot() {
            Err(error) => Err(HeadlessError::Core(error)),
            Ok(snapshot) => Ok(digest_guest(snapshot, self.cycle_offset, &self.attached.media)),
        }
    }
}

} // verus!
