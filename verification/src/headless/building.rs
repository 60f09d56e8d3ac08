//! How machines are built, step by step, and why configurations are refused.

use vstd::arithmetic::power2::pow2;
use vstd::prelude::*;

use crate::floppy::noise::seeded_noise;
use crate::headless::emulator::{
    Action, AttachedModel, AttemptModel, BlueprintModel, EmulatorCore, FloppySource, Run,
};
use crate::headless::error::ErrorModel;
use crate::headless::machine::{
    blueprint, booted, config_error, equipped, first_renderer, rom_fits, MachineModel,
};
use crate::headless::media::MediumModel;
use crate::headless::types::{ConfigModel, ExtraROMs, ExtraRomModel, HeadlessConfig, MacModel};
use crate::renderer::channel::{FrameModel, RendererModel};

verus! {

/// Whether a plan calls for what a configuration says, field by field and ROM by ROM.
pub open spec fn plan_follows(plan: BlueprintModel, options: HeadlessConfig<'_>) -> bool {
    &&& plan.rom == options.rom@
    &&& plan.model == options.model
    &&& plan.mouse == options.mouse
    &&& plan.ram_bytes == options.ram_bytes
    &&& plan.pmmu == options.pmmu
    &&& plan.extra_roms.len() == options.extra_roms@.len()
    &&& forall|i: int|
        0 <= i < options.extra_roms@.len() ==> match #[trigger] options.extra_roms@[i] {
            ExtraROMs::MDC12(data) => plan.extra_roms[i] == ExtraRomModel::MDC12(data@),
            ExtraROMs::Toby(data) => plan.extra_roms[i] == ExtraRomModel::Toby(data@),
            ExtraROMs::SE30Video(data) => plan.extra_roms[i] == ExtraRomModel::SE30Video(data@),
            ExtraROMs::ExtensionROM(data) => plan.extra_roms[i] == ExtraRomModel::ExtensionROM(
                data@,
            ),
        }
}

/// Whether a model has the slow bus clock, 8 MHz.
pub open spec fn slow_bus(model: MacModel) -> bool {
    ||| model is Early128K
    ||| model is Early512K
    ||| model is Early512Ke
    ||| model is Plus
    ||| model is SE
    ||| model is SeFdhd
    ||| model is Classic
}

/// A renderer without a finished frame, for a screen of 512 by 342 pixels.
pub open spec fn blank_screen() -> RendererModel {
    RendererModel {
        drawing: FrameModel { width: 512, height: 342, frame: Seq::new(700_416, |i: int| 0u8) },
        sequence: 0,
        channel: None,
    }
}

/// Whether hardware has been fitted out for its first start: a floppy controller for its bus clock
/// with noise from the seed, the clock and its PRAM, and the power manager's on a Portable, full
/// speed, and the boot disk in the first drive, clean, with noise of its own.
pub open spec fn fitted_out<C: EmulatorCore>(
    bare: C::Model,
    model: MacModel,
    disk: Option<Seq<u8>>,
    seed: u64,
    seconds: u32,
    pram: Seq<u8>,
    ready: C::Model,
) -> bool {
    let known = C::model_known(model);
    let controlled = C::acted(
        bare,
        Action::FitSwim {
            drives: known.fdd_drives,
            high_density: known.fdd_hd,
            frequency: if slow_bus(model) {
                8_000_000
            } else {
                16_000_000
            },
            seed,
        },
    );
    let (clock_set, clocked) = C::attempted(
        controlled,
        AttemptModel::InitializeRtc { seconds, pram },
    );
    let (power_set, powered) = if C::facts(clocked).family is Portable {
        C::attempted(clocked, AttemptModel::InitializePowerClock { seconds, pram })
    } else {
        (Ok(()), clocked)
    };
    let fast = C::acted(powered, Action::Uncap);
    &&& clock_set is Ok
    &&& power_set is Ok
    &&& match disk {
        None => ready == fast,
        Some(image) => {
            &&& C::floppy_loaded(
                FloppySource { image, name: "boot"@, noise: seeded_noise(seed ^ 0x4D_4544_4941) },
            ) matches Ok(medium)
            &&& C::floppy_inserted(
                fast,
                0,
                MediumModel { image: medium.image, dirty: false, force_wp: medium.force_wp },
            ) matches (inserted, with_disk)
            &&& inserted is Ok
            &&& ready == with_disk
        },
    }
}

/// Whether a machine has been built to a plan, fitted out, and started: the processor has been reset
/// and the devices have caught up. Its timeline starts with the reset, nothing is attached, and no
/// frame has been seen.
pub open spec fn started<C: EmulatorCore>(
    plan: BlueprintModel,
    disk: Option<Seq<u8>>,
    seed: u64,
    seconds: u32,
    pram: Seq<u8>,
    machine: MachineModel<C::Model>,
) -> bool {
    let (built, renderer) = C::built(plan, blank_screen());
    &&& built matches Ok(bare)
    &&& exists|ready: C::Model| #[trigger]
        fitted_out::<C>(bare, plan.model, disk, seed, seconds, pram, ready) && {
            let nothing = AttachedModel { media: Seq::empty(), renderer };
            let reset = C::ran(ready, nothing, Run::ResetCpu);
            let synced = C::ran(reset.core, reset.attached, Run::SyncBus);
            &&& reset.result is Ok
            &&& synced.result is Ok
            &&& machine.core == synced.core
            &&& machine.attached == synced.attached
            &&& machine.cycle_offset == 0
            &&& machine.last_frame is None
        }
}

/// A machine is built to the plan that its configuration says, with its disk, seed, time and PRAM.
pub proof fn law_machine_is_built_to_its_configuration<C: EmulatorCore>(
    config: ConfigModel,
    plan: BlueprintModel,
)
    requires
        plan.rom == config.rom,
        plan.extra_roms == config.extra_roms,
        plan.model == config.model,
        plan.mouse == config.mouse,
        plan.ram_bytes == config.ram_bytes,
        plan.pmmu == config.pmmu,
    ensures
        booted::<C>(config) matches Ok(machine) ==> started::<C>(
            plan,
            config.disk,
            config.seed,
            config.seconds,
            config.pram,
            machine,
        ),
{
    if let Ok(machine) = booted::<C>(config) {
        assert(plan == blueprint(config));
        assert(first_renderer().drawing.frame =~= blank_screen().drawing.frame);
        assert(first_renderer() == blank_screen());
        let bare = C::built(plan, blank_screen()).0->Ok_0;
        let ready = equipped::<C>(bare, config)->Ok_0;
        assert(fitted_out::<C>(
            bare,
            config.model,
            config.disk,
            config.seed,
            config.seconds,
            config.pram,
            ready,
        ));
    }
}

/// Why a configuration is refused, in the order in which it is looked at. The ROM has a size from
/// 64 KB to 4 MB in powers of two, the RAM is of a size that the model comes with, an MMU is no
/// option with a 68000 and no option without a 68030, the larger Portable needs a ROM of 256 KB, and
/// extra ROMs have bytes. Whatever else fails fails in the hardware.
pub proof fn law_refused_configurations<C: EmulatorCore>(config: ConfigModel)
    ensures
        ({
            let known = C::model_known(config.model);
            let size = config.rom.len();
            let rom_fine = size == 65_536 || size == 131_072 || size == 262_144 || size == 524_288
                || size == 1_048_576 || size == 2_097_152 || size == 4_194_304;
            let ram_fine = exists|i: int|
                0 <= i < known.ram_sizes.len() && #[trigger] known.ram_sizes[i] == config.ram_bytes;
            let extra_empty = exists|i: int|
                0 <= i < config.extra_roms.len() && match #[trigger] config.extra_roms[i] {
                    ExtraRomModel::MDC12(data) => data.len() == 0,
                    ExtraRomModel::Toby(data) => data.len() == 0,
                    ExtraRomModel::SE30Video(data) => data.len() == 0,
                    ExtraRomModel::ExtensionROM(data) => data.len() == 0,
                };
            let outcome = booted::<C>(config);
            if !rom_fine {
                outcome == Err::<MachineModel<C::Model>, ErrorModel>(ErrorModel::RomSize)
            } else if !ram_fine {
                outcome == Err::<MachineModel<C::Model>, ErrorModel>(
                    ErrorModel::RamSize(known.name),
                )
            } else if known.cpu_type == 68000 && config.pmmu {
                outcome == Err::<MachineModel<C::Model>, ErrorModel>(ErrorModel::PmmuUnsupported)
            } else if known.cpu_type == 68030 && !config.pmmu {
                outcome == Err::<MachineModel<C::Model>, ErrorModel>(ErrorModel::PmmuIntegrated)
            } else if config.model is Portable15MB && size < 262_144 {
                outcome == Err::<MachineModel<C::Model>, ErrorModel>(ErrorModel::PortableRom)
            } else if extra_empty {
                outcome == Err::<MachineModel<C::Model>, ErrorModel>(ErrorModel::EmptyExtraRom)
            } else {
                outcome matches Err(error) ==> error is Core
            }
        }),
{
    let size = config.rom.len();
    vstd::arithmetic::power2::lemma2_to64();
    assert(pow2(16) == 65_536 && pow2(17) == 131_072 && pow2(18) == 262_144 && pow2(19) == 524_288
        && pow2(20) == 1_048_576 && pow2(21) == 2_097_152 && pow2(22) == 4_194_304);
    if rom_fits(size) {
        let k = choose|k: nat| 16 <= k <= 22 && size == #[trigger] pow2(k);
        assert(k == 16 || k == 17 || k == 18 || k == 19 || k == 20 || k == 21 || k == 22);
    }
    let known = C::model_known(config.model);
    if known.ram_sizes.contains(config.ram_bytes) {
        let i = choose|i: int|
            0 <= i < known.ram_sizes.len() && known.ram_sizes[i] == config.ram_bytes;
        assert(known.ram_sizes[i] == config.ram_bytes);
    }
    if config_error(config, known) == Some(ErrorModel::EmptyExtraRom) {
        let i = choose|i: int|
            0 <= i < config.extra_roms.len() && crate::headless::types::rom_bytes(
                #[trigger] config.extra_roms[i],
            ).len() == 0;
        let _ = config.extra_roms[i];
    }
}

/// A configuration that nothing is wrong with is built, if the hardware completes every step, and
/// otherwise fails for the first step that fails.
pub proof fn law_failed_builds<C: EmulatorCore>(config: ConfigModel, plan: BlueprintModel)
    requires
        plan.rom == config.rom,
        plan.extra_roms == config.extra_roms,
        plan.model == config.model,
        plan.mouse == config.mouse,
        plan.ram_bytes == config.ram_bytes,
        plan.pmmu == config.pmmu,
        config_error(config, C::model_known(config.model)) is None,
    ensures
        match C::built(plan, blank_screen()) {
            (Err(error), _) => booted::<C>(config) == Err::<MachineModel<C::Model>, ErrorModel>(
                ErrorModel::Core(error),
            ),
            (Ok(bare), renderer) => forall|ready: C::Model| #[trigger]
                fitted_out::<C>(
                    bare,
                    config.model,
                    config.disk,
                    config.seed,
                    config.seconds,
                    config.pram,
                    ready,
                ) ==> {
                    let nothing = AttachedModel { media: Seq::empty(), renderer };
                    let reset = C::ran(ready, nothing, Run::ResetCpu);
                    let synced = C::ran(reset.core, reset.attached, Run::SyncBus);
                    match booted::<C>(config) {
                        Ok(_) => reset.result is Ok && synced.result is Ok,
                        Err(error) => match (reset.result, synced.result) {
                            (Err(failure), _) => error == ErrorModel::Core(failure),
                            (Ok(()), Err(failure)) => error == ErrorModel::Core(failure),
                            (Ok(()), Ok(())) => false,
                        },
                    }
                },
        },
{
    assert(plan == blueprint(config));
    assert(first_renderer().drawing.frame =~= blank_screen().drawing.frame);
    assert(first_renderer() == blank_screen());
}

} // verus!
