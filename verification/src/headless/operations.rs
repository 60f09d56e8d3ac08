//! What the operations of a machine ask of its hardware, in which order, and what becomes of it.

use vstd::prelude::*;

use crate::floppy::noise::seeded_noise;
use crate::headless::controls::{
    cdrom_attached, drive_acted, floppy_added, floppy_exported, register_written, run_all,
    scsi_detached, was_reset,
};
use crate::headless::emulator::{
    Action, AttemptModel, BytesModel, CoreErrorModel, EmulatorCore, FloppySource,
    Run,
};
use crate::headless::error::ErrorModel;
use crate::headless::machine::{
    breakpoint_set, history_configured, hits_drained, machine_cycles, scsi_attached, stepped,
    MachineModel,
};
use crate::headless::media::{ids_valid, image_at, lemma_absent_id, media_without, MediumModel};
use crate::headless::types::{Breakpoint, ObservedFrame, Register};
use crate::renderer::channel::RendererModel;

verus! {

/// A result of the hardware, as a caller sees it.
pub open spec fn told(result: Result<(), CoreErrorModel>) -> Result<(), ErrorModel> {
    match result {
        Ok(()) => Ok(()),
        Err(error) => Err(ErrorModel::Core(error)),
    }
}

/// The cycles of a machine: those of the hardware and the offset, in 64 bits.
pub proof fn law_cycles_add_up<C: EmulatorCore>(machine: MachineModel<C::Model>)
    ensures
        machine_cycles::<C>(machine) == (machine.cycle_offset + C::facts(machine.core).cycles)
            % 0x1_0000_0000_0000_0000,
{
}

/// A step runs one instruction, and then the devices, whether or not it failed. A failure of the
/// devices goes before one of the instruction. Only if both succeed it looks for a frame: one with a
/// higher number than the last is taken over, with the cycle at that time, if the channel has one,
/// and the channel is empty then. Nothing else of the machine changes.
pub proof fn law_step_means<C: EmulatorCore>(machine: MachineModel<C::Model>)
    ensures
        ({
            let (result, after) = stepped::<C>(machine);
            let ran = C::ran(machine.core, machine.attached, Run::Step);
            let synced = C::ran(ran.core, ran.attached, Run::SyncBus);
            let shown = synced.attached.renderer;
            let newer = result is Ok && match machine.last_frame {
                Some(frame) => shown.sequence > frame.sequence,
                None => shown.sequence > 0,
            };
            &&& result == if synced.result is Err {
                told(synced.result)
            } else {
                told(ran.result)
            }
            &&& after.core == synced.core
            &&& after.cycle_offset == machine.cycle_offset
            &&& after.attached.media == synced.attached.media
            &&& after.attached.renderer == if newer {
                RendererModel { drawing: shown.drawing, sequence: shown.sequence, channel: None }
            } else {
                shown
            }
            &&& after.last_frame == match shown.channel {
                Some(buffer) => if newer {
                    Some(
                        ObservedFrame {
                            width: buffer.width,
                            height: buffer.height,
                            rgba: buffer.frame,
                            sequence: shown.sequence,
                            observed_at_cycle: ((machine.cycle_offset + C::facts(
                                synced.core,
                            ).cycles) % 0x1_0000_0000_0000_0000) as u64,
                        },
                    )
                } else {
                    machine.last_frame
                },
                None => machine.last_frame,
            }
        }),
{
    let ran = C::ran(machine.core, machine.attached, Run::Step);
    let synced = C::ran(ran.core, ran.attached, Run::SyncBus);
    law_cycles_add_up::<C>(
        MachineModel { core: synced.core, attached: synced.attached, ..machine },
    );
}

/// Whether a machine has gone through runs of its hardware one after the other, up to the first that
/// failed.
pub open spec fn went_through<C: EmulatorCore>(
    before: MachineModel<C::Model>,
    first: Run,
    second: Run,
    third: Option<Run>,
    result: Result<(), ErrorModel>,
    after: MachineModel<C::Model>,
) -> bool {
    let one = C::ran(before.core, before.attached, first);
    let two = C::ran(one.core, one.attached, second);
    let last = if one.result is Err {
        one
    } else if two.result is Err || third is None {
        two
    } else {
        C::ran(two.core, two.attached, third->0)
    };
    &&& result == told(last.result)
    &&& after.core == last.core
    &&& after.attached == last.attached
    &&& after.cycle_offset == before.cycle_offset
    &&& after.last_frame == before.last_frame
}

/// Runs one after the other.
proof fn lemma_two_runs<C: EmulatorCore>(machine: MachineModel<C::Model>, first: Run, second: Run)
    ensures
        ({
            let (result, after) = run_all::<C>(machine, seq![first, second]);
            went_through::<C>(machine, first, second, None, result, after)
        }),
{
    let runs = seq![first, second];
    assert(runs.drop_last() =~= seq![first]);
    assert(runs.drop_last().drop_last() =~= Seq::empty());
    reveal_with_fuel(run_all, 3);
}

/// Editing a register other than PC is one action, and does not fail. An odd PC is refused, and
/// nothing changes. An even one is set, the prefetch queue is filled again and the devices catch up,
/// until one of these fails.
pub proof fn law_register_edit_means<C: EmulatorCore>(
    machine: MachineModel<C::Model>,
    register: Register,
    value: u32,
)
    ensures
        ({
            let (result, after) = register_written::<C>(machine, register, value);
            match register {
                Register::PC => if value % 2 == 1 {
                    &&& result == Err::<(), ErrorModel>(ErrorModel::UnalignedPc)
                    &&& after == machine
                } else {
                    went_through::<C>(
                        machine,
                        Run::SetPc(value),
                        Run::RefillPrefetch,
                        Some(Run::SyncBus),
                        result,
                        after,
                    )
                },
                _ => {
                    &&& result is Ok
                    &&& after == (MachineModel {
                        core: C::acted(machine.core, Action::WriteRegister(register, value)),
                        ..machine
                    })
                },
            }
        }),
{
    let runs = seq![Run::SetPc(value), Run::RefillPrefetch, Run::SyncBus];
    assert(runs.drop_last() =~= seq![Run::SetPc(value), Run::RefillPrefetch]);
    assert(runs.drop_last().drop_last() =~= seq![Run::SetPc(value)]);
    assert(runs.drop_last().drop_last().drop_last() =~= Seq::empty());
    reveal_with_fuel(run_all, 4);
}

/// A reset lets go of the inputs and resets the devices. If that succeeds, the machine's timeline
/// goes on from the cycles that it had, the processor is reset and the devices catch up, and once
/// all has succeeded there is no last frame.
pub proof fn law_reset_means<C: EmulatorCore>(machine: MachineModel<C::Model>)
    ensures
        ({
            let (result, after) = was_reset::<C>(machine);
            let quiet = C::acted(machine.core, Action::ReleaseInputs);
            let bus = C::ran(quiet, machine.attached, Run::ResetBus);
            let on = MachineModel {
                core: bus.core,
                attached: bus.attached,
                cycle_offset: ((machine.cycle_offset + C::facts(machine.core).cycles)
                    % 0x1_0000_0000_0000_0000) as u64,
                last_frame: machine.last_frame,
            };
            if bus.result is Err {
                &&& result == told(bus.result)
                &&& after == (MachineModel { core: bus.core, attached: bus.attached, ..machine })
            } else {
                &&& went_through::<C>(
                    on,
                    Run::ResetCpu,
                    Run::SyncBus,
                    None,
                    result,
                    MachineModel { last_frame: machine.last_frame, ..after },
                )
                &&& after.last_frame == if result is Ok {
                    None
                } else {
                    machine.last_frame
                }
            }
        }),
{
    law_cycles_add_up::<C>(machine);
    let quiet = C::acted(machine.core, Action::ReleaseInputs);
    let bus = C::ran(quiet, machine.attached, Run::ResetBus);
    let on = MachineModel {
        core: bus.core,
        attached: bus.attached,
        cycle_offset: machine_cycles::<C>(machine),
        last_frame: machine.last_frame,
    };
    lemma_two_runs::<C>(on, Run::ResetCpu, Run::SyncBus);
}

/// A floppy goes into one of three drives: its image is loaded under the name "inserted" with noise
/// from the seed, clean, and protected if the image is or if that was asked for. An image that does
/// not load leaves the machine alone.
pub proof fn law_floppy_insertion_means<C: EmulatorCore>(
    machine: MachineModel<C::Model>,
    drive: usize,
    image: Seq<u8>,
    seed: u64,
    write_protect: bool,
)
    ensures
        ({
            let (result, after) = floppy_added::<C>(machine, drive, image, seed, write_protect);
            let loaded = C::floppy_loaded(
                FloppySource { image, name: "inserted"@, noise: seeded_noise(seed) },
            );
            if drive > 2 {
                result == Err::<(), ErrorModel>(ErrorModel::FloppyDrive) && after == machine
            } else {
                match loaded {
                    Err(error) => {
                        &&& result == Err::<(), ErrorModel>(ErrorModel::Core(error))
                        &&& after == machine
                    },
                    Ok(medium) => {
                        let (inserted, core) = C::floppy_inserted(
                            machine.core,
                            drive,
                            MediumModel {
                                image: medium.image,
                                dirty: false,
                                force_wp: medium.force_wp || write_protect,
                            },
                        );
                        &&& result == told(inserted)
                        &&& after == (MachineModel { core, ..machine })
                    },
                }
            }
        }),
{
}

/// Drives are numbered 0 to 2: an action on another is refused, and nothing changes. A floppy is
/// saved from a drive that is there.
pub proof fn law_drives_are_three<C: EmulatorCore>(
    machine: MachineModel<C::Model>,
    drive: usize,
    action: Action,
)
    ensures
        drive_acted::<C>(machine, drive, action) == if drive <= 2 {
            (
                Ok::<(), ErrorModel>(()),
                MachineModel { core: C::acted(machine.core, action), ..machine },
            )
        } else {
            (Err::<(), ErrorModel>(ErrorModel::FloppyDrive), machine)
        },
        floppy_exported::<C>(machine, drive) == if drive <= 2 && C::facts(
            machine.core,
        ).drives[drive as int].present {
            match C::floppy_saved(machine.core, drive) {
                Ok(bytes) => Ok::<BytesModel, ErrorModel>(bytes),
                Err(error) => Err::<BytesModel, ErrorModel>(ErrorModel::Core(error)),
            }
        } else {
            Err::<BytesModel, ErrorModel>(ErrorModel::FloppyUnavailable)
        },
{
}

/// Whether no image is at an ID.
pub open spec fn vacant(media: Seq<(usize, Seq<u8>)>, id: usize) -> bool {
    forall|i: int| 0 <= i < media.len() ==> (#[trigger] media[i]).0 != id
}

/// A block image goes to a model with SCSI, at an ID from 0 to 6 that no image is at, in whole
/// blocks of 512 bytes. It joins the images after the others. What is refused leaves no trace but
/// that of the hardware.
pub proof fn law_scsi_attachment_means<C: EmulatorCore>(
    machine: MachineModel<C::Model>,
    id: usize,
    image: Seq<u8>,
)
    ensures
        ({
            let (result, after) = scsi_attached::<C>(machine, id, image);
            if !C::model_known(C::facts(machine.core).model).has_scsi {
                result == Err::<(), ErrorModel>(ErrorModel::NoScsi) && after == machine
            } else if id > 6 || !vacant(machine.attached.media, id) {
                result == Err::<(), ErrorModel>(ErrorModel::ScsiId) && after == machine
            } else if image.len() == 0 || image.len() % 512 > 0 {
                result == Err::<(), ErrorModel>(ErrorModel::ScsiBlocks) && after == machine
            } else {
                let (taken, core) = C::attempted(
                    machine.core,
                    AttemptModel::AttachDisk { id, image },
                );
                &&& result == told(taken)
                &&& after.core == core
                &&& after.cycle_offset == machine.cycle_offset
                &&& after.last_frame == machine.last_frame
                &&& after.attached.renderer == machine.attached.renderer
                &&& after.attached.media == if taken is Ok {
                    machine.attached.media.push((id, image))
                } else {
                    machine.attached.media
                }
            }
        }),
{
    lemma_absent_id(machine.attached.media, id);
}

/// Whether images are others without the one at an ID, which is left in no other way.
pub open spec fn removed_at(
    before: Seq<(usize, Seq<u8>)>,
    after: Seq<(usize, Seq<u8>)>,
    id: usize,
) -> bool {
    if vacant(before, id) {
        after == before
    } else {
        exists|k: int|
            0 <= k < before.len() && (#[trigger] before[k]).0 == id && after == before.remove(k)
    }
}

/// Removing the images at an ID removes the one that is there.
proof fn lemma_removed_at(media: Seq<(usize, Seq<u8>)>, id: usize)
    requires
        ids_valid(media),
    ensures
        removed_at(media, media_without(media, id), id),
    decreases media.len(),
{
    if media.len() > 0 {
        let shorter = media.drop_last();
        let last = media.last();
        crate::headless::media::lemma_shorter_ids(media);
        lemma_removed_at(shorter, id);
        assert(media =~= shorter.push(last));
        assert(media[media.len() - 1] == last);
        if last.0 == id {
            assert(vacant(shorter, id)) by {
                assert forall|i: int| 0 <= i < shorter.len() implies (#[trigger] shorter[i]).0
                    != id by {
                    assert(media[i].0 != media[media.len() - 1].0);
                }
            }
            assert(media.remove(media.len() - 1) =~= shorter);
            assert(media_without(media, id) == media.remove(media.len() - 1));
            assert(!vacant(media, id));
        } else if vacant(shorter, id) {
            assert forall|i: int| 0 <= i < media.len() implies (#[trigger] media[i]).0 != id by {
                if i < shorter.len() {
                    assert(shorter[i] == media[i]);
                }
            }
        } else {
            let k = choose|k: int|
                0 <= k < shorter.len() && (#[trigger] shorter[k]).0 == id && media_without(
                    shorter,
                    id,
                ) == shorter.remove(k);
            assert(media[k].0 == id);
            assert(media.remove(k) =~= shorter.remove(k).push(last));
        }
    } else {
        assert(media =~= Seq::empty());
    }
}

/// Detaching the device at an ID from 0 to 6 forgets its image, and no other. Another ID is refused,
/// and nothing changes.
pub proof fn law_scsi_detachment_means<C: EmulatorCore>(
    machine: MachineModel<C::Model>,
    id: usize,
)
    requires
        ids_valid(machine.attached.media),
    ensures
        ({
            let (result, after) = scsi_detached::<C>(machine, id);
            if id > 6 {
                result == Err::<(), ErrorModel>(ErrorModel::ScsiRange) && after == machine
            } else {
                &&& result is Ok
                &&& after.core == C::acted(machine.core, Action::DetachScsi(id))
                &&& after.cycle_offset == machine.cycle_offset
                &&& after.last_frame == machine.last_frame
                &&& after.attached.renderer == machine.attached.renderer
                &&& removed_at(machine.attached.media, after.attached.media, id)
            }
        }),
{
    lemma_removed_at(machine.attached.media, id);
}

/// A CD-ROM drive goes to an ID from 0 to 6 of a model with SCSI, in place of what is there, which is
/// detached first. A disc has whole sectors of 2048 bytes; the drive takes it or not, and only if it
/// does its image joins the others.
pub proof fn law_cdrom_attachment_means<C: EmulatorCore>(
    machine: MachineModel<C::Model>,
    id: usize,
    disc: Option<Seq<u8>>,
)
    requires
        ids_valid(machine.attached.media),
    ensures
        ({
            let (result, after) = cdrom_attached::<C>(machine, id, disc);
            if id > 6 || !C::model_known(C::facts(machine.core).model).has_scsi {
                result == Err::<(), ErrorModel>(ErrorModel::ScsiUnavailable) && after == machine
            } else if disc matches Some(image) && (image.len() == 0 || image.len() % 2048 > 0) {
                result == Err::<(), ErrorModel>(ErrorModel::DiscSectors) && after == machine
            } else {
                let bare = C::acted(machine.core, Action::DetachScsi(id));
                let drive = C::acted(bare, Action::AttachCdrom(id));
                &&& after.cycle_offset == machine.cycle_offset
                &&& after.last_frame == machine.last_frame
                &&& after.attached.renderer == machine.attached.renderer
                &&& match disc {
                    None => {
                        &&& result is Ok
                        &&& after.core == drive
                        &&& removed_at(machine.attached.media, after.attached.media, id)
                    },
                    Some(image) => {
                        let (taken, core) = C::attempted(
                            drive,
                            AttemptModel::InsertDisc { id, image },
                        );
                        &&& result == told(taken)
                        &&& after.core == core
                        &&& if taken is Ok {
                            &&& after.attached.media.len() > 0
                            &&& after.attached.media.last() == (id, image)
                            &&& removed_at(
                                machine.attached.media,
                                after.attached.media.drop_last(),
                                id,
                            )
                        } else {
                            removed_at(machine.attached.media, after.attached.media, id)
                        }
                    },
                }
            }
        }),
{
    lemma_removed_at(machine.attached.media, id);
    let rest = media_without(machine.attached.media, id);
    if let Some(image) = disc {
        assert(rest.push((id, image)).drop_last() =~= rest);
    }
}

/// The image at an ID is the one that stands there, of images that each have an ID of their own.
pub proof fn law_images_are_found_by_their_ids(media: Seq<(usize, Seq<u8>)>, id: usize)
    requires
        ids_valid(media),
    ensures
        match image_at(media, id) {
            Some(image) => exists|i: int|
                0 <= i < media.len() && #[trigger] media[i] == (id, image),
            None => vacant(media, id),
        },
{
    lemma_absent_id(media, id);
    if !vacant(media, id) {
        let i = choose|i: int| 0 <= i < media.len() && (#[trigger] media[i]).0 == id;
        crate::headless::evidence::lemma_image_at(media, i);
        assert(media[i] == (id, image_at(media, id)->0));
    }
}

/// A breakpoint is cleared and, if it is to be enabled, set after that. The hits are cleared and then
/// taken. The histories of instructions and of system traps are switched one after the other.
pub proof fn law_debugging_means<C: EmulatorCore>(
    machine: MachineModel<C::Model>,
    breakpoint: Breakpoint,
    enabled: bool,
    instructions: bool,
    traps: bool,
)
    ensures
        ({
            let cleared = C::acted(machine.core, Action::ClearBreakpoint(breakpoint));
            let (hits, drained) = C::hits_taken(
                C::acted(machine.core, Action::ClearBreakpointHit),
            );
            &&& breakpoint_set::<C>(machine, breakpoint, enabled) == (MachineModel {
                core: if enabled {
                    C::acted(cleared, Action::SetBreakpoint(breakpoint))
                } else {
                    cleared
                },
                ..machine
            })
            &&& hits_drained::<C>(machine) == (hits, MachineModel { core: drained, ..machine })
            &&& history_configured::<C>(machine, instructions, traps) == (MachineModel {
                core: C::acted(
                    C::acted(machine.core, Action::EnableHistory(instructions)),
                    Action::EnableSystrapHistory(traps),
                ),
                ..machine
            })
        }),
{
}

} // verus!
