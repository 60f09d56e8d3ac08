//! What holds of a machine over several operations.

use vstd::prelude::*;

use crate::headless::controls::{
    cdrom_attached, drive_acted, floppy_added, floppy_exported, inserted_source, register_written,
    run_all, scsi_detached, was_reset,
};
use crate::headless::digest::{
    bytes_digest, disk_name, guest_digest, law_debugger_policy_does_not_matter,
    law_disk_digest_is_of_the_image,
};
use crate::headless::emulator::{
    register_value, same_build, Action, BytesModel, EmulatorCore, Run,
};
use crate::headless::error::ErrorModel;
use crate::headless::json::JsonModel;
use crate::headless::machine::{
    breakpoint_set, floppy_readied, history_configured, hits_drained, machine_cycles, run_on,
    scsi_attached, stepped, with_core, MachineModel,
};
use crate::headless::media::{
    ids_valid, image_at, law_removal_is_exact, law_removal_is_final, lemma_ids_push, media_without,
};
use crate::headless::types::{times, Breakpoint, Register};

verus! {

/// Running the hardware does not move the start of its cycles in the machine's timeline, nor the
/// last frame.
proof fn lemma_run_all_keeps<C: EmulatorCore>(machine: MachineModel<C::Model>, runs: Seq<Run>)
    ensures
        run_all::<C>(machine, runs).1.cycle_offset == machine.cycle_offset,
        run_all::<C>(machine, runs).1.last_frame == machine.last_frame,
    decreases runs.len(),
{
    if runs.len() > 0 {
        lemma_run_all_keeps::<C>(machine, runs.drop_last());
    }
}

/// The cycle timeline is monotonic over a reset: it goes on from where it was, with the cycles
/// that the reset itself took, of which there is at least one. The timeline is as long as its
/// counter can count.
pub proof fn law_reset_keeps_the_timeline<C: EmulatorCore>(machine: MachineModel<C::Model>)
    requires
        was_reset::<C>(machine).0 is Ok,
        machine_cycles::<C>(machine) + C::facts(was_reset::<C>(machine).1.core).cycles <= u64::MAX,
    ensures
        machine_cycles::<C>(was_reset::<C>(machine).1) == machine_cycles::<C>(machine) + C::facts(
            was_reset::<C>(machine).1.core,
        ).cycles,
        machine_cycles::<C>(was_reset::<C>(machine).1) > machine_cycles::<C>(machine),
{
    let released = with_core(
        machine,
        C::acted(machine.core, Action::ReleaseInputs),
    );
    let after = run_on::<C>(released, Run::ResetBus).1;
    let moved = MachineModel { cycle_offset: machine_cycles::<C>(machine), ..after };
    lemma_run_all_keeps::<C>(moved, seq![Run::ResetCpu, Run::SyncBus]);
    lemma_reset_runs::<C>(machine);
}

/// What the hardware does in a reset that succeeds.
proof fn lemma_reset_runs<C: EmulatorCore>(machine: MachineModel<C::Model>)
    requires
        was_reset::<C>(machine).0 is Ok,
    ensures
        ({
            let after = was_reset::<C>(machine).1;
            &&& C::facts(after.core).cycles > 0
            &&& C::facts(after.core).registers.pc == C::facts(machine.core).reset_pc
            &&& after.attached.media == machine.attached.media
        }),
{
    let released = C::acted(machine.core, Action::ReleaseInputs);
    let runs = seq![Run::ResetCpu, Run::SyncBus];
    assert(runs.drop_last() =~= seq![Run::ResetCpu]);
    assert(runs.drop_last().drop_last() =~= Seq::empty());
    reveal_with_fuel(run_all, 3);
    C::reset_restarts(released, machine.attached);
    C::build_is_fixed(machine.core);
}

/// A machine that has been reset starts where its ROM says, has no last frame, and has the images
/// that it had.
pub proof fn law_reset_starts_over<C: EmulatorCore>(machine: MachineModel<C::Model>)
    requires
        was_reset::<C>(machine).0 is Ok,
    ensures
        ({
            let after = was_reset::<C>(machine).1;
            &&& C::facts(after.core).registers.pc == C::facts(machine.core).reset_pc
            &&& after.last_frame is None
            &&& after.attached.media == machine.attached.media
        }),
{
    lemma_reset_runs::<C>(machine);
}

/// Steps, resets, edits of registers, breakpoints, floppies and block devices leave the machine
/// the model that it is, with as much RAM, starting where it started.
pub proof fn law_machine_keeps_its_build<C: EmulatorCore>(
    machine: MachineModel<C::Model>,
    count: nat,
    register: Register,
    value: u32,
    breakpoint: Breakpoint,
    enabled: bool,
    at: usize,
    image: Seq<u8>,
    seed: u64,
)
    ensures
        same_build(C::facts(machine.core), C::facts(stepped_times::<C>(machine, count).core)),
        same_build(C::facts(machine.core), C::facts(was_reset::<C>(machine).1.core)),
        same_build(
            C::facts(machine.core),
            C::facts(register_written::<C>(machine, register, value).1.core),
        ),
        same_build(
            C::facts(machine.core),
            C::facts(breakpoint_set::<C>(machine, breakpoint, enabled).core),
        ),
        same_build(
            C::facts(machine.core),
            C::facts(floppy_added::<C>(machine, at, image, seed, enabled).1.core),
        ),
        same_build(C::facts(machine.core), C::facts(scsi_attached::<C>(machine, at, image).1.core)),
        same_build(C::facts(machine.core), C::facts(scsi_detached::<C>(machine, at).1.core)),
        same_build(
            C::facts(machine.core),
            C::facts(cdrom_attached::<C>(machine, at, Some(image)).1.core),
        ),
        same_build(
            C::facts(machine.core),
            C::facts(cdrom_attached::<C>(machine, at, None).1.core),
        ),
{
    lemma_steps_keep_the_build::<C>(machine, count);
    let released = with_core(machine, C::acted(machine.core, Action::ReleaseInputs));
    let after = run_on::<C>(released, Run::ResetBus).1;
    C::build_is_fixed(released.core);
    lemma_runs_keep_the_build::<C>(
        MachineModel { cycle_offset: machine_cycles::<C>(machine), ..after },
        seq![Run::ResetCpu, Run::SyncBus],
    );
    lemma_runs_keep_the_build::<C>(
        machine,
        seq![Run::SetPc(value), Run::RefillPrefetch, Run::SyncBus],
    );
    C::build_is_fixed(machine.core);
    C::build_is_fixed(C::acted(machine.core, Action::ClearBreakpoint(breakpoint)));
    let detached = C::acted(machine.core, Action::DetachScsi(at));
    C::build_is_fixed(detached);
    C::build_is_fixed(C::acted(detached, Action::AttachCdrom(at)));
}

/// Running the hardware does not change what was built.
proof fn lemma_runs_keep_the_build<C: EmulatorCore>(
    machine: MachineModel<C::Model>,
    runs: Seq<Run>,
)
    ensures
        same_build(C::facts(machine.core), C::facts(run_all::<C>(machine, runs).1.core)),
    decreases runs.len(),
{
    if runs.len() > 0 {
        lemma_runs_keep_the_build::<C>(machine, runs.drop_last());
        C::build_is_fixed(run_all::<C>(machine, runs.drop_last()).1.core);
    }
}

/// Steps do not change what was built.
proof fn lemma_steps_keep_the_build<C: EmulatorCore>(machine: MachineModel<C::Model>, count: nat)
    ensures
        same_build(C::facts(machine.core), C::facts(stepped_times::<C>(machine, count).core)),
    decreases count,
{
    if count > 0 {
        let before = stepped_times::<C>(machine, (count - 1) as nat);
        lemma_steps_keep_the_build::<C>(machine, (count - 1) as nat);
        C::build_is_fixed(before.core);
        C::build_is_fixed(C::ran(before.core, before.attached, Run::Step).core);
    }
}

/// A step never goes back to an older frame. A frame that a step observes is the newest one, and
/// carries the cycle at which it was observed.
pub proof fn law_frames_move_forward<C: EmulatorCore>(machine: MachineModel<C::Model>)
    ensures
        ({
            let (result, after) = stepped::<C>(machine);
            &&& machine.last_frame matches Some(old_frame) ==> after.last_frame matches Some(frame)
                && frame.sequence >= old_frame.sequence
            &&& after.last_frame != machine.last_frame ==> {
                &&& result is Ok
                &&& after.last_frame matches Some(frame)
                &&& frame.sequence == after.attached.renderer.sequence
                &&& frame.observed_at_cycle == machine_cycles::<C>(after)
                &&& after.attached.renderer.channel is None
            }
        }),
{
}

/// A machine after a number of steps.
pub open spec fn stepped_times<C: EmulatorCore>(
    machine: MachineModel<C::Model>,
    count: nat,
) -> MachineModel<C::Model>
    decreases count,
{
    if count == 0 {
        machine
    } else {
        stepped::<C>(stepped_times::<C>(machine, (count - 1) as nat)).1
    }
}

/// Steps do not touch the machine's place in its timeline: only a reset does.
pub proof fn law_steps_keep_the_offset<C: EmulatorCore>(
    machine: MachineModel<C::Model>,
    count: nat,
)
    ensures
        stepped_times::<C>(machine, count).cycle_offset == machine.cycle_offset,
    decreases count,
{
    if count > 0 {
        law_steps_keep_the_offset::<C>(machine, (count - 1) as nat);
    }
}

/// An attached image can be exported, as it was attached, and has a digest of its own. The images
/// at other IDs stay, and the ID is taken: attaching another image there is refused.
pub proof fn law_attached_image_is_exported<C: EmulatorCore>(
    machine: MachineModel<C::Model>,
    id: usize,
    image: Seq<u8>,
    other: Seq<u8>,
    snapshot: JsonModel,
)
    requires
        ids_valid(machine.attached.media),
        scsi_attached::<C>(machine, id, image).0 is Ok,
    ensures
        ({
            let after = scsi_attached::<C>(machine, id, image).1;
            &&& ids_valid(after.attached.media)
            &&& image_at(after.attached.media, id) == Some(image)
            &&& forall|k: usize|
                k != id ==> #[trigger] image_at(after.attached.media, k) == image_at(
                    machine.attached.media,
                    k,
                )
            &&& guest_digest(snapshot, after.cycle_offset, after.attached.media, disk_name(id))
                == Some(bytes_digest(image))
            &&& scsi_attached::<C>(after, id, other).0 is Err
            &&& scsi_attached::<C>(after, id, other).1 == after
        }),
{
    let after = scsi_attached::<C>(machine, id, image).1;
    lemma_ids_push(machine.attached.media, (id, image));
    law_disk_digest_is_of_the_image(snapshot, after.cycle_offset, after.attached.media, id);
}

/// Whether two machines differ in the debugger's policy alone.
pub open spec fn machines_alike<C: EmulatorCore>(
    a: MachineModel<C::Model>,
    b: MachineModel<C::Model>,
) -> bool {
    &&& C::alike(a.core, b.core)
    &&& a.cycle_offset == b.cycle_offset
    &&& a.attached == b.attached
    &&& a.last_frame == b.last_frame
}

/// Whether two machines have the same digests, or have none for one reason.
pub open spec fn same_digests<C: EmulatorCore>(
    a: MachineModel<C::Model>,
    b: MachineModel<C::Model>,
) -> bool {
    match (C::snapshot_taken(a.core), C::snapshot_taken(b.core)) {
        (Ok(x), Ok(y)) => forall|name: Seq<char>| #[trigger]
            guest_digest(x, a.cycle_offset, a.attached.media, name) == guest_digest(
                y,
                b.cycle_offset,
                b.attached.media,
                name,
            ),
        (Err(x), Err(y)) => x == y,
        _ => false,
    }
}

/// Setting or clearing a breakpoint, recording a history and taking the breakpoints that were met
/// change the debugger's policy alone.
pub proof fn law_debugger_changes_its_policy_alone<C: EmulatorCore>(
    machine: MachineModel<C::Model>,
    other: MachineModel<C::Model>,
    breakpoint: Breakpoint,
    enabled: bool,
    instructions: bool,
    traps: bool,
)
    requires
        machines_alike::<C>(machine, other),
    ensures
        machines_alike::<C>(machine, breakpoint_set::<C>(other, breakpoint, enabled)),
        machines_alike::<C>(machine, history_configured::<C>(other, instructions, traps)),
        machines_alike::<C>(machine, hits_drained::<C>(other).1),
{
    C::policy_leaves_alike(machine.core, other.core);
    C::policy_leaves_alike(
        machine.core,
        C::acted(other.core, Action::ClearBreakpoint(breakpoint)),
    );
    C::policy_leaves_alike(
        machine.core,
        C::acted(other.core, Action::EnableHistory(instructions)),
    );
    C::policy_leaves_alike(machine.core, C::acted(other.core, Action::ClearBreakpointHit));
}

/// Machines that differ in the debugger's policy alone step alike.
pub proof fn law_alike_machines_step_alike<C: EmulatorCore>(
    a: MachineModel<C::Model>,
    b: MachineModel<C::Model>,
)
    requires
        machines_alike::<C>(a, b),
    ensures
        stepped::<C>(a).0 == stepped::<C>(b).0,
        machines_alike::<C>(stepped::<C>(a).1, stepped::<C>(b).1),
{
    C::alike_runs(a.core, b.core, a.attached, Run::Step);
    let x = C::ran(a.core, a.attached, Run::Step);
    let y = C::ran(b.core, b.attached, Run::Step);
    C::alike_runs(x.core, y.core, x.attached, Run::SyncBus);
    C::alike_looks(
        C::ran(x.core, x.attached, Run::SyncBus).core,
        C::ran(y.core, y.attached, Run::SyncBus).core,
    );
}

/// Machines that differ in the debugger's policy alone have the same digests.
pub proof fn law_alike_machines_have_the_same_digests<C: EmulatorCore>(
    a: MachineModel<C::Model>,
    b: MachineModel<C::Model>,
)
    requires
        machines_alike::<C>(a, b),
    ensures
        same_digests::<C>(a, b),
{
    C::alike_looks(a.core, b.core);
    if let (Ok(x), Ok(y)) = (C::snapshot_taken(a.core), C::snapshot_taken(b.core)) {
        assert forall|name: Seq<char>| #[trigger]
            guest_digest(x, a.cycle_offset, a.attached.media, name) == guest_digest(
                y,
                b.cycle_offset,
                b.attached.media,
                name,
            ) by {
            law_debugger_policy_does_not_matter(x, y, a.cycle_offset, a.attached.media, name);
        }
    }
}

/// What a debugger observes does not show in the evidence: a machine with a breakpoint and a
/// history has the digests of one without, after any number of steps.
pub proof fn law_debugger_does_not_show<C: EmulatorCore>(
    machine: MachineModel<C::Model>,
    breakpoint: Breakpoint,
    enabled: bool,
    instructions: bool,
    traps: bool,
    count: nat,
)
    ensures
        ({
            let watched = breakpoint_set::<C>(
                history_configured::<C>(machine, instructions, traps),
                breakpoint,
                enabled,
            );
            let (a, b) = (
                stepped_times::<C>(machine, count),
                stepped_times::<C>(watched, count),
            );
            &&& machines_alike::<C>(a, b)
            &&& same_digests::<C>(a, b)
        }),
{
    let recorded = history_configured::<C>(machine, instructions, traps);
    let watched = breakpoint_set::<C>(recorded, breakpoint, enabled);
    C::policy_leaves_alike(machine.core, machine.core);
    law_debugger_changes_its_policy_alone::<C>(
        machine,
        machine,
        breakpoint,
        enabled,
        instructions,
        traps,
    );
    law_debugger_changes_its_policy_alone::<C>(
        machine,
        recorded,
        breakpoint,
        enabled,
        instructions,
        traps,
    );
    lemma_alike_steps::<C>(machine, watched, count);
    let (a, b) = (stepped_times::<C>(machine, count), stepped_times::<C>(watched, count));
    law_alike_machines_have_the_same_digests::<C>(a, b);
}

/// Machines that differ in the debugger's policy alone go on doing so.
proof fn lemma_alike_steps<C: EmulatorCore>(
    a: MachineModel<C::Model>,
    b: MachineModel<C::Model>,
    count: nat,
)
    requires
        machines_alike::<C>(a, b),
    ensures
        machines_alike::<C>(stepped_times::<C>(a, count), stepped_times::<C>(b, count)),
    decreases count,
{
    if count > 0 {
        lemma_alike_steps::<C>(a, b, (count - 1) as nat);
        law_alike_machines_step_alike::<C>(
            stepped_times::<C>(a, (count - 1) as nat),
            stepped_times::<C>(b, (count - 1) as nat),
        );
    }
}

/// The breakpoints of a machine.
pub open spec fn breakpoints_of<C: EmulatorCore>(machine: MachineModel<C::Model>) -> Seq<
    Breakpoint,
> {
    C::facts(machine.core).breakpoints
}

/// A breakpoint that is set is there once, however often it was there, and one that is cleared is
/// not there. Every other breakpoint stays, doing it again changes none, and the digests do not
/// change.
pub proof fn law_breakpoint_is_there_once<C: EmulatorCore>(
    machine: MachineModel<C::Model>,
    breakpoint: Breakpoint,
    enabled: bool,
)
    ensures
        ({
            let once = breakpoint_set::<C>(machine, breakpoint, enabled);
            let twice = breakpoint_set::<C>(once, breakpoint, enabled);
            &&& times(breakpoints_of::<C>(once), breakpoint) == if enabled {
                1nat
            } else {
                0nat
            }
            &&& forall|other: Breakpoint|
                other != breakpoint ==> #[trigger] times(breakpoints_of::<C>(once), other) == times(
                    breakpoints_of::<C>(machine),
                    other,
                )
            &&& forall|other: Breakpoint| #[trigger]
                times(breakpoints_of::<C>(twice), other) == times(breakpoints_of::<C>(once), other)
            &&& same_digests::<C>(machine, once)
        }),
{
    let once = breakpoint_set::<C>(machine, breakpoint, enabled);
    lemma_breakpoint_set::<C>(machine, breakpoint, enabled);
    lemma_breakpoint_set::<C>(once, breakpoint, enabled);
    C::policy_leaves_alike(machine.core, machine.core);
    law_debugger_changes_its_policy_alone::<C>(machine, machine, breakpoint, enabled, false, false);
    law_alike_machines_have_the_same_digests::<C>(machine, once);
}

/// How often each breakpoint is there.
proof fn lemma_breakpoint_set<C: EmulatorCore>(
    machine: MachineModel<C::Model>,
    breakpoint: Breakpoint,
    enabled: bool,
)
    ensures
        forall|other: Breakpoint| #[trigger]
            times(breakpoints_of::<C>(breakpoint_set::<C>(machine, breakpoint, enabled)), other)
                == if other != breakpoint {
                times(breakpoints_of::<C>(machine), other)
            } else if enabled {
                1nat
            } else {
                0nat
            },
{
    C::breakpoints_are_kept(machine.core, breakpoint);
    let cleared = C::acted(machine.core, Action::ClearBreakpoint(breakpoint));
    C::breakpoints_are_kept(cleared, breakpoint);
    assert forall|other: Breakpoint| #[trigger]
        times(breakpoints_of::<C>(breakpoint_set::<C>(machine, breakpoint, enabled)), other)
            == if other != breakpoint {
            times(breakpoints_of::<C>(machine), other)
        } else if enabled {
            1nat
        } else {
            0nat
        } by {
        assert(other != breakpoint ==> times(C::facts(cleared).breakpoints, other) == times(
            C::facts(machine.core).breakpoints,
            other,
        ));
    }
}

/// An inserted floppy is in the drive, clean, and protected if that was asked for. One that cannot
/// be loaded, or has no drive to go to, is refused, and the machine is as it was.
pub proof fn law_inserted_floppy_is_clean<C: EmulatorCore>(
    machine: MachineModel<C::Model>,
    drive: usize,
    image: Seq<u8>,
    seed: u64,
    write_protect: bool,
)
    ensures
        ({
            let (result, after) = floppy_added::<C>(machine, drive, image, seed, write_protect);
            let activity = C::facts(after.core).drives[drive as int];
            &&& result is Ok ==> drive < 3 && activity.present && !activity.dirty && (write_protect
                ==> activity.write_protected)
            &&& drive >= 3 ==> result == Err::<(), ErrorModel>(ErrorModel::FloppyDrive)
            &&& drive >= 3 || C::floppy_loaded(inserted_source(image, seed)) is Err ==> result
                is Err && after == machine
            &&& after.attached == machine.attached
        }),
{
    if let Ok(medium) = floppy_readied::<C>(inserted_source(image, seed), write_protect) {
        if drive < 3 {
            C::inserted_as_it_came(machine.core, drive, medium);
        }
    }
}

/// Inserting a floppy is repeatable: machines that differ in the debugger's policy alone take the
/// same image from the same seed with the same outcome, go on differing in that alone, and have
/// the same digests and the same floppy to export.
pub proof fn law_inserting_a_floppy_is_repeatable<C: EmulatorCore>(
    a: MachineModel<C::Model>,
    b: MachineModel<C::Model>,
    drive: usize,
    image: Seq<u8>,
    seed: u64,
    write_protect: bool,
)
    requires
        machines_alike::<C>(a, b),
    ensures
        ({
            let (x, after_a) = floppy_added::<C>(a, drive, image, seed, write_protect);
            let (y, after_b) = floppy_added::<C>(b, drive, image, seed, write_protect);
            &&& x == y
            &&& machines_alike::<C>(after_a, after_b)
            &&& same_digests::<C>(after_a, after_b)
            &&& floppy_exported::<C>(after_a, drive) == floppy_exported::<C>(after_b, drive)
        }),
{
    let (_, after_a) = floppy_added::<C>(a, drive, image, seed, write_protect);
    let (_, after_b) = floppy_added::<C>(b, drive, image, seed, write_protect);
    let readied = floppy_readied::<C>(inserted_source(image, seed), write_protect);
    C::alike_floppies(a.core, b.core, drive, readied->Ok_0);
    C::alike_floppies(after_a.core, after_b.core, drive, readied->Ok_0);
    law_alike_machines_have_the_same_digests::<C>(after_a, after_b);
}

/// Setting the program counter to an odd address is refused, and changes nothing. Setting it to an
/// even one goes there and takes time, as far as the counters can count it. Any other register
/// holds what was written, and no time passes.
pub proof fn law_register_edits_take_time_for_pc_alone<C: EmulatorCore>(
    machine: MachineModel<C::Model>,
    register: Register,
    value: u32,
)
    ensures
        ({
            let (result, after) = register_written::<C>(machine, register, value);
            let facts = C::facts(after.core);
            if !(register is PC) {
                &&& result is Ok
                &&& machine_cycles::<C>(after) == machine_cycles::<C>(machine)
                &&& register_value(facts.registers, register) is Some ==> register_value(
                    facts.registers,
                    register,
                ) == Some(value)
                &&& after == with_core(machine, after.core)
            } else if value % 2 != 0 {
                &&& result == Err::<(), ErrorModel>(ErrorModel::UnalignedPc)
                &&& after == machine
            } else {
                result is Ok ==> {
                    &&& facts.registers.pc == value
                    &&& C::facts(machine.core).cycles <= u64::MAX - u32::MAX
                        && machine.cycle_offset + facts.cycles <= u64::MAX ==> machine_cycles::<C>(
                        after,
                    ) > machine_cycles::<C>(machine)
                }
            }
        }),
{
    let runs = seq![Run::SetPc(value), Run::RefillPrefetch, Run::SyncBus];
    reveal_with_fuel(run_all, 4);
    assert(runs.drop_last() =~= seq![Run::SetPc(value), Run::RefillPrefetch]);
    assert(runs.drop_last().drop_last() =~= seq![Run::SetPc(value)]);
    assert(runs.drop_last().drop_last().drop_last() =~= Seq::empty());
    C::jump_goes_there(machine.core, machine.attached, value);
    C::written_register_holds(machine.core, register, value);
}

/// A detached image is gone, and the images at other IDs stay. Detaching once more changes
/// nothing, and on a model with SCSI another image can take the place.
pub proof fn law_detached_image_is_gone<C: EmulatorCore>(
    machine: MachineModel<C::Model>,
    id: usize,
    image: Seq<u8>,
)
    requires
        ids_valid(machine.attached.media),
        id < 7,
    ensures
        ({
            let (result, after) = scsi_detached::<C>(machine, id);
            &&& result is Ok
            &&& ids_valid(after.attached.media)
            &&& image_at(after.attached.media, id) is None
            &&& forall|k: usize|
                k != id ==> #[trigger] image_at(after.attached.media, k) == image_at(
                    machine.attached.media,
                    k,
                )
            &&& scsi_detached::<C>(after, id) == (Ok::<(), ErrorModel>(()), after)
            &&& C::model_known(C::facts(machine.core).model).has_scsi && image.len() > 0
                && image.len() % 512 == 0 ==> scsi_attached::<C>(after, id, image).0 is Ok
        }),
{
    law_removal_is_exact(machine.attached.media, id);
    law_removal_is_final(machine.attached.media, id);
    C::detaching_frees_the_id(machine.core, id, BytesModel { bytes: image });
    C::build_is_fixed(machine.core);
}

/// A CD-ROM drive takes the place of what was at its ID: its disc can be exported, and without a
/// disc there is nothing to export. The images at other IDs stay.
pub proof fn law_cdrom_replaces_the_device<C: EmulatorCore>(
    machine: MachineModel<C::Model>,
    id: usize,
    disc: Option<Seq<u8>>,
)
    requires
        ids_valid(machine.attached.media),
        cdrom_attached::<C>(machine, id, disc).0 is Ok,
    ensures
        ({
            let after = cdrom_attached::<C>(machine, id, disc).1;
            &&& ids_valid(after.attached.media)
            &&& image_at(after.attached.media, id) == disc
            &&& forall|k: usize|
                k != id ==> #[trigger] image_at(after.attached.media, k) == image_at(
                    machine.attached.media,
                    k,
                )
        }),
{
    law_removal_is_exact(machine.attached.media, id);
    let rest = media_without(machine.attached.media, id);
    if let Some(image) = disc {
        lemma_ids_push(rest, (id, image));
        assert forall|k: usize| k != id implies #[trigger] image_at(
            cdrom_attached::<C>(machine, id, disc).1.attached.media,
            k,
        ) == image_at(machine.attached.media, k) by {
            assert(image_at(rest, k) == image_at(machine.attached.media, k));
        }
    }
}

/// A request that is refused before it reaches the hardware changes nothing.
pub proof fn law_refused_requests_change_nothing<C: EmulatorCore>(
    machine: MachineModel<C::Model>,
    id: usize,
    image: Seq<u8>,
    disc: Option<Seq<u8>>,
    action: Action,
    register: Register,
    value: u32,
    seed: u64,
    write_protect: bool,
)
    ensures
        scsi_attached::<C>(machine, id, image).0 matches Err(error) ==> error is Core
            || scsi_attached::<C>(machine, id, image).1 == machine,
        cdrom_attached::<C>(machine, id, disc).0 matches Err(error) ==> error is Core
            || cdrom_attached::<C>(machine, id, disc).1 == machine,
        scsi_detached::<C>(machine, id).0 is Err ==> scsi_detached::<C>(machine, id).1 == machine,
        floppy_added::<C>(machine, id, image, seed, write_protect).0 matches Err(error) ==> error
            is Core || floppy_added::<C>(machine, id, image, seed, write_protect).1 == machine,
        drive_acted::<C>(machine, id, action).0 is Err ==> drive_acted::<C>(machine, id, action).1
            == machine,
        register_written::<C>(machine, register, value).0 matches Err(error) ==> error is Core
            || register_written::<C>(machine, register, value).1 == machine,
{
    reveal_with_fuel(run_all, 4);
    let runs = seq![Run::SetPc(value), Run::RefillPrefetch, Run::SyncBus];
    assert(runs.drop_last() =~= seq![Run::SetPc(value), Run::RefillPrefetch]);
    assert(runs.drop_last().drop_last() =~= seq![Run::SetPc(value)]);
    assert(runs.drop_last().drop_last().drop_last() =~= Seq::empty());
}

} // verus!
