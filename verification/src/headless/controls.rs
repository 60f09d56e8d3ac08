//! Edits and controls at instruction boundaries.

use vstd::prelude::*;

use crate::floppy::noise::{seeded_noise, Noise};
use crate::headless::emulator::{
    frames_model, Action, AttachedModel, Attempt, AttemptModel, BytesModel, EmulatorCore,
    FloppySource, Offer, Run,
};
use crate::headless::error::{outcome, ErrorModel, HeadlessError};
use crate::headless::machine::{
    floppy_readied, machine_cycles, ready_floppy, run_on, with_core, HeadlessMachine, MachineModel,
};
use crate::headless::media::{
    find_image, image_at, law_removal_is_exact, lemma_ids_push,
    media_without, remove_images, same_shape, MemoryDisk,
};
use crate::headless::types::{Family, MouseMode, Register, SccCh};

verus! {

/// The outcome of running the hardware several times until it fails, and the machine after it.
pub open spec fn run_all<C: EmulatorCore>(machine: MachineModel<C::Model>, runs: Seq<Run>) -> (
    Result<(), ErrorModel>,
    MachineModel<C::Model>,
)
    decreases runs.len(),
{
    if runs.len() == 0 {
        (Ok(()), machine)
    } else {
        match run_all::<C>(machine, runs.drop_last()) {
            (Err(error), after) => (Err(error), after),
            (Ok(()), after) => run_on::<C>(after, runs.last()),
        }
    }
}

/// The outcome of editing a register, and the machine after it.
pub open spec fn register_written<C: EmulatorCore>(
    machine: MachineModel<C::Model>,
    register: Register,
    value: u32,
) -> (Result<(), ErrorModel>, MachineModel<C::Model>) {
    if !(register is PC) {
        (
            Ok(()),
            with_core(machine, C::acted(machine.core, Action::WriteRegister(register, value))),
        )
    } else if value % 2 != 0 {
        (Err(ErrorModel::UnalignedPc), machine)
    } else {
        run_all::<C>(machine, seq![Run::SetPc(value), Run::RefillPrefetch, Run::SyncBus])
    }
}

/// The outcome of a reset, and the machine after it.
pub open spec fn was_reset<C: EmulatorCore>(machine: MachineModel<C::Model>) -> (
    Result<(), ErrorModel>,
    MachineModel<C::Model>,
) {
    let released = with_core(machine, C::acted(machine.core, Action::ReleaseInputs));
    match run_on::<C>(released, Run::ResetBus) {
        (Err(error), after) => (Err(error), after),
        (Ok(()), after) => {
            let after = MachineModel { cycle_offset: machine_cycles::<C>(machine), ..after };
            match run_all::<C>(after, seq![Run::ResetCpu, Run::SyncBus]) {
                (Err(error), after) => (Err(error), after),
                (Ok(()), after) => (Ok(()), MachineModel { last_frame: None, ..after }),
            }
        },
    }
}

/// The outcome of something that the hardware can refuse, and the machine after it.
pub open spec fn attempted_on<C: EmulatorCore>(
    machine: MachineModel<C::Model>,
    attempt: AttemptModel,
) -> (Result<(), ErrorModel>, MachineModel<C::Model>) {
    match C::attempted(machine.core, attempt) {
        (Ok(()), core) => (Ok(()), with_core(machine, core)),
        (Err(error), core) => (Err(ErrorModel::Core(error)), with_core(machine, core)),
    }
}

/// What an inserted floppy is loaded from.
pub open spec fn inserted_source(image: Seq<u8>, seed: u64) -> FloppySource {
    FloppySource { image, name: "inserted"@, noise: seeded_noise(seed) }
}

/// The outcome of inserting a floppy, and the machine after it.
pub open spec fn floppy_added<C: EmulatorCore>(
    machine: MachineModel<C::Model>,
    drive: usize,
    image: Seq<u8>,
    seed: u64,
    write_protect: bool,
) -> (Result<(), ErrorModel>, MachineModel<C::Model>) {
    if drive >= 3 {
        (Err(ErrorModel::FloppyDrive), machine)
    } else {
        match floppy_readied::<C>(inserted_source(image, seed), write_protect) {
            Err(error) => (Err(ErrorModel::Core(error)), machine),
            Ok(medium) => match C::floppy_inserted(machine.core, drive, medium) {
                (Ok(()), core) => (Ok(()), with_core(machine, core)),
                (Err(error), core) => (Err(ErrorModel::Core(error)), with_core(machine, core)),
            },
        }
    }
}

/// The outcome of an action on a floppy drive, and the machine after it.
pub open spec fn drive_acted<C: EmulatorCore>(
    machine: MachineModel<C::Model>,
    drive: usize,
    action: Action,
) -> (Result<(), ErrorModel>, MachineModel<C::Model>) {
    if drive < 3 {
        (Ok(()), with_core(machine, C::acted(machine.core, action)))
    } else {
        (Err(ErrorModel::FloppyDrive), machine)
    }
}

/// The outcome of saving a floppy.
pub open spec fn floppy_exported<C: EmulatorCore>(
    machine: MachineModel<C::Model>,
    drive: usize,
) -> Result<BytesModel, ErrorModel> {
    if !(drive < 3 && C::facts(machine.core).drives[drive as int].present) {
        Err(ErrorModel::FloppyUnavailable)
    } else {
        match C::floppy_saved(machine.core, drive) {
            Ok(bytes) => Ok(bytes),
            Err(error) => Err(ErrorModel::Core(error)),
        }
    }
}

/// A machine after the device at an ID has been detached.
pub open spec fn without_device<C: EmulatorCore>(
    machine: MachineModel<C::Model>,
    id: usize,
) -> MachineModel<C::Model> {
    MachineModel {
        core: C::acted(machine.core, Action::DetachScsi(id)),
        attached: AttachedModel {
            media: media_without(machine.attached.media, id),
            ..machine.attached
        },
        ..machine
    }
}

/// The outcome of detaching a device, and the machine after it.
pub open spec fn scsi_detached<C: EmulatorCore>(machine: MachineModel<C::Model>, id: usize) -> (
    Result<(), ErrorModel>,
    MachineModel<C::Model>,
) {
    if id < 7 {
        (Ok(()), without_device::<C>(machine, id))
    } else {
        (Err(ErrorModel::ScsiRange), machine)
    }
}

/// The outcome of attaching a CD-ROM drive, and the machine after it.
pub open spec fn cdrom_attached<C: EmulatorCore>(
    machine: MachineModel<C::Model>,
    id: usize,
    disc: Option<Seq<u8>>,
) -> (Result<(), ErrorModel>, MachineModel<C::Model>) {
    if !(id < 7 && C::model_known(C::facts(machine.core).model).has_scsi) {
        (Err(ErrorModel::ScsiUnavailable), machine)
    } else if disc matches Some(image) && (image.len() == 0 || image.len() % 2048 != 0) {
        (Err(ErrorModel::DiscSectors), machine)
    } else {
        let detached = without_device::<C>(machine, id);
        let drive = with_core(detached, C::acted(detached.core, Action::AttachCdrom(id)));
        match disc {
            None => (Ok(()), drive),
            Some(image) => match attempted_on::<C>(drive, AttemptModel::InsertDisc { id, image }) {
                (Err(error), after) => (Err(error), after),
                (Ok(()), after) => (
                    Ok(()),
                    MachineModel {
                        attached: AttachedModel {
                            media: after.attached.media.push((id, image)),
                            ..after.attached
                        },
                        ..after
                    },
                ),
            },
        }
    }
}

impl<C: EmulatorCore> HeadlessMachine<C> {
    /// Ask the hardware for something that it can refuse.
    fn attempt(&mut self, attempt: Attempt<'_>) -> (result: Result<(), HeadlessError>)
        requires
            old(self).well_formed(),
        ensures
            final(self).well_formed(),
            (outcome(result), final(self)@) == attempted_on::<C>(old(self)@, attempt@),
            final(self).attached == old(self).attached,
    {
        match self.core.attempt(attempt) {
            Ok(()) => Ok(()),
            Err(error) => Err(HeadlessError::Core(error)),
        }
    }

    /// The same register edits as a debugger makes. Setting PC refills prefetch and consumes
    /// cycles.
    pub fn write_register(&mut self, register: Register, value: u32) -> (result: Result<
        (),
        HeadlessError,
    >)
        requires
            old(self).well_formed(),
        ensures
            final(self).well_formed(),
            (outcome(result), final(self)@) == register_written::<C>(
                old(self)@,
                register,
                value,
            ),
            same_shape(old(self)@.attached.media, final(self)@.attached.media),
    {
        if register == Register::PC {
            if value % 2 != 0 {
                return Err(HeadlessError::UnalignedPc);
            }
            let ghost runs = seq![Run::SetPc(value), Run::RefillPrefetch, Run::SyncBus];
            proof {
                assert(runs.drop_last() =~= seq![Run::SetPc(value), Run::RefillPrefetch]);
                assert(runs.drop_last().drop_last() =~= seq![Run::SetPc(value)]);
                assert(runs.drop_last().drop_last().drop_last() =~= Seq::empty());
                reveal_with_fuel(run_all, 4);
            }
            if let Err(error) = self.run(Run::SetPc(value)) {
                return Err(error);
            }
            if let Err(error) = self.run(Run::RefillPrefetch) {
                return Err(error);
            }
            self.run(Run::SyncBus)
        } else {
            self.core.act(Action::WriteRegister(register, value));
            Ok(())
        }
    }

    /// Resolve a physical CPU-bus address to a backing-RAM offset without side effects.
    pub fn ram_address(&self, address: u32) -> (offset: Option<u32>)
        ensures
            offset == C::ram_offset(self@.core, address),
    {
        self.core.find_in_ram(address)
    }

    /// Writes one inspected byte; RAM mode avoids overlays and updates dirty/video bookkeeping.
    pub fn write_memory_byte(&mut self, address: u32, value: u8, backing_ram: bool) -> (written:
        Option<()>)
        requires
            old(self).well_formed(),
        ensures
            final(self).well_formed(),
            ({
                let offer = if backing_ram {
                    Offer::WriteRam { address, value }
                } else {
                    Offer::WriteMemory { address, value }
                };
                &&& written is Some == C::offered(old(self)@.core, offer).0
                &&& final(self)@ == with_core(
                    old(self)@,
                    C::offered(old(self)@.core, offer).1,
                )
            }),
            written is None ==> final(self)@ == old(self)@,
            written is Some && backing_ram ==> {
                let ram = C::facts(old(self)@.core).ram;
                &&& address < ram.len()
                &&& C::facts(final(self)@.core).ram == ram.update(address as int, value)
            },
    {
        proof {
            C::offers_are_taken_or_left(self@.core, Offer::WriteRam { address, value });
            C::offers_are_taken_or_left(self@.core, Offer::WriteMemory { address, value });
        }
        let done = if backing_ram {
            self.core.offer(Offer::WriteRam { address, value })
        } else {
            self.core.offer(Offer::WriteMemory { address, value })
        };
        if done {
            Some(())
        } else {
            None
        }
    }

    /// A hard bus/CPU reset, with a monotonic external cycle timeline.
    pub fn reset(&mut self) -> (result: Result<(), HeadlessError>)
        requires
            old(self).well_formed(),
        ensures
            final(self).well_formed(),
            (outcome(result), final(self)@) == was_reset::<C>(old(self)@),
            same_shape(old(self)@.attached.media, final(self)@.attached.media),
    {
        let previous: u64 = self.cycles();
        self.core.act(Action::ReleaseInputs);
        if let Err(error) = self.run(Run::ResetBus) {
            return Err(error);
        }
        self.cycle_offset = previous;
        let ghost runs = seq![Run::ResetCpu, Run::SyncBus];
        proof {
            assert(runs.drop_last() =~= seq![Run::ResetCpu]);
            assert(runs.drop_last().drop_last() =~= Seq::empty());
            reveal_with_fuel(run_all, 3);
        }
        if let Err(error) = self.run(Run::ResetCpu) {
            return Err(error);
        }
        if let Err(error) = self.run(Run::SyncBus) {
            return Err(error);
        }
        self.last_frame = None;
        Ok(())
    }

    /// Press the programmer's key.
    pub fn programmer_key(&mut self)
        requires
            old(self).well_formed(),
        ensures
            final(self).well_formed(),
            final(self)@ == with_core(
                old(self)@,
                C::acted(old(self)@.core, Action::ProgrammerKey),
            ),
    {
        self.core.act(Action::ProgrammerKey);
    }

    /// Choose how the host's mouse moves the guest's.
    pub fn mouse_mode(&mut self, mode: MouseMode)
        requires
            old(self).well_formed(),
        ensures
            final(self).well_formed(),
            final(self)@ == with_core(
                old(self)@,
                C::acted(old(self)@.core, Action::SetMouseMode(mode)),
            ),
    {
        self.core.act(Action::SetMouseMode(mode));
    }

    /// Choose the frequency of the bus.
    pub fn bus_frequency(&mut self, hz: u64)
        requires
            old(self).well_formed(),
        ensures
            final(self).well_formed(),
            final(self)@ == with_core(
                old(self)@,
                C::acted(old(self)@.core, Action::SetBusFrequency(hz)),
            ),
    {
        self.core.act(Action::SetBusFrequency(hz));
    }

    /// Show the framebuffers that are not on the screen, on models that have such.
    pub fn debug_framebuffers(&mut self, enabled: bool) -> (result: Result<(), HeadlessError>)
        requires
            old(self).well_formed(),
        ensures
            final(self).well_formed(),
            (outcome(result), final(self)@) == if C::facts(old(self)@.core).family is Compact {
                (
                    Ok(()),
                    with_core(
                        old(self)@,
                        C::acted(old(self)@.core, Action::ShowFramebuffers(enabled)),
                    ),
                )
            } else {
                (Err(ErrorModel::NotCompact), old(self)@)
            },
    {
        if self.core.family() == Family::Compact {
            self.core.act(Action::ShowFramebuffers(enabled));
            Ok(())
        } else {
            Err(HeadlessError::NotCompact)
        }
    }

    /// All floppy loaders use this session's explicit padding/weak-bit noise.
    pub fn insert_floppy(&mut self, drive: usize, bytes: &[u8], seed: u64, write_protect: bool) -> (
    result: Result<(), HeadlessError>)
        requires
            old(self).well_formed(),
        ensures
            final(self).well_formed(),
            (outcome(result), final(self)@) == floppy_added::<C>(
                old(self)@,
                drive,
                bytes@,
                seed,
                write_protect,
            ),
            result is Ok ==> {
                let activity = C::facts(final(self)@.core).drives[drive as int];
                &&& activity.present
                &&& !activity.dirty
                &&& write_protect ==> activity.write_protected
            },
    {
        if drive >= 3 {
            return Err(HeadlessError::FloppyDrive);
        }
        let medium = match ready_floppy::<C>(
            bytes,
            "inserted",
            Noise::seeded(seed),
            write_protect,
        ) {
            Err(error) => {
                return Err(HeadlessError::Core(error));
            },
            Ok(medium) => medium,
        };
        proof {
            C::inserted_as_it_came(
                self@.core,
                drive,
                floppy_readied::<C>(inserted_source(bytes@, seed), write_protect)->Ok_0,
            );
        }
        match self.core.insert_floppy(drive, medium) {
            Ok(()) => Ok(()),
            Err(error) => Err(HeadlessError::Core(error)),
        }
    }

    /// Eject the floppy in a drive.
    pub fn eject_floppy(&mut self, drive: usize) -> (result: Result<(), HeadlessError>)
        requires
            old(self).well_formed(),
        ensures
            final(self).well_formed(),
            (outcome(result), final(self)@) == drive_acted::<C>(
                old(self)@,
                drive,
                Action::EjectFloppy(drive),
            ),
    {
        if drive >= 3 {
            return Err(HeadlessError::FloppyDrive);
        }
        self.core.act(Action::EjectFloppy(drive));
        Ok(())
    }

    /// Save the floppy in a drive.
    pub fn export_floppy(&self, drive: usize) -> (result: Result<Vec<u8>, HeadlessError>)
        ensures
            match floppy_exported::<C>(self@, drive) {
                Ok(model) => result matches Ok(bytes) && bytes@ == model.bytes,
                Err(error) => result matches Err(refusal) && refusal@ == error,
            },
    {
        if drive >= 3 {
            return Err(HeadlessError::FloppyUnavailable);
        }
        if !self.core.drive(drive).present {
            return Err(HeadlessError::FloppyUnavailable);
        }
        match self.core.save_floppy(drive) {
            Ok(bytes) => Ok(bytes),
            Err(error) => Err(HeadlessError::Core(error)),
        }
    }

    /// Change how fast a drive spins.
    pub fn floppy_rpm(&mut self, drive: usize, adjustment: i32) -> (result: Result<
        (),
        HeadlessError,
    >)
        requires
            old(self).well_formed(),
        ensures
            final(self).well_formed(),
            (outcome(result), final(self)@) == drive_acted::<C>(
                old(self)@,
                drive,
                Action::SetFloppyRpm(drive, adjustment),
            ),
    {
        if drive >= 3 {
            return Err(HeadlessError::FloppyDrive);
        }
        self.core.act(Action::SetFloppyRpm(drive, adjustment));
        Ok(())
    }

    /// Detach the device at an ID, and forget its image.
    pub fn detach_scsi(&mut self, id: usize) -> (result: Result<(), HeadlessError>)
        requires
            old(self).well_formed(),
        ensures
            final(self).well_formed(),
            (outcome(result), final(self)@) == scsi_detached::<C>(old(self)@, id),
    {
        if id >= 7 {
            return Err(HeadlessError::ScsiRange);
        }
        self.core.act(Action::DetachScsi(id));
        proof {
            law_removal_is_exact(self@.attached.media, id);
        }
        remove_images(&mut self.attached.media, id);
        Ok(())
    }

    /// Attach a CD-ROM drive, in place of what is at the ID, with or without a disc.
    pub fn attach_cdrom(&mut self, id: usize, bytes: Option<Vec<u8>>) -> (result: Result<
        (),
        HeadlessError,
    >)
        requires
            old(self).well_formed(),
        ensures
            final(self).well_formed(),
            (outcome(result), final(self)@) == cdrom_attached::<C>(
                old(self)@,
                id,
                match bytes {
                    Some(image) => Some(image@),
                    None => None,
                },
            ),
    {
        let facts = C::known_model(self.core.mac_model());
        if !(id < 7 && facts.has_scsi) {
            return Err(HeadlessError::ScsiUnavailable);
        }
        if let Some(data) = &bytes {
            if data.len() == 0 || data.len() % 2048 != 0 {
                return Err(HeadlessError::DiscSectors);
            }
        }
        if let Err(error) = self.detach_scsi(id) {
            return Err(error);
        }
        self.core.act(Action::AttachCdrom(id));
        if let Some(bytes) = bytes {
            let disk = MemoryDisk { bytes };
            if let Err(error) = self.attempt(Attempt::InsertDisc { id, disk: &disk }) {
                return Err(error);
            }
            proof {
                law_removal_is_exact(old(self)@.attached.media, id);
                lemma_ids_push(self@.attached.media, (id, disk@));
            }
            let ghost media = self@.attached.media;
            self.attached.media.push((id, disk));
            assert(self@.attached.media =~= media.push((id, bytes@)));
        }
        Ok(())
    }

    /// What the private block image at an ID holds.
    pub fn export_scsi(&self, id: usize) -> (result: Result<Vec<u8>, HeadlessError>)
        ensures
            match image_at(self@.attached.media, id) {
                Some(image) => result matches Ok(bytes) && bytes@ == image,
                None => result matches Err(refusal) && refusal@ == ErrorModel::NoImage,
            },
    {
        match find_image(&self.attached.media, id) {
            None => Err(HeadlessError::NoImage),
            Some(disk) => {
                let bytes = disk.read_bytes(0, disk.byte_len());
                assert(disk@.subrange(0, disk@.len() as int) =~= disk@);
                Ok(bytes)
            },
        }
    }

    /// Inject bytes or a complete SDLC frame at this stopped guest boundary.
    /// Returns receiver readiness before delivery, not an acceptance acknowledgement.
    /// Native SCC rules may queue SDLC frames while busy or drop data while disabled.
    pub fn serial_receive(&mut self, channel: SccCh, data: &[u8], frame: bool) -> (ready: bool)
        requires
            old(self).well_formed(),
        ensures
            final(self).well_formed(),
            ready == C::receiver_ready(old(self)@.core, channel),
            final(self)@ == with_core(
                old(self)@,
                C::received(old(self)@.core, channel, BytesModel { bytes: data@ }, frame),
            ),
    {
        let ready = self.core.is_receiver_ready(channel);
        self.core.receive(channel, data, frame);
        ready
    }

    /// Raise or drop the carrier of a serial channel.
    pub fn serial_dcd(&mut self, channel: SccCh, asserted: bool)
        requires
            old(self).well_formed(),
        ensures
            final(self).well_formed(),
            final(self)@ == with_core(
                old(self)@,
                C::acted(old(self)@.core, Action::SetDcd(channel, asserted)),
            ),
    {
        self.core.act(Action::SetDcd(channel, asserted));
    }

    /// Drain output explicitly; the harness records this operation for replay.
    pub fn serial_take(&mut self, channel: SccCh) -> (output: (Vec<u8>, Vec<Vec<u8>>))
        requires
            old(self).well_formed(),
        ensures
            final(self).well_formed(),
            ({
                let (bytes, core) = C::sent(old(self)@.core, channel);
                let (frames, core) = C::frames_sent(core, channel);
                &&& output.0@ == bytes.bytes
                &&& frames_model(output.1@) == frames
                &&& final(self)@ == with_core(old(self)@, core)
            }),
    {
        let bytes = self.core.take_sent(channel);
        let frames = self.core.take_frames_sent(channel);
        (bytes, frames)
    }
}

} // verus!
