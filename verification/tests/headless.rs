//! A machine around a small Plus: enough of a processor to run what the tests put into it.

use snow_core::bus::SparseBus;
use snow_core::cpu_m68k::cpu::{
    CpuM68k, HistoryEntry, RegisterFile, FPU_M68882, HISTORY_CAPACITY, M68000, M68020, M68030,
};
use snow_core::cpu_m68k::pmmu::inspect::{
    AtcPage, InspectError, InspectionModel, TranslationInspection, TranslationMode,
    TranslationQuery,
};
use snow_core::cpu_m68k::pmmu::regs::{RootPointerReg, TcReg};
use snow_core::cpu_m68k::pmmu::walk::WalkFailureKind;
use snow_core::floppy::loaders::raw::{RawImage, RawLoad};
use snow_core::floppy::noise::Noise;
use snow_core::headless::digest::Digests;
use snow_core::headless::emulator::{
    Action, AtcPageModel, Attached, AttachedModel, Attempt, AttemptModel, Blueprint,
    BlueprintModel, BytesModel, CoreError, CoreErrorModel, EmulatorCore, Facts, FloppySource,
    FramesModel, HitsModel, Offer, Run, RunModel,
};
use snow_core::headless::error::HeadlessError;
use snow_core::headless::json::{JsonModel, JsonValue};
use snow_core::headless::machine::{HeadlessMachine, HeadlessPlus};
use snow_core::headless::media::{FloppyMedium, MediumModel};
use snow_core::headless::types::{
    Breakpoint, BreakpointHit, BusBreakpoint, DebuggableProperty, DriveActivity, ExtraROMs, Family,
    HeadlessConfig, KeyEvent, MacModel, ModelFacts, ModelFactsModel, MouseMode, Register, SccCh,
    SystrapHistoryEntry, MAX_BREAKPOINT_HITS,
};
use snow_core::renderer::channel::{ChannelRenderer, RendererModel};

const MODELS: [MacModel; 14] = [
    MacModel::Early128K,
    MacModel::Early512K,
    MacModel::Early512Ke,
    MacModel::Plus,
    MacModel::SE,
    MacModel::SeFdhd,
    MacModel::Classic,
    MacModel::Portable,
    MacModel::Portable15MB,
    MacModel::MacII,
    MacModel::MacIIFDHD,
    MacModel::MacIIx,
    MacModel::MacIIcx,
    MacModel::SE30,
];

struct FloppyImage {
    bytes: Vec<u8>,
    padding: Vec<u8>,
    noise: Noise,
}

struct MiniMac {
    model: MacModel,
    cpu: CpuM68k<SparseBus, { u32::MAX }, M68030, FPU_M68882, true>,
    cycles: u64,
    ram: Vec<u8>,
    rom: Vec<u8>,
    overlay: bool,
    seed: u64,
    seconds: u32,
    floppies: [Option<FloppyMedium<FloppyImage>>; 3],
    rpm: [i32; 3],
    breakpoints: Vec<Breakpoint>,
    hits: Vec<BreakpointHit>,
    dropped: u64,
    instructions: bool,
    instruction_count: u64,
    history: Vec<HistoryEntry>,
    traps: bool,
    trap_history: Vec<SystrapHistoryEntry>,
    properties: Vec<DebuggableProperty>,
    log: Vec<Action>,
    received: Vec<(SccCh, Vec<u8>, bool)>,
    sent: Vec<u8>,
    sent_frames: Vec<Vec<u8>>,
}

impl MiniMac {
    fn byte(&self, address: u32) -> Option<u8> {
        let rom_mask = self.rom.len() as u32 - 1;
        let ram_mask = self.ram.len() as u32 - 1;
        match address & 0xFF_FFFF {
            low @ 0..=0x3F_FFFF if self.overlay => Some(self.rom[(low & rom_mask) as usize]),
            low @ 0..=0x3F_FFFF => Some(self.ram[(low & ram_mask) as usize]),
            low @ 0x40_0000..=0x57_FFFF => Some(self.rom[(low & rom_mask) as usize]),
            low @ 0x60_0000..=0x7F_FFFF if self.overlay => {
                Some(self.ram[(low & ram_mask) as usize])
            }
            low @ 0xF0_0000.. if self.family() == Family::Portable => {
                Some(self.rom[(low & rom_mask) as usize])
            }
            _ => None,
        }
    }

    fn fetch(&mut self, address: u32) -> u8 {
        let byte = self.byte(address).unwrap_or(0xFF);
        for breakpoint in &self.breakpoints {
            if *breakpoint == Breakpoint::Bus(BusBreakpoint::Read, address) {
                if self.hits.len() < MAX_BREAKPOINT_HITS {
                    self.hits.push(BreakpointHit {
                        breakpoint: *breakpoint,
                        cycle: self.cycles,
                        value: Some(u32::from(byte)),
                    });
                } else {
                    self.dropped += 1;
                }
            }
        }
        byte
    }

    fn long(&self, address: u32) -> u32 {
        (0..4).fold(0, |word, i| {
            word << 8 | u32::from(self.byte(address + i).unwrap_or(0))
        })
    }

    fn execute(&mut self) -> Result<(), CoreError> {
        let pc = self.cpu.regs.pc;
        let opcode = [self.fetch(pc), self.fetch(pc + 1)];
        self.cycles += 4;
        if self.instructions {
            self.instruction_count += 1;
            if self.history.len() >= HISTORY_CAPACITY {
                self.history.remove(0);
            }
            self.history.push(HistoryEntry::Instruction { pc });
        }
        match opcode {
            [0x70, value] => {
                self.cpu.regs.d[0] = value as i8 as u32;
                self.cpu.regs.pc = pc + 2;
            }
            [0x52, 0x80] => {
                self.cpu.regs.d[0] = self.cpu.regs.d[0].wrapping_add(1);
                self.cpu.regs.pc = pc + 2;
            }
            [0x4E, 0xF9] => {
                self.cpu.regs.pc = self.long(pc + 2);
            }
            [0x60, offset] => {
                self.cpu.regs.pc = (pc + 2).wrapping_add(offset as i8 as u32);
            }
            _ => {
                return Err(CoreError {
                    message: format!("Unimplemented opcode at {pc:X}"),
                })
            }
        }
        Ok(())
    }
}

fn object(members: Vec<(&str, JsonValue)>) -> JsonValue {
    JsonValue::Object(
        members
            .into_iter()
            .map(|(key, value)| (key.to_string(), value))
            .collect(),
    )
}

fn number(value: u64) -> JsonValue {
    JsonValue::Unsigned(value)
}

impl EmulatorCore for MiniMac {
    type Model = ();
    type Image = FloppyImage;
    type ImageModel = ();

    fn model(&self) {}
    fn image_value(_image: FloppyImage) {}
    fn alike(_a: (), _b: ()) -> bool {
        unreachable!()
    }
    fn facts(_core: ()) -> Facts {
        unreachable!()
    }
    fn model_known(_model: MacModel) -> ModelFactsModel {
        unreachable!()
    }
    fn built(
        _plan: BlueprintModel,
        _renderer: RendererModel,
    ) -> (Result<(), CoreErrorModel>, RendererModel) {
        unreachable!()
    }
    fn ran(_core: (), _attached: AttachedModel, _run: Run) -> RunModel<()> {
        unreachable!()
    }
    fn acted(_core: (), _action: Action) {}
    fn attempted(_core: (), _attempt: AttemptModel) -> (Result<(), CoreErrorModel>, ()) {
        unreachable!()
    }
    fn offered(_core: (), _offer: Offer) -> (bool, ()) {
        unreachable!()
    }
    fn received(_core: (), _channel: SccCh, _data: BytesModel, _frame: bool) {}
    fn receiver_ready(_core: (), _channel: SccCh) -> bool {
        unreachable!()
    }
    fn sent(_core: (), _channel: SccCh) -> (BytesModel, ()) {
        unreachable!()
    }
    fn frames_sent(_core: (), _channel: SccCh) -> (FramesModel, ()) {
        unreachable!()
    }
    fn hits_taken(_core: ()) -> (HitsModel, ()) {
        unreachable!()
    }
    fn byte_at(_core: (), _address: u32) -> Option<u8> {
        unreachable!()
    }
    fn ram_offset(_core: (), _address: u32) -> Option<u32> {
        unreachable!()
    }
    fn translation(
        _core: (),
        _query: TranslationQuery,
    ) -> Result<InspectionModel, InspectError> {
        unreachable!()
    }
    fn atc_page(
        _core: (),
        _start: usize,
        _scan_limit: usize,
        _entry_limit: usize,
    ) -> Result<AtcPageModel, InspectError> {
        unreachable!()
    }
    fn floppy_loaded(_source: FloppySource) -> Result<MediumModel<()>, CoreErrorModel> {
        unreachable!()
    }
    fn floppy_inserted(
        _core: (),
        _drive: usize,
        _medium: MediumModel<()>,
    ) -> (Result<(), CoreErrorModel>, ()) {
        unreachable!()
    }
    fn floppy_saved(_core: (), _drive: usize) -> Result<BytesModel, CoreErrorModel> {
        unreachable!()
    }
    fn snapshot_taken(_core: ()) -> Result<JsonModel, CoreErrorModel> {
        unreachable!()
    }

    fn built_to_plan(_plan: BlueprintModel, _renderer: RendererModel) {}
    fn build_is_fixed(_core: ()) {}
    fn reset_restarts(_core: (), _attached: AttachedModel) {}
    fn jump_goes_there(_core: (), _attached: AttachedModel, _pc: u32) {}
    fn written_register_holds(_core: (), _register: Register, _value: u32) {}
    fn offers_are_taken_or_left(_core: (), _offer: Offer) {}
    fn breakpoints_are_kept(_core: (), _breakpoint: Breakpoint) {}
    fn policy_leaves_alike(_core: (), _other: ()) {}
    fn alike_runs(_a: (), _b: (), _attached: AttachedModel, _run: Run) {}
    fn alike_looks(_a: (), _b: ()) {}
    fn alike_floppies(_a: (), _b: (), _drive: usize, _medium: MediumModel<()>) {}
    fn inserted_as_it_came(_core: (), _drive: usize, _medium: MediumModel<()>) {}
    fn detaching_frees_the_id(_core: (), _id: usize, _image: BytesModel) {}

    fn known_model(model: MacModel) -> ModelFacts {
        ModelFacts {
            name: format!("{model:?}"),
            ram_sizes: vec![4 * 1024 * 1024, 1024 * 1024],
            cpu_type: match model {
                MacModel::MacII | MacModel::MacIIFDHD => M68020,
                MacModel::MacIIx | MacModel::MacIIcx | MacModel::SE30 => M68030,
                _ => M68000,
            },
            fdd_drives: 2,
            fdd_hd: false,
            has_scsi: !matches!(
                model,
                MacModel::Early128K | MacModel::Early512K | MacModel::Early512Ke
            ),
        }
    }

    fn build(plan: Blueprint<'_>, _renderer: &mut ChannelRenderer) -> Result<Self, CoreError> {
        let mut cpu = CpuM68k::new(SparseBus::new());
        cpu.pmmu_cache_ensure();
        let mut rom = plan.rom.to_vec();
        if plan.model == MacModel::Portable15MB {
            // MOVEQ #0,D0; ADDQ.L #1,D0; JMP $F0002A, from the reset vector on.
            rom[4..8].copy_from_slice(&0x00F3_FF70u32.to_be_bytes());
            rom[0x3_FF70..0x3_FF7A]
                .copy_from_slice(&[0x70, 0x00, 0x52, 0x80, 0x4E, 0xF9, 0x00, 0xF0, 0x00, 0x2A]);
        }
        Ok(MiniMac {
            model: plan.model,
            cpu,
            cycles: 0,
            ram: vec![0; plan.ram_bytes],
            rom,
            overlay: true,
            seed: 0,
            seconds: 0,
            floppies: [None, None, None],
            rpm: [0; 3],
            breakpoints: vec![],
            hits: vec![],
            dropped: 0,
            instructions: false,
            instruction_count: 0,
            history: vec![],
            traps: false,
            trap_history: vec![],
            properties: vec![DebuggableProperty {
                name: "Overlay".to_string(),
                value: "on".to_string(),
            }],
            log: vec![],
            received: vec![],
            sent: vec![1, 2, 3],
            sent_frames: vec![vec![4], vec![5, 6]],
        })
    }

    fn run(&mut self, attached: &mut Attached, run: Run) -> Result<(), CoreError> {
        match run {
            Run::Step => {
                self.execute()?;
                if self.cycles % 400 == 0 {
                    attached.renderer.buffer_mut().frame[0] = (self.cycles / 400) as u8;
                    attached.renderer.update();
                }
            }
            Run::SyncBus => {}
            Run::SetPc(pc) => self.cpu.regs.pc = pc,
            Run::RefillPrefetch => self.cycles += 8,
            Run::ResetBus => {
                self.overlay = true;
                self.cycles = 0;
            }
            Run::ResetCpu => {
                self.cycles += 40;
                self.cpu.regs.a[7] = self.long(0);
                self.cpu.regs.pc = self.long(4);
            }
        }
        Ok(())
    }

    fn act(&mut self, action: Action) {
        match action {
            Action::FitSwim { seed, .. } => self.seed = seed,
            Action::SetBreakpoint(breakpoint) => self.breakpoints.push(breakpoint),
            Action::ClearBreakpoint(breakpoint) => self.breakpoints.retain(|b| *b != breakpoint),
            Action::EnableHistory(enabled) => self.instructions = enabled,
            Action::EnableSystrapHistory(enabled) => self.traps = enabled,
            Action::WriteRegister(Register::Dn(n), value) => self.cpu.regs.d[n] = value,
            Action::WriteRegister(Register::An(n), value) => self.cpu.regs.a[n] = value,
            Action::EjectFloppy(drive) => self.floppies[drive] = None,
            Action::SetFloppyRpm(drive, rpm) => self.rpm[drive] = rpm,
            _ => {}
        }
        self.log.push(action);
    }

    fn attempt(&mut self, attempt: Attempt<'_>) -> Result<(), CoreError> {
        match attempt {
            Attempt::InitializeRtc { seconds, pram } => {
                if pram.len() != 256 {
                    return Err(CoreError {
                        message: "PRAM must have 256 bytes".to_string(),
                    });
                }
                self.seconds = seconds;
            }
            _ => {}
        }
        Ok(())
    }

    fn offer(&mut self, offer: Offer) -> bool {
        match offer {
            Offer::MouseAbsolute { .. } => false,
            Offer::WriteRam { address, value } => match self.ram.get_mut(address as usize) {
                Some(byte) => {
                    *byte = value;
                    true
                }
                None => false,
            },
            Offer::WriteMemory { address, value } => match self.find_in_ram(address) {
                Some(offset) => {
                    self.ram[offset as usize] = value;
                    true
                }
                None => false,
            },
        }
    }

    fn receive(&mut self, channel: SccCh, data: &[u8], frame: bool) {
        self.received.push((channel, data.to_vec(), frame));
    }

    fn is_receiver_ready(&self, channel: SccCh) -> bool {
        self.received.iter().all(|(other, _, _)| *other != channel)
    }

    fn take_sent(&mut self, _channel: SccCh) -> Vec<u8> {
        std::mem::take(&mut self.sent)
    }

    fn take_frames_sent(&mut self, _channel: SccCh) -> Vec<Vec<u8>> {
        std::mem::take(&mut self.sent_frames)
    }

    fn take_hits(&mut self) -> (Vec<BreakpointHit>, u64) {
        let dropped = self.dropped;
        self.dropped = 0;
        (std::mem::take(&mut self.hits), dropped)
    }

    fn registers(&self) -> &RegisterFile {
        &self.cpu.regs
    }

    fn cycles(&self) -> u64 {
        self.cycles
    }

    fn ram(&self) -> &[u8] {
        &self.ram
    }

    fn mac_model(&self) -> MacModel {
        self.model
    }

    fn family(&self) -> Family {
        match self.model {
            MacModel::Portable | MacModel::Portable15MB => Family::Portable,
            MacModel::MacII
            | MacModel::MacIIFDHD
            | MacModel::MacIIx
            | MacModel::MacIIcx
            | MacModel::SE30 => Family::MacII,
            _ => Family::Compact,
        }
    }

    fn inspect_byte(&self, address: u32) -> Option<u8> {
        self.byte(address)
    }

    fn find_in_ram(&self, address: u32) -> Option<u32> {
        match address & 0xFF_FFFF {
            low @ 0..=0x3F_FFFF if !self.overlay => Some(low & (self.ram.len() as u32 - 1)),
            low @ 0x60_0000..=0x7F_FFFF if self.overlay => {
                Some(low & (self.ram.len() as u32 - 1))
            }
            _ => None,
        }
    }

    fn inspect_translation(
        &self,
        query: TranslationQuery,
    ) -> Result<TranslationInspection, InspectError> {
        self.cpu.inspect_translation(query)
    }

    fn inspect_atc(
        &self,
        start: usize,
        scan_limit: usize,
        entry_limit: usize,
    ) -> Result<AtcPage, InspectError> {
        self.cpu.inspect_atc(start, scan_limit, entry_limit)
    }

    fn step_over(&self) -> Option<u32> {
        Some(self.cpu.regs.pc + 2)
    }

    fn history_status(&self) -> (bool, u64, bool, u64, usize) {
        (
            self.instructions,
            self.instruction_count,
            self.traps,
            0,
            HISTORY_CAPACITY,
        )
    }

    fn instruction_history(&self) -> Option<&[HistoryEntry]> {
        self.instructions.then_some(self.history.as_slice())
    }

    fn systrap_history(&self) -> Option<&[SystrapHistoryEntry]> {
        self.traps.then_some(self.trap_history.as_slice())
    }

    fn properties(&self) -> &[DebuggableProperty] {
        &self.properties
    }

    fn controller_draws(&self) -> u64 {
        0
    }

    fn drive(&self, drive: usize) -> DriveActivity {
        match &self.floppies[drive] {
            Some(floppy) => DriveActivity {
                present: true,
                write_protected: floppy.force_wp,
                noise_draws: 0,
                media_noise_draws: floppy.image.noise.draws,
                dirty: floppy.dirty,
            },
            None => DriveActivity {
                present: false,
                write_protected: false,
                noise_draws: 0,
                media_noise_draws: 0,
                dirty: false,
            },
        }
    }

    fn load_floppy(
        image: &[u8],
        _name: &str,
        noise: Noise,
    ) -> Result<FloppyMedium<FloppyImage>, CoreError> {
        let mut noise = noise;
        if !image.starts_with(b"MOOF") {
            let load = RawImage::load_with_noise(image, None, noise);
            noise = match load {
                Ok(RawLoad::Encode { noise, .. }) => noise,
                Ok(RawLoad::Fluxfox { noise, .. }) => noise,
                Err(error) => {
                    return Err(CoreError {
                        message: error.message(),
                    })
                }
            };
        }
        let padding = (0..16).map(|_| noise.byte()).collect();
        Ok(FloppyMedium {
            image: FloppyImage {
                bytes: image.to_vec(),
                padding,
                noise,
            },
            dirty: true,
            force_wp: false,
        })
    }

    fn insert_floppy(
        &mut self,
        drive: usize,
        medium: FloppyMedium<FloppyImage>,
    ) -> Result<(), CoreError> {
        if self.floppies[drive].is_some() {
            return Err(CoreError {
                message: "The drive is not empty".to_string(),
            });
        }
        self.floppies[drive] = Some(medium);
        Ok(())
    }

    fn save_floppy(&self, drive: usize) -> Result<Vec<u8>, CoreError> {
        let floppy = self.floppies[drive].as_ref().unwrap();
        let mut bytes = b"MOOF".to_vec();
        bytes.extend_from_slice(&floppy.image.bytes);
        bytes.extend_from_slice(&floppy.image.padding);
        Ok(bytes)
    }

    fn snapshot(&self) -> Result<JsonValue, CoreError> {
        let ram = self
            .ram
            .iter()
            .enumerate()
            .filter(|(_, byte)| **byte != 0)
            .map(|(at, byte)| JsonValue::Array(vec![number(at as u64), number(u64::from(*byte))]))
            .collect();
        let floppies = self
            .floppies
            .iter()
            .map(|floppy| match floppy {
                None => JsonValue::Null,
                Some(floppy) => object(vec![
                    ("wp", JsonValue::Bool(floppy.force_wp)),
                    (
                        "padding",
                        JsonValue::Array(
                            floppy
                                .image
                                .padding
                                .iter()
                                .map(|byte| number(u64::from(*byte)))
                                .collect(),
                        ),
                    ),
                ]),
            })
            .collect();
        let swim = object(vec![
            ("seed", number(self.seed)),
            ("drives", JsonValue::Array(floppies)),
            (
                "rpm",
                JsonValue::Array(
                    self.rpm
                        .iter()
                        .map(|rpm| JsonValue::Signed(i64::from(*rpm)))
                        .collect(),
                ),
            ),
        ]);
        let bus = object(vec![
            ("ram", JsonValue::Array(ram)),
            ("swim", swim),
            ("overlay", JsonValue::Bool(self.overlay)),
            ("rtc", number(u64::from(self.seconds))),
        ]);
        let cpu = object(vec![
            ("pc", number(u64::from(self.cpu.regs.pc))),
            ("d0", number(u64::from(self.cpu.regs.d[0]))),
            ("cycles", number(self.cycles)),
            ("tc", number(u64::from(self.cpu.regs.pmmu.tc.0))),
            (
                "breakpoints",
                JsonValue::Text(format!("{:?}", self.breakpoints)),
            ),
            ("step_over_addr", JsonValue::Null),
            ("bus", bus),
        ]);
        Ok(object(vec![("Compact", cpu)]))
    }
}

fn machine(seed: u64) -> Result<HeadlessPlus<MiniMac>, HeadlessError> {
    let mut rom = vec![0; 128 * 1024];
    rom[..4].copy_from_slice(&0x003F_FFFCu32.to_be_bytes());
    rom[4..8].copy_from_slice(&0x0040_0008u32.to_be_bytes());
    rom[8..10].copy_from_slice(&[0x60, 0xFE]); // BRA.S to itself
    HeadlessPlus::new(&rom, None, seed, 0, &[0; 256], MouseMode::RelativeHw)
}

#[test]
fn repeatable_step_and_safe_inspection() -> Result<(), HeadlessError> {
    let mut a = machine(3)?;
    let mut b = machine(3)?;
    for _ in 0..100 {
        a.step()?;
        b.step()?;
    }
    assert_eq!(a.registers().pc, 0x400008);
    assert_eq!(a.digests()?, b.digests()?);
    let before = a.digests()?;
    assert_eq!(a.peek(0x580000), None);
    assert_eq!(a.peek(0xEFE1FF), None);
    assert_eq!(a.peek(0x400008), Some(0x60));
    assert_eq!(a.digests()?, before);
    assert_ne!(a.digests()?, machine(4)?.digests()?);
    Ok(())
}

#[test]
fn debugger_edits_use_ram_mapping_and_refill_prefetch() -> Result<(), HeadlessError> {
    let mut machine = machine(3)?;
    let before = machine.digests()?;
    for address in [0, 0x400008, 0x580000, 0xEFE1FF] {
        assert_eq!(machine.ram_address(address), None);
        assert_eq!(machine.write_memory_byte(address, 0xFF, false), None);
    }
    assert_eq!(before, machine.digests()?);
    // With four MiB, CPU reads of $600000 come from backing offset $200000.
    // Resolve the inspection/read mapping rather than assuming an alias starts at zero.
    let code = [0x70, 0x2A, 0x52, 0x80, 0x60, 0xFE];
    for (offset, byte) in code.iter().enumerate() {
        assert_eq!(
            machine.write_memory_byte(0x200100 + offset as u32, *byte, true),
            Some(())
        );
        assert_eq!(machine.peek(0x600100 + offset as u32), Some(*byte));
    }
    let cycle = machine.cycles();
    machine.write_register(Register::PC, 0x600100)?;
    assert!(machine.cycles() > cycle);
    machine.step()?;
    assert_eq!(machine.registers().d[0], 42);
    machine.step()?;
    assert_eq!(machine.registers().d[0], 43);
    let cycle = machine.cycles();
    machine.reset()?;
    assert!(machine.cycles() > cycle);
    assert_eq!(machine.registers().pc, 0x400008);
    Ok(())
}

#[test]
fn seeded_media_controls_are_private_and_repeatable() -> Result<(), HeadlessError> {
    let mut a = machine(3)?;
    let mut b = machine(3)?;
    let source = vec![0; 400 * 1024];
    for machine in [&mut a, &mut b] {
        machine.insert_floppy(0, &source, 42, false)?;
        let exported = machine.export_floppy(0)?;
        machine.eject_floppy(0)?;
        machine.insert_floppy(0, &exported, 43, true)?;
        machine.attach_scsi(2, vec![0x5A; 512])?;
        assert_eq!(machine.export_scsi(2)?, vec![0x5A; 512]);
        machine.detach_scsi(2)?;
        machine.attach_cdrom(3, Some(vec![0; 2048]))?;
        machine.floppy_rpm(0, 2)?;
    }
    assert_eq!(a.digests()?, b.digests()?);
    assert_eq!(a.export_floppy(0)?, b.export_floppy(0)?);
    assert!(source.iter().all(|byte| *byte == 0));
    Ok(())
}

#[test]
fn debugger_observations_preserve_guest_state_and_bound_history() -> Result<(), HeadlessError> {
    let mut observed = machine(3)?;
    let mut control = machine(3)?;
    observed.configure_history(true, true);
    observed.set_breakpoint(Breakpoint::Bus(BusBreakpoint::Read, 0x400008), true);
    for _ in 0..10_003 {
        observed.step()?;
        control.step()?;
    }
    assert_eq!(observed.digests()?, control.digests()?);
    let (enabled, total, traps, _, capacity) = observed.history_status();
    assert!(enabled && traps);
    assert_eq!(total, 10_003);
    assert_eq!(observed.instruction_history().unwrap().len(), capacity);
    let before = observed.digests()?;
    let (hits, dropped) = observed.take_breakpoint_hits();
    assert_eq!(hits.len(), 256);
    assert!(dropped > 0);
    assert_eq!(hits[0].value, Some(0x60));
    assert!(!observed.peripherals().is_empty());
    assert!(observed.trap_history().unwrap().is_empty());
    assert_eq!(before, observed.digests()?);
    observed.attach_scsi(0, vec![0; 512])?;
    assert!(observed.digests()?.contains_key("scsi_disk_0"));
    assert!(observed.attach_scsi(0, vec![0; 512]).is_err());
    Ok(())
}

#[test]
fn all_models_share_the_native_factory() -> Result<(), HeadlessError> {
    let mut rom = vec![0; 256 * 1024];
    rom[..4].copy_from_slice(&0x0001_FFFCu32.to_be_bytes());
    rom[4..8].copy_from_slice(&8u32.to_be_bytes());
    rom[8..10].copy_from_slice(&[0x60, 0xFE]);
    rom[0x2A..0x2C].copy_from_slice(&[0x60, 0xFE]);
    let video = vec![0; 64 * 1024];
    for model in MODELS {
        let extra = if model == MacModel::SE30 {
            ExtraROMs::SE30Video(&video)
        } else {
            ExtraROMs::MDC12(&video)
        };
        let facts = MiniMac::known_model(model);
        let mut machine: HeadlessMachine<MiniMac> = HeadlessMachine::new_model(HeadlessConfig {
            rom: &rom,
            extra_roms: &[extra],
            model,
            ram_bytes: facts.ram_sizes[0],
            pmmu: facts.cpu_type == M68030,
            disk: None,
            seed: 1,
            seconds: 0,
            pram: &[0; 256],
            mouse: MouseMode::RelativeHw,
        })?;
        assert_eq!(machine.ram().len(), facts.ram_sizes[0]);
        assert_eq!(
            machine.registers().pc,
            if model == MacModel::Portable15MB {
                0x00F3_FF70
            } else {
                8
            }
        );
        for _ in 0..4 {
            machine.step()?;
        }
        assert_eq!(
            machine.registers().pc,
            if model == MacModel::Portable15MB {
                0x00F0_002A
            } else {
                8
            }
        );
        let before = machine.digests()?;
        assert!(!machine.mouse_absolute(0, 0));
        machine.peek(0x00F9_0000);
        machine.peek(0x5001_0000);
        assert_eq!(machine.digests()?, before, "{model:?}");
    }
    Ok(())
}

#[test]
fn mmu_inspection_rejects_device_descriptors_without_guest_changes() -> Result<(), HeadlessError> {
    let mut rom = vec![0; 256 * 1024];
    rom[..4].copy_from_slice(&0x0001_FFFCu32.to_be_bytes());
    rom[4..8].copy_from_slice(&8u32.to_be_bytes());
    rom[8..10].copy_from_slice(&[0x60, 0xFE]);
    let video = vec![0; 64 * 1024];

    for model in [MacModel::MacII, MacModel::MacIIx] {
        let mut machine: HeadlessMachine<MiniMac> = HeadlessMachine::new_model(HeadlessConfig {
            rom: &rom,
            extra_roms: &[ExtraROMs::MDC12(&video)],
            model,
            ram_bytes: MiniMac::known_model(model).ram_sizes[0],
            pmmu: true,
            disk: None,
            seed: 1,
            seconds: 0,
            pram: &[0; 256],
            mouse: MouseMode::RelativeHw,
        })?;
        machine.configure_history(true, true);
        let registers = &mut machine.core.cpu.regs;
        registers.pmmu.tc = TcReg(0x80C8_6600);
        registers.pmmu.crp = RootPointerReg(0x7FFF_0002_5000_0000);
        let before = machine.digests()?;
        let cycles = machine.cycles();
        let history = machine.history_status();

        let result = machine.inspect_translation(TranslationQuery {
            address: 0x403006,
            function_code: 5,
            writing: false,
            mode: TranslationMode::CacheAware,
        })?;

        assert_eq!(
            result.failure.unwrap().kind,
            WalkFailureKind::UnreadableDescriptor
        );
        assert!(machine.inspect_atc(0, 32, 16)?.entries.is_empty());
        assert_eq!(machine.digests()?, before);
        assert_eq!(machine.cycles(), cycles);
        assert_eq!(machine.history_status(), history);
    }

    Ok(())
}

#[test]
fn breakpoints_do_not_reach_the_digests_and_media_do() -> Result<(), HeadlessError> {
    let mut machine = machine(3)?;
    let before = machine.digests()?;
    machine.set_breakpoint(Breakpoint::Execution(0x400008), true);
    machine.set_breakpoint(Breakpoint::Execution(0x400008), true);
    assert_eq!(machine.core.breakpoints.len(), 1);
    assert_eq!(machine.digests()?, before);
    machine.set_breakpoint(Breakpoint::Execution(0x400008), false);
    assert!(machine.core.breakpoints.is_empty());

    // The digest of 512 zero bytes, by name of the ID.
    machine.attach_scsi(6, vec![0; 512])?;
    let digests: Digests = machine.digests()?;
    assert_eq!(
        digests.get("scsi_disk_6"),
        Some("076a27c79e5ace2a3d47f9dd2e83e4ff6ea8872b3c2218f66c92b89b55f36560")
    );
    assert_eq!(digests.get("ram"), before.get("ram"));
    assert!(!digests.contains_key("cycle_offset"));
    assert_eq!(
        digests
            .entries
            .iter()
            .map(|(name, _)| name.as_str())
            .collect::<Vec<_>>(),
        ["bus", "cpu", "ram", "scsi_disk_6", "swim"]
    );
    machine.reset()?;
    assert!(machine.digests()?.contains_key("cycle_offset"));
    Ok(())
}

#[test]
fn frames_are_observed_at_the_end_of_an_instruction() -> Result<(), HeadlessError> {
    let mut machine = machine(3)?;
    assert!(machine.frame().is_none());
    let mut observed = vec![];
    for _ in 0..200 {
        machine.step()?;
        if let Some(frame) = machine.frame() {
            if observed.last() != Some(&frame.sequence) {
                assert_eq!(frame.observed_at_cycle, machine.cycles());
                assert_eq!((frame.width, frame.height), (512, 342));
                assert_eq!(frame.rgba.len(), 512 * 342 * 4);
                assert_eq!(frame.rgba[0], observed.len() as u8 + 1);
                observed.push(frame.sequence);
            }
        }
    }
    assert_eq!(observed, [1, 2]);
    machine.reset()?;
    assert!(machine.frame().is_none());
    Ok(())
}

#[test]
fn controls_reach_the_hardware_in_order() -> Result<(), HeadlessError> {
    let mut machine = machine(3)?;
    machine.core.log.clear();
    machine.key(KeyEvent::KeyDown(0x31));
    machine.mouse_relative(-3, 4, Some(true));
    assert!(!machine.mouse_absolute(0, 0));
    machine.programmer_key();
    machine.mouse_mode(MouseMode::Disabled);
    machine.bus_frequency(8_000_000);
    machine.debug_framebuffers(true)?;
    machine.write_register(Register::Dn(3), 9)?;
    machine.serial_dcd(SccCh::B, true);
    assert_eq!(
        machine.core.log,
        [
            Action::Keyboard(KeyEvent::KeyDown(0x31)),
            Action::MouseRelative {
                x: -3,
                y: 4,
                button: Some(true)
            },
            Action::ProgrammerKey,
            Action::SetMouseMode(MouseMode::Disabled),
            Action::SetBusFrequency(8_000_000),
            Action::ShowFramebuffers(true),
            Action::WriteRegister(Register::Dn(3), 9),
            Action::SetDcd(SccCh::B, true),
        ]
    );
    assert_eq!(machine.registers().d[3], 9);
    assert!(machine.serial_receive(SccCh::A, b"hello", false));
    assert!(!machine.serial_receive(SccCh::A, b"frame", true));
    assert_eq!(
        machine.core.received,
        [
            (SccCh::A, b"hello".to_vec(), false),
            (SccCh::A, b"frame".to_vec(), true)
        ]
    );
    assert_eq!(
        machine.serial_take(SccCh::B),
        (vec![1, 2, 3], vec![vec![4], vec![5, 6]])
    );
    assert_eq!(machine.serial_take(SccCh::B), (vec![], vec![]));
    assert_eq!(machine.step_over_target(), Some(0x40000A));
    Ok(())
}

#[test]
fn a_failed_step_still_synchronizes_and_reports() -> Result<(), HeadlessError> {
    let mut machine = machine(3)?;
    machine.write_register(Register::PC, 0x600000)?;
    let error = machine.step().unwrap_err();
    assert_eq!(error.message(), "Unimplemented opcode at 600000");
    assert_eq!(
        machine.write_register(Register::PC, 3).unwrap_err().message(),
        "PC must be aligned"
    );
    assert_eq!(machine.registers().pc, 0x600000);
    Ok(())
}

#[test]
fn the_boot_disk_uses_a_seed_of_its_own() -> Result<(), HeadlessError> {
    let mut rom = vec![0; 64 * 1024];
    rom[4..8].copy_from_slice(&8u32.to_be_bytes());
    let disk = vec![0; 800 * 1024];
    let machine: HeadlessMachine<MiniMac> = HeadlessMachine::new(
        &rom,
        Some(&disk),
        3,
        77,
        &[0; 256],
        MouseMode::Absolute,
    )?;
    let mut noise = Noise::seeded(3 ^ 0x4D45444941);
    let expected: Vec<u8> = (0..16).map(|_| noise.byte()).collect();
    let floppy = machine.core.floppies[0].as_ref().unwrap();
    assert_eq!(floppy.image.padding, expected);
    assert!(!floppy.force_wp && !floppy.dirty);
    assert_eq!(machine.core.seconds, 77);
    assert_eq!(
        machine.core.log,
        [
            Action::FitSwim {
                drives: 2,
                high_density: false,
                frequency: 8_000_000,
                seed: 3
            },
            Action::Uncap
        ]
    );
    assert_eq!(
        machine.media_activity(),
        (0, [0, 0, 0], [16, 0, 0], [false, false, false])
    );
    let refused = HeadlessMachine::<MiniMac>::new(
        &rom,
        Some(&disk[..100]),
        3,
        77,
        &[0; 256],
        MouseMode::Absolute,
    );
    assert_eq!(
        refused.err().unwrap().message(),
        "Invalid raw image length: 100"
    );
    let forgetful =
        HeadlessMachine::<MiniMac>::new(&rom, None, 3, 77, &[0; 20], MouseMode::Absolute);
    assert_eq!(
        forgetful.err().unwrap().message(),
        "PRAM must have 256 bytes"
    );
    Ok(())
}

#[test]
fn inserted_floppies_are_clean_and_protected_on_request() -> Result<(), HeadlessError> {
    let mut machine = machine(3)?;
    let source = vec![0; 400 * 1024];
    machine.insert_floppy(0, &source, 42, false)?;
    machine.insert_floppy(1, &source, 42, true)?;
    assert_eq!(machine.media_activity().3, [false, false, false]);
    assert!(!machine.core.drive(0).write_protected);
    assert!(machine.core.drive(1).write_protected);
    let before = machine.digests()?;
    assert_eq!(
        machine.insert_floppy(3, &source, 42, false).unwrap_err().message(),
        "Floppy drive must be 0..2"
    );
    assert_eq!(
        machine.insert_floppy(2, &source[..7], 42, false).unwrap_err().message(),
        "Invalid raw image length: 7"
    );
    assert_eq!(
        machine.insert_floppy(0, &source, 42, false).unwrap_err().message(),
        "The drive is not empty"
    );
    assert_eq!(machine.digests()?, before);
    Ok(())
}

#[test]
fn a_reset_keeps_the_images_and_starts_at_the_vector() -> Result<(), HeadlessError> {
    let mut machine = machine(3)?;
    assert!(machine.export_scsi(4).is_err());
    machine.attach_scsi(4, vec![0xA5; 1024])?;
    for _ in 0..120 {
        machine.step()?;
    }
    assert!(machine.frame().is_some());
    for _ in 0..2 {
        let cycles = machine.cycles();
        machine.reset()?;
        assert!(machine.cycles() > cycles);
        assert_eq!(machine.registers().pc, 0x400008);
        assert!(machine.frame().is_none());
        assert_eq!(machine.export_scsi(4)?, vec![0xA5; 1024]);
        assert_eq!(machine.ram().len(), 4 * 1024 * 1024);
    }
    Ok(())
}

#[test]
fn detaching_twice_changes_nothing_more() -> Result<(), HeadlessError> {
    let mut machine = machine(3)?;
    machine.attach_scsi(1, vec![1; 512])?;
    machine.attach_scsi(5, vec![5; 512])?;
    assert_eq!(
        machine.detach_scsi(7).unwrap_err().message(),
        "SCSI ID must be 0..6"
    );
    machine.detach_scsi(1)?;
    let once = machine.digests()?;
    assert!(!once.contains_key("scsi_disk_1"));
    assert!(once.contains_key("scsi_disk_5"));
    machine.detach_scsi(1)?;
    assert_eq!(machine.digests()?, once);
    assert!(machine.export_scsi(1).is_err());
    assert_eq!(machine.export_scsi(5)?, vec![5; 512]);
    machine.attach_scsi(1, vec![2; 1024])?;
    assert_eq!(machine.export_scsi(1)?, vec![2; 1024]);
    Ok(())
}

#[test]
fn watched_machines_take_floppies_alike() -> Result<(), HeadlessError> {
    let mut watched = machine(3)?;
    let mut control = machine(3)?;
    watched.configure_history(true, true);
    watched.set_breakpoint(Breakpoint::Execution(0x400008), true);
    let source = vec![0x6D; 800 * 1024];
    for machine in [&mut watched, &mut control] {
        machine.insert_floppy(1, &source, 9, true)?;
        machine.step()?;
    }
    assert_eq!(watched.digests()?, control.digests()?);
    assert_eq!(watched.export_floppy(1)?, control.export_floppy(1)?);
    let mut reseeded = machine(3)?;
    reseeded.insert_floppy(1, &source, 10, true)?;
    assert_ne!(reseeded.export_floppy(1)?, control.export_floppy(1)?);
    Ok(())
}
