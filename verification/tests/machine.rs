//! A machine around hardware with memory alone.

use snow_core::headless::board::{BareBoard, NO_DRIVE, NO_MEMORY};
use snow_core::headless::error::HeadlessError;
use snow_core::headless::machine::{HeadlessMachine, HeadlessPlus};
use snow_core::headless::types::{
    Breakpoint, ExtraROMs, HeadlessConfig, MacModel, MouseMode, Register,
};

const MODELS: [MacModel; 14] = [
    MacModel::Early128K,
    MacModel::Early512K,
    MacModel::Early512Ke,
    MacModel::Plus,
    MacModel::SE,
    MacModel::SeFdhd,
    MacModel::Classic,
    MacModel::Portable,
    MacModel::Portable15MB,
    MacModel::MacII,
    MacModel::MacIIFDHD,
    MacModel::MacIIx,
    MacModel::MacIIcx,
    MacModel::SE30,
];

fn is_68030(model: MacModel) -> bool {
    matches!(model, MacModel::MacIIx | MacModel::MacIIcx | MacModel::SE30)
}

fn config(rom: &[u8], model: MacModel) -> HeadlessConfig<'_> {
    HeadlessConfig {
        rom,
        extra_roms: &[],
        model,
        ram_bytes: 1024 * 1024,
        pmmu: is_68030(model),
        disk: None,
        seed: 1,
        seconds: 5,
        pram: &[],
        mouse: MouseMode::RelativeHw,
    }
}

fn refusal(config: HeadlessConfig<'_>) -> String {
    match HeadlessMachine::<BareBoard>::new_model(config) {
        Err(error) => error.message(),
        Ok(_) => panic!("accepted"),
    }
}

fn plus() -> HeadlessPlus<BareBoard> {
    HeadlessPlus::new(&[0; 64 * 1024], None, 1, 2, &[], MouseMode::Absolute).unwrap()
}

#[test]
fn every_model_can_be_built() -> Result<(), HeadlessError> {
    let rom = vec![0; 256 * 1024];
    for model in MODELS {
        let mut machine = HeadlessMachine::<BareBoard>::new_model(config(&rom, model))?;
        assert_eq!(machine.ram().len(), 1024 * 1024);
        assert_eq!(machine.registers().pc, 0);
        let before = machine.digests()?;
        assert!(!machine.mouse_absolute(0, 0));
        machine.peek(0x00F9_0000);
        assert_eq!(machine.digests()?, before, "{model:?}");
        machine.step()?;
        assert_ne!(machine.digests()?, before, "{model:?}");
    }
    Ok(())
}

#[test]
fn configurations_that_do_not_fit_are_refused() {
    let rom = vec![0; 64 * 1024];
    for length in [0, 1, 65535, 65537, 96 * 1024, 8 * 1024 * 1024] {
        let odd = vec![0; length];
        assert_eq!(
            refusal(config(&odd, MacModel::Plus)),
            "ROM must have a power-of-two size from 64 KB through 4 MB"
        );
    }
    assert_eq!(
        refusal(HeadlessConfig {
            ram_bytes: 3,
            ..config(&rom, MacModel::SE30)
        }),
        "RAM size is not supported by Macintosh SE/30"
    );
    assert_eq!(
        refusal(HeadlessConfig {
            pmmu: true,
            ..config(&rom, MacModel::Plus)
        }),
        "68000 models cannot fit a PMMU"
    );
    assert_eq!(
        refusal(HeadlessConfig {
            pmmu: false,
            ..config(&rom, MacModel::MacIIx)
        }),
        "68030 models have an integrated PMMU"
    );
    assert_eq!(
        refusal(config(&rom, MacModel::Portable15MB)),
        "Portable 15 MB ROM patch requires at least 256 KB"
    );
    assert_eq!(
        refusal(HeadlessConfig {
            extra_roms: &[ExtraROMs::Toby(&[1]), ExtraROMs::ExtensionROM(&[])],
            ..config(&rom, MacModel::Plus)
        }),
        "Extra ROMs must not be empty"
    );
    assert_eq!(
        refusal(HeadlessConfig {
            disk: Some(&[0]),
            ..config(&rom, MacModel::Plus)
        }),
        NO_DRIVE
    );
    for pmmu in [false, true] {
        assert!(HeadlessMachine::<BareBoard>::new_model(HeadlessConfig {
            pmmu,
            ..config(&rom, MacModel::MacII)
        })
        .is_ok());
    }
    for shift in 16..=22 {
        let big = vec![0; 1 << shift];
        assert!(HeadlessMachine::<BareBoard>::new_model(config(&big, MacModel::Plus)).is_ok());
    }
}

#[test]
fn refused_requests_change_nothing() -> Result<(), HeadlessError> {
    let mut machine = plus();
    machine.attach_scsi(1, vec![7; 1024])?;
    let before = machine.digests()?;
    let refusals = [
        machine.attach_scsi(1, vec![0; 512]),
        machine.attach_scsi(7, vec![0; 512]),
        machine.attach_scsi(2, vec![]),
        machine.attach_scsi(2, vec![0; 513]),
        machine.detach_scsi(7),
        machine.attach_cdrom(7, None),
        machine.attach_cdrom(1, Some(vec![])),
        machine.attach_cdrom(1, Some(vec![0; 2047])),
        machine.insert_floppy(3, &[], 0, false),
        machine.eject_floppy(3),
        machine.floppy_rpm(3, 1),
        machine.export_floppy(3).map(|_| ()),
        machine.export_floppy(0).map(|_| ()),
        machine.export_scsi(2).map(|_| ()),
        machine.write_register(Register::PC, 1),
        machine.insert_floppy(0, &[], 0, false),
        machine.write_register(Register::PC, 0x40_0000),
    ];
    let messages: Vec<String> = refusals
        .into_iter()
        .map(|refusal| refusal.unwrap_err().message())
        .collect();
    assert_eq!(
        messages,
        [
            "SCSI ID must be unique and within 0..6",
            "SCSI ID must be unique and within 0..6",
            "SCSI disk must contain complete 512-byte blocks",
            "SCSI disk must contain complete 512-byte blocks",
            "SCSI ID must be 0..6",
            "SCSI ID is unavailable",
            "CD image requires complete 2048-byte sectors",
            "CD image requires complete 2048-byte sectors",
            "Floppy drive must be 0..2",
            "Floppy drive must be 0..2",
            "Floppy drive must be 0..2",
            "Floppy drive is unavailable",
            "Floppy drive is unavailable",
            "No private block image at that ID",
            "PC must be aligned",
            NO_DRIVE,
            NO_MEMORY,
        ]
    );
    assert_eq!(machine.digests()?, before);
    assert_eq!(machine.export_scsi(1)?, vec![7; 1024]);
    Ok(())
}

#[test]
fn models_without_a_controller_take_no_devices() -> Result<(), HeadlessError> {
    let rom = vec![0; 64 * 1024];
    let mut machine =
        HeadlessMachine::<BareBoard>::new_model(config(&rom, MacModel::Early512K))?;
    assert_eq!(
        machine.attach_scsi(0, vec![0; 512]).unwrap_err().message(),
        "This model has no SCSI controller"
    );
    assert_eq!(
        machine.attach_cdrom(0, None).unwrap_err().message(),
        "SCSI ID is unavailable"
    );
    let mut two = HeadlessMachine::<BareBoard>::new_model(config(&rom, MacModel::MacII))?;
    assert_eq!(
        two.debug_framebuffers(true).unwrap_err().message(),
        "Debug framebuffers are only available on compact models"
    );
    assert!(machine.debug_framebuffers(true).is_ok());
    Ok(())
}

#[test]
fn devices_replace_and_release_their_images() -> Result<(), HeadlessError> {
    let mut machine = plus();
    machine.attach_scsi(0, vec![1; 512])?;
    machine.attach_scsi(6, vec![2; 512])?;
    machine.attach_cdrom(0, Some(vec![3; 4096]))?;
    assert_eq!(machine.export_scsi(0)?, vec![3; 4096]);
    assert_eq!(machine.export_scsi(6)?, vec![2; 512]);
    machine.attach_cdrom(0, None)?;
    assert!(machine.export_scsi(0).is_err());
    machine.detach_scsi(6)?;
    machine.detach_scsi(6)?;
    assert!(machine.export_scsi(6).is_err());
    machine.attach_scsi(6, vec![4; 512])?;
    assert_eq!(machine.export_scsi(6)?, vec![4; 512]);
    Ok(())
}

#[test]
fn the_timeline_goes_on_over_a_reset() -> Result<(), HeadlessError> {
    let mut machine = plus();
    assert_eq!(machine.cycles(), 40);
    for _ in 0..10 {
        machine.step()?;
    }
    assert_eq!(machine.cycles(), 80);
    assert_eq!(machine.frame().unwrap().sequence, 10);
    machine.reset()?;
    assert_eq!(machine.cycles(), 120);
    assert!(machine.frame().is_none());
    machine.reset()?;
    assert_eq!(machine.cycles(), 160);
    machine.step()?;
    assert_eq!(machine.frame().unwrap().sequence, 11);
    assert_eq!(machine.frame().unwrap().observed_at_cycle, 164);
    machine.write_register(Register::PC, 0x100)?;
    assert_eq!(machine.cycles(), 172);
    assert_eq!(machine.registers().pc, 0x100);
    Ok(())
}

#[test]
fn memory_is_written_where_there_is_some() {
    let mut machine = plus();
    assert_eq!(machine.write_memory_byte(0x3F_FFFF, 9, false), Some(()));
    assert_eq!(machine.peek(0x3F_FFFF), Some(9));
    assert_eq!(machine.ram()[0x3F_FFFF], 9);
    assert_eq!(machine.write_memory_byte(0x40_0000, 9, true), None);
    assert_eq!(machine.ram_address(0x40_0000), None);
    assert_eq!(machine.ram_address(0x1234), Some(0x1234));
    machine.write_register(Register::An(7), 0xAA).unwrap();
    assert_eq!(machine.registers().a[7], 0xAA);
}

#[test]
fn breakpoints_are_held_once_and_do_not_show() -> Result<(), HeadlessError> {
    let mut watched = plus();
    let mut control = plus();
    let kept = Breakpoint::Execution(2);
    let toggled = Breakpoint::Execution(4);
    watched.configure_history(true, true);
    watched.set_breakpoint(kept, true);
    for enabled in [true, true, false, false, true] {
        watched.set_breakpoint(toggled, enabled);
        let held: &[Breakpoint] = if enabled { &[kept, toggled] } else { &[kept] };
        assert_eq!(watched.core.breakpoints, held);
        assert_eq!(watched.digests()?, control.digests()?);
        watched.step()?;
        control.step()?;
    }
    watched.take_breakpoint_hits();
    assert_eq!(watched.digests()?, control.digests()?);
    Ok(())
}

#[test]
fn a_reset_starts_at_the_vector_of_the_rom() -> Result<(), HeadlessError> {
    let mut rom = vec![0; 64 * 1024];
    rom[4..8].copy_from_slice(&0xF102_0304u32.to_be_bytes());
    let mut machine: HeadlessPlus<BareBoard> =
        HeadlessPlus::new(&rom, None, 1, 2, &[], MouseMode::Absolute)?;
    assert_eq!(machine.registers().pc, 0xF102_0304);
    machine.write_register(Register::PC, 0x100)?;
    machine.reset()?;
    assert_eq!(machine.registers().pc, 0xF102_0304);
    Ok(())
}

#[test]
fn a_new_machine_has_no_images() {
    let machine = plus();
    for id in 0..8 {
        assert!(machine.export_scsi(id).is_err());
    }
    assert!(machine.attached.media.is_empty());
}

#[test]
fn only_edits_of_the_pc_take_time() -> Result<(), HeadlessError> {
    let mut machine = plus();
    let cycles = machine.cycles();
    machine.write_register(Register::Dn(7), 0x1234_5678)?;
    machine.write_register(Register::An(0), 6)?;
    assert_eq!(machine.registers().d[7], 0x1234_5678);
    assert_eq!(machine.registers().a[0], 6);
    assert_eq!(machine.cycles(), cycles);
    assert!(machine.write_register(Register::PC, 0x101).is_err());
    assert_eq!((machine.cycles(), machine.registers().pc), (cycles, 0));
    machine.write_register(Register::PC, 0x100)?;
    assert_eq!(machine.registers().pc, 0x100);
    assert!(machine.cycles() > cycles);
    Ok(())
}

#[test]
fn bytes_of_ram_are_written_where_there_are_any() -> Result<(), HeadlessError> {
    let mut machine = plus();
    let before = machine.digests()?;
    let end = machine.ram().len() as u32;
    for backing_ram in [false, true] {
        assert_eq!(machine.write_memory_byte(end, 1, backing_ram), None);
    }
    assert_eq!(machine.digests()?, before);
    assert_eq!(machine.write_memory_byte(end - 1, 0x5A, true), Some(()));
    assert_eq!(machine.ram()[end as usize - 1], 0x5A);
    assert!(machine.ram()[..end as usize - 1].iter().all(|byte| *byte == 0));
    Ok(())
}
