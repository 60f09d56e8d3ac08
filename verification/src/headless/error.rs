//! Why a machine does not do what it is asked.

use vstd::prelude::*;

use crate::cpu_m68k::pmmu::inspect::InspectError;
use crate::headless::emulator::{CoreError, CoreErrorModel};

verus! {

/// A request that a machine refuses.
#[derive(Debug, PartialEq, Eq)]
pub enum HeadlessError {
    RomSize,
    /// The model of this name does not come with so much RAM.
    RamSize(String),
    PmmuUnsupported,
    PmmuIntegrated,
    PortableRom,
    EmptyExtraRom,
    NoScsi,
    ScsiId,
    ScsiBlocks,
    UnalignedPc,
    NotCompact,
    FloppyDrive,
    FloppyUnavailable,
    ScsiRange,
    ScsiUnavailable,
    DiscSectors,
    NoImage,
    Inspect(InspectError),
    Core(CoreError),
}

/// The value of a [`HeadlessError`].
pub ghost enum ErrorModel {
    RomSize,
    RamSize(Seq<char>),
    PmmuUnsupported,
    PmmuIntegrated,
    PortableRom,
    EmptyExtraRom,
    NoScsi,
    ScsiId,
    ScsiBlocks,
    UnalignedPc,
    NotCompact,
    FloppyDrive,
    FloppyUnavailable,
    ScsiRange,
    ScsiUnavailable,
    DiscSectors,
    NoImage,
    Inspect(InspectError),
    Core(CoreErrorModel),
}

impl View for HeadlessError {
    type V = ErrorModel;

    open spec fn view(&self) -> ErrorModel {
        match *self {
            HeadlessError::RomSize => ErrorModel::RomSize,
            HeadlessError::RamSize(name) => ErrorModel::RamSize(name@),
            HeadlessError::PmmuUnsupported => ErrorModel::PmmuUnsupported,
            HeadlessError::PmmuIntegrated => ErrorModel::PmmuIntegrated,
            HeadlessError::PortableRom => ErrorModel::PortableRom,
            HeadlessError::EmptyExtraRom => ErrorModel::EmptyExtraRom,
            HeadlessError::NoScsi => ErrorModel::NoScsi,
            HeadlessError::ScsiId => ErrorModel::ScsiId,
            HeadlessError::ScsiBlocks => ErrorModel::ScsiBlocks,
            HeadlessError::UnalignedPc => ErrorModel::UnalignedPc,
            HeadlessError::NotCompact => ErrorModel::NotCompact,
            HeadlessError::FloppyDrive => ErrorModel::FloppyDrive,
            HeadlessError::FloppyUnavailable => ErrorModel::FloppyUnavailable,
            HeadlessError::ScsiRange => ErrorModel::ScsiRange,
            HeadlessError::ScsiUnavailable => ErrorModel::ScsiUnavailable,
            HeadlessError::DiscSectors => ErrorModel::DiscSectors,
            HeadlessError::NoImage => ErrorModel::NoImage,
            HeadlessError::Inspect(error) => ErrorModel::Inspect(error),
            HeadlessError::Core(error) => ErrorModel::Core(error@),
        }
    }
}

/// The outcome of a request.
pub open spec fn outcome<T>(result: Result<T, HeadlessError>) -> Result<T, ErrorModel> {
    match result {
        Ok(value) => Ok(value),
        Err(error) => Err(error@),
    }
}

/// The message of an error.
pub open spec fn error_text(error: ErrorModel) -> Seq<char> {
    match error {
        ErrorModel::RomSize => "ROM must have a power-of-two size from 64 KB through 4 MB"@,
        ErrorModel::RamSize(name) => "RAM size is not supported by "@ + name,
        ErrorModel::PmmuUnsupported => "68000 models cannot fit a PMMU"@,
        ErrorModel::PmmuIntegrated => "68030 models have an integrated PMMU"@,
        ErrorModel::PortableRom => "Portable 15 MB ROM patch requires at least 256 KB"@,
        ErrorModel::EmptyExtraRom => "Extra ROMs must not be empty"@,
        ErrorModel::NoScsi => "This model has no SCSI controller"@,
        ErrorModel::ScsiId => "SCSI ID must be unique and within 0..6"@,
        ErrorModel::ScsiBlocks => "SCSI disk must contain complete 512-byte blocks"@,
        ErrorModel::UnalignedPc => "PC must be aligned"@,
        ErrorModel::NotCompact => "Debug framebuffers are only available on compact models"@,
        ErrorModel::FloppyDrive => "Floppy drive must be 0..2"@,
        ErrorModel::FloppyUnavailable => "Floppy drive is unavailable"@,
        ErrorModel::ScsiRange => "SCSI ID must be 0..6"@,
        ErrorModel::ScsiUnavailable => "SCSI ID is unavailable"@,
        ErrorModel::DiscSectors => "CD image requires complete 2048-byte sectors"@,
        ErrorModel::NoImage => "No private block image at that ID"@,
        ErrorModel::Inspect(error) => error.message()@,
        ErrorModel::Core(error) => error.message,
    }
}

impl HeadlessError {
    /// What the caller is told.
    pub fn message(&self) -> (text: String)
        ensures
            text@ == error_text(self@),
    {
        match self {
            HeadlessError::RomSize =>
                "ROM must have a power-of-two size from 64 KB through 4 MB".to_owned(),
            HeadlessError::RamSize(name) => {
                let mut text = "RAM size is not supported by ".to_owned();
                text.append(name.as_str());
                text
            },
            HeadlessError::PmmuUnsupported => "68000 models cannot fit a PMMU".to_owned(),
            HeadlessError::PmmuIntegrated => "68030 models have an integrated PMMU".to_owned(),
            HeadlessError::PortableRom =>
                "Portable 15 MB ROM patch requires at least 256 KB".to_owned(),
            HeadlessError::EmptyExtraRom => "Extra ROMs must not be empty".to_owned(),
            HeadlessError::NoScsi => "This model has no SCSI controller".to_owned(),
            HeadlessError::ScsiId => "SCSI ID must be unique and within 0..6".to_owned(),
            HeadlessError::ScsiBlocks =>
                "SCSI disk must contain complete 512-byte blocks".to_owned(),
            HeadlessError::UnalignedPc => "PC must be aligned".to_owned(),
            HeadlessError::NotCompact =>
                "Debug framebuffers are only available on compact models".to_owned(),
            HeadlessError::FloppyDrive => "Floppy drive must be 0..2".to_owned(),
            HeadlessError::FloppyUnavailable => "Floppy drive is unavailable".to_owned(),
            HeadlessError::ScsiRange => "SCSI ID must be 0..6".to_owned(),
            HeadlessError::ScsiUnavailable => "SCSI ID is unavailable".to_owned(),
            HeadlessError::DiscSectors =>
                "CD image requires complete 2048-byte sectors".to_owned(),
            HeadlessError::NoImage => "No private block image at that ID".to_owned(),
            HeadlessError::Inspect(error) => error.message().to_owned(),
            HeadlessError::Core(error) => error.message.as_str().to_owned(),
        }
    }
}

/// What callers are told is the refusal that it is.
pub proof fn law_refusals_are_told_as_they_are(error: HeadlessError)
    ensures
        match error {
            HeadlessError::RomSize => error@ is RomSize,
            HeadlessError::RamSize(name) => error@ == ErrorModel::RamSize(name@),
            HeadlessError::PmmuUnsupported => error@ is PmmuUnsupported,
            HeadlessError::PmmuIntegrated => error@ is PmmuIntegrated,
            HeadlessError::PortableRom => error@ is PortableRom,
            HeadlessError::EmptyExtraRom => error@ is EmptyExtraRom,
            HeadlessError::NoScsi => error@ is NoScsi,
            HeadlessError::ScsiId => error@ is ScsiId,
            HeadlessError::ScsiBlocks => error@ is ScsiBlocks,
            HeadlessError::UnalignedPc => error@ is UnalignedPc,
            HeadlessError::NotCompact => error@ is NotCompact,
            HeadlessError::FloppyDrive => error@ is FloppyDrive,
            HeadlessError::FloppyUnavailable => error@ is FloppyUnavailable,
            HeadlessError::ScsiRange => error@ is ScsiRange,
            HeadlessError::ScsiUnavailable => error@ is ScsiUnavailable,
            HeadlessError::DiscSectors => error@ is DiscSectors,
            HeadlessError::NoImage => error@ is NoImage,
            HeadlessError::Inspect(reason) => error@ == ErrorModel::Inspect(reason),
            HeadlessError::Core(reason) => error@ == ErrorModel::Core(reason@),
        },
{
}

} // verus!
