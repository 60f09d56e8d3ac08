//! Raw, sector-based image format

use vstd::prelude::*;

use crate::floppy::noise::Noise;
use crate::util::text::{decimal, push_decimal};

verus! {

/// The kinds of floppy disks, in the order in which they are tried.
#[derive(Debug, Clone, Copy, PartialEq, Eq, Structural)]
pub enum FloppyType {
    /// Single-sided, 400K
    Mac400K,
    /// Double-sided, 800K
    Mac800K,
    /// High density, 1.44M
    Mfm144M,
}

/// The first kind of disk whose sectors hold so many bytes.
pub open spec fn kind_of_size(size: int) -> Option<FloppyType> {
    if size == FloppyType::Mac400K.get_logical_size() {
        Some(FloppyType::Mac400K)
    } else if size == FloppyType::Mac800K.get_logical_size() {
        Some(FloppyType::Mac800K)
    } else if size == FloppyType::Mfm144M.get_logical_size() {
        Some(FloppyType::Mfm144M)
    } else {
        None
    }
}

impl FloppyType {
    /// How many bytes the sectors of a disk hold.
    #[verifier::allow_in_spec]
    pub fn get_logical_size(self) -> usize
        returns
            match self {
                FloppyType::Mac400K => 409_600usize,
                FloppyType::Mac800K => 819_200usize,
                FloppyType::Mfm144M => 1_474_560usize,
            },
    {
        match self {
            FloppyType::Mac400K => 409_600,
            FloppyType::Mac800K => 819_200,
            FloppyType::Mfm144M => 1_474_560,
        }
    }

    /// The kind of disk whose sectors hold so many bytes.
    pub fn from_logical_size(size: usize) -> (kind: Option<Self>)
        ensures
            kind == kind_of_size(size as int),
    {
        if size == FloppyType::Mac400K.get_logical_size() {
            Some(FloppyType::Mac400K)
        } else if size == FloppyType::Mac800K.get_logical_size() {
            Some(FloppyType::Mac800K)
        } else if size == FloppyType::Mfm144M.get_logical_size() {
            Some(FloppyType::Mfm144M)
        } else {
            None
        }
    }
}

/// Why a raw image could not be loaded.
#[derive(Debug, Clone, Copy, PartialEq, Eq, Structural)]
pub enum RawError {
    /// No kind of disk has so many bytes.
    InvalidLength(usize),
}

impl RawError {
    /// What the user is told.
    pub fn message(self) -> (text: String)
        ensures
            text@ == match self {
                RawError::InvalidLength(length) => "Invalid raw image length: "@ + decimal(
                    length as nat,
                ),
            },
    {
        match self {
            RawError::InvalidLength(length) => {
                let mut text = "Invalid raw image length: ".to_owned();
                push_decimal(&mut text, length as u64);
                text
            },
        }
    }
}

/// How a raw image becomes a disk.
pub enum RawLoad<'a> {
    /// A high density image is handed to Fluxfox as it is.
    Fluxfox { data: &'a [u8], filename: Option<&'a str>, noise: Noise },
    /// The sectors of a Macintosh format image are encoded, without tag data. The title is the
    /// file name, or empty without one.
    Encode { floppytype: FloppyType, data: &'a [u8], title: &'a str, noise: Noise },
}

/// Raw image loader
pub struct RawImage {}

impl RawImage {
    /// Tell by its length what kind of disk an image is of, and how to load it.
    pub fn load_with_noise<'a>(data: &'a [u8], filename: Option<&'a str>, noise: Noise) -> (result:
        Result<RawLoad<'a>, RawError>)
        ensures
            match kind_of_size(data@.len() as int) {
                None => result matches Err(RawError::InvalidLength(length)) && length
                    == data@.len(),
                Some(FloppyType::Mfm144M) => {
                    &&& result matches Ok(
                        RawLoad::Fluxfox { data: image, filename: name, noise: source },
                    )
                    &&& image == data
                    &&& name == filename
                    &&& source == noise
                },
                Some(kind) => {
                    &&& result matches Ok(
                        RawLoad::Encode { floppytype, data: image, title, noise: source },
                    )
                    &&& floppytype == kind
                    &&& image == data
                    &&& title@ == match filename {
                        Some(name) => name@,
                        None => ""@,
                    }
                    &&& source == noise
                },
            },
    {
        let Some(floppytype) = FloppyType::from_logical_size(data.len()) else {
            return Err(RawError::InvalidLength(data.len()));
        };
        match floppytype {
            FloppyType::Mfm144M => Ok(RawLoad::Fluxfox { data, filename, noise }),
            _ => {
                let title = match filename {
                    Some(name) => name,
                    None => "",
                };
                Ok(RawLoad::Encode { floppytype, data, title, noise })
            },
        }
    }
}

/// A raw image is of a kind by its length alone: 800, 1600 or 2880 sectors of 512 bytes. Every kind
/// has a length of its own.
pub proof fn law_kinds_have_their_lengths(size: int)
    ensures
        kind_of_size(size) == Some(FloppyType::Mac400K) <==> size == 800 * 512,
        kind_of_size(size) == Some(FloppyType::Mac800K) <==> size == 1600 * 512,
        kind_of_size(size) == Some(FloppyType::Mfm144M) <==> size == 2880 * 512,
        kind_of_size(size) matches Some(kind) ==> kind.get_logical_size() == size,
{
}

} // verus!
