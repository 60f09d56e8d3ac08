//! Sanity of hard drive images.

use vstd::prelude::*;

verus! {

/// Where an image holds the signature of a volume.
pub const SIGNATURE_OFFSET: u64 = 0x400;

/// What the user is told of a volume image.
pub const VOLUME_WARNING: &'static str = "The image you are loading looks like a volume image, which is not supported.\nSnow requires device images. See the documentation for more info and conversion instructions.\n            ";

/// Checks the sanity of a hard drive image by the two bytes at the place of a volume's signature,
/// and can return a warning as string.
pub fn hdd_sanitycheck(signature: [u8; 2]) -> (warning: Option<&'static str>)
    ensures
        warning == if signature@ == seq![0x42u8, 0x44u8] {
            Some(VOLUME_WARNING)
        } else {
            None
        },
{
    assert(signature@ =~= seq![0x42u8, 0x44u8] <==> signature[0] == 0x42 && signature[1] == 0x44);
    if signature[0] == 0x42 && signature[1] == 0x44 {
        Some(VOLUME_WARNING)
    } else {
        None
    }
}

} // verus!
