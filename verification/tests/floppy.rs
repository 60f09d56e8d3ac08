//! Raw floppy images.

use snow_core::floppy::loaders::raw::{FloppyType, RawError, RawImage, RawLoad};
use snow_core::floppy::noise::Noise;

#[test]
fn the_length_tells_the_kind_of_disk() {
    for (length, kind) in [
        (409_600, FloppyType::Mac400K),
        (819_200, FloppyType::Mac800K),
    ] {
        let data = vec![1; length];
        match RawImage::load_with_noise(&data, Some("disk"), Noise::seeded(1)) {
            Ok(RawLoad::Encode {
                floppytype,
                data: image,
                title,
                noise,
            }) => {
                assert_eq!(floppytype, kind);
                assert_eq!(image, data);
                assert_eq!(title, "disk");
                assert_eq!(noise.draws, 0);
            }
            _ => panic!("not encoded"),
        }
    }
    let data = vec![2; 1_474_560];
    match RawImage::load_with_noise(&data, None, Noise::seeded(1)) {
        Ok(RawLoad::Fluxfox {
            data: image,
            filename,
            ..
        }) => {
            assert_eq!(image, data);
            assert_eq!(filename, None);
        }
        _ => panic!("not handed to Fluxfox"),
    }
}

#[test]
fn a_nameless_disk_has_an_empty_title() {
    let data = vec![0; 409_600];
    match RawImage::load_with_noise(&data, None, Noise::default()) {
        Ok(RawLoad::Encode { title, .. }) => assert_eq!(title, ""),
        _ => panic!("not encoded"),
    }
}

#[test]
fn other_lengths_are_refused() {
    let data = vec![0; 409_601];
    match RawImage::load_with_noise(&data, None, Noise::default()) {
        Err(error) => {
            assert_eq!(error, RawError::InvalidLength(409_601));
            assert_eq!(error.message(), "Invalid raw image length: 409601");
        }
        Ok(_) => panic!("loaded"),
    }
    match RawImage::load_with_noise(&[], None, Noise::default()) {
        Err(error) => assert_eq!(error.message(), "Invalid raw image length: 0"),
        Ok(_) => panic!("loaded"),
    }
}
