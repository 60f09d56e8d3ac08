//! Hard drive images.

use snow_core::util::hdd::{hdd_sanitycheck, VOLUME_WARNING};

#[test]
fn volume_images_are_warned_of() {
    assert_eq!(hdd_sanitycheck(*b"BD"), Some(VOLUME_WARNING));
    assert_eq!(hdd_sanitycheck(*b"ER"), None);
    assert_eq!(hdd_sanitycheck([0, 0]), None);
    assert_eq!(hdd_sanitycheck(*b"DB"), None);
    assert!(VOLUME_WARNING.starts_with(
        "The image you are loading looks like a volume image, which is not supported.\n\
         Snow requires device images. See the documentation for more info and \
         conversion instructions.\n"
    ));
}
