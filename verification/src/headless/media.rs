//! Private block images behind the SCSI controller.

use vstd::prelude::*;
use vstd::slice::slice_subrange;

verus! {

/// A block image that lives in memory alone: no host path or writeback is retained.
#[derive(Debug, PartialEq, Eq)]
pub struct MemoryDisk {
    pub bytes: Vec<u8>,
}

impl View for MemoryDisk {
    type V = Seq<u8>;

    open spec fn view(&self) -> Seq<u8> {
        self.bytes@
    }
}

impl MemoryDisk {
    /// How many bytes the image has.
    pub fn byte_len(&self) -> (len: usize)
        ensures
            len == self@.len(),
    {
        self.bytes.len()
    }

    /// The whole image, for devices that can lend it. This one cannot.
    pub fn media_bytes(&self) -> (bytes: Option<&[u8]>)
        ensures
            bytes is None,
    {
        None
    }

    /// Read part of the image.
    pub fn read_bytes(&self, offset: usize, length: usize) -> (data: Vec<u8>)
        requires
            offset + length <= self@.len(),
        ensures
            data@ == self@.subrange(offset as int, offset + length),
    {
        let mut data: Vec<u8> = Vec::new();
        assert(self.bytes.len() <= usize::MAX);
        data.extend_from_slice(slice_subrange(self.bytes.as_slice(), offset, offset + length));
        assert(data@ =~= self@.subrange(offset as int, offset + length));
        data
    }

    /// Write part of the image.
    pub fn write_bytes(&mut self, offset: usize, data: &[u8])
        requires
            offset + data@.len() <= old(self)@.len(),
        ensures
            final(self)@ == written(old(self)@, offset as int, data@),
    {
        let mut i: usize = 0;
        let ghost before = self@;
        assert(self.bytes.len() <= usize::MAX);
        assert(before =~= written(before, offset as int, data@.take(0)));
        while i < data.len()
            invariant
                i <= data@.len(),
                offset + data@.len() <= before.len() <= usize::MAX,
                self@.len() == before.len(),
                self@ == written(before, offset as int, data@.take(i as int)),
            decreases data@.len() - i,
        {
            self.bytes.set(offset + i, data[i]);
            i += 1;
            assert(self@ =~= written(before, offset as int, data@.take(i as int)));
        }
        assert(data@.take(i as int) =~= data@);
    }
}

/// An image after a write.
pub open spec fn written(image: Seq<u8>, offset: int, data: Seq<u8>) -> Seq<u8> {
    Seq::new(
        image.len(),
        |i: int|
            if offset <= i < offset + data.len() {
                data[i - offset]
            } else {
                image[i]
            },
    )
}

/// A read gives back what a write wrote there, the rest of the image stays as it was, and its
/// length does not change.
pub proof fn law_read_returns_the_write(image: Seq<u8>, offset: int, data: Seq<u8>)
    requires
        0 <= offset,
        offset + data.len() <= image.len(),
    ensures
        written(image, offset, data).subrange(offset, offset + data.len()) == data,
        written(image, offset, data).take(offset) == image.take(offset),
        written(image, offset, data).skip(offset + data.len()) == image.skip(offset + data.len()),
        written(image, offset, data).len() == image.len(),
{
    let after = written(image, offset, data);
    assert(after.subrange(offset, offset + data.len()) =~= data);
    assert(after.take(offset) =~= image.take(offset));
    assert(after.skip(offset + data.len()) =~= image.skip(offset + data.len()));
}

/// The images of the attached devices, each with its SCSI ID.
pub type Media = Vec<(usize, MemoryDisk)>;

/// What the attached images hold.
pub open spec fn media_model(media: Seq<(usize, MemoryDisk)>) -> Seq<(usize, Seq<u8>)> {
    Seq::new(media.len(), |i: int| (media[i].0, media[i].1@))
}

/// The image at an ID.
pub open spec fn image_at(media: Seq<(usize, Seq<u8>)>, id: usize) -> Option<Seq<u8>>
    decreases media.len(),
{
    if media.len() == 0 {
        None
    } else {
        match image_at(media.drop_last(), id) {
            Some(image) => Some(image),
            None => if media.last().0 == id {
                Some(media.last().1)
            } else {
                None
            },
        }
    }
}

/// The images without the ones at an ID.
pub open spec fn media_without(media: Seq<(usize, Seq<u8>)>, id: usize) -> Seq<(usize, Seq<u8>)>
    decreases media.len(),
{
    if media.len() == 0 {
        Seq::empty()
    } else if media.last().0 == id {
        media_without(media.drop_last(), id)
    } else {
        media_without(media.drop_last(), id).push(media.last())
    }
}

/// Whether every image is at an ID of its own that a device can have.
pub open spec fn ids_valid(media: Seq<(usize, Seq<u8>)>) -> bool {
    &&& forall|i: int| 0 <= i < media.len() ==> (#[trigger] media[i]).0 < 7
    &&& forall|i: int, j: int|
        0 <= i < media.len() && 0 <= j < media.len() && i != j ==> (#[trigger] media[i]).0 != (
        #[trigger] media[j]).0
}

/// Whether two collections of images have the same IDs and lengths.
pub open spec fn same_shape(a: Seq<(usize, Seq<u8>)>, b: Seq<(usize, Seq<u8>)>) -> bool {
    &&& a.len() == b.len()
    &&& forall|i: int|
        0 <= i < a.len() ==> (#[trigger] a[i]).0 == b[i].0 && a[i].1.len() == b[i].1.len()
}

/// Whether an image is attached at an ID.
pub fn has_image(media: &Media, id: usize) -> (found: bool)
    ensures
        found == (image_at(media_model(media@), id) is Some),
{
    find_image(media, id).is_some()
}

/// The image at an ID.
pub fn find_image(media: &Media, id: usize) -> (found: Option<&MemoryDisk>)
    ensures
        match image_at(media_model(media@), id) {
            Some(image) => found matches Some(disk) && disk@ == image,
            None => found is None,
        },
{
    let ghost model = media_model(media@);
    let mut i: usize = 0;
    assert(model.take(0) =~= Seq::empty());
    while i < media.len()
        invariant
            i <= media@.len(),
            model == media_model(media@),
            image_at(model.take(i as int), id) is None,
        decreases media@.len() - i,
    {
        assert(model.take(i + 1).drop_last() =~= model.take(i as int));
        assert(model.take(i + 1).last() == model[i as int]);
        if media[i].0 == id {
            proof {
                lemma_image_found_early(model, i + 1, id);
            }
            return Some(&media[i].1);
        }
        i += 1;
    }
    assert(model.take(i as int) =~= model);
    None
}

/// The first image at an ID is the one.
proof fn lemma_image_found_early(media: Seq<(usize, Seq<u8>)>, count: int, id: usize)
    requires
        0 <= count <= media.len(),
        image_at(media.take(count), id) is Some,
    ensures
        image_at(media, id) == image_at(media.take(count), id),
    decreases media.len() - count,
{
    if count < media.len() {
        assert(media.take(count + 1).drop_last() =~= media.take(count));
        lemma_image_found_early(media, count + 1, id);
    } else {
        assert(media.take(count) =~= media);
    }
}

/// Remove the images at an ID.
pub fn remove_images(media: &mut Media, id: usize)
    ensures
        media_model(final(media)@) == media_without(media_model(old(media)@), id),
{
    let ghost before = media_model(media@);
    let mut i: usize = 0;
    let ghost mut done: int = 0;
    assert(before.take(0) =~= Seq::empty());
    assert(media_model(media@) =~= media_without(before.take(0), id) + before.skip(0));
    while i < media.len()
        invariant
            i <= media@.len(),
            0 <= done <= before.len(),
            media_without(before.take(done), id).len() == i,
            media_model(media@) == media_without(before.take(done), id) + before.skip(done),
        decreases media@.len() - i,
    {
        let ghost model = media_model(media@);
        proof {
            assert(model[i as int] == before.skip(done)[0]);
            assert(before.take(done + 1).drop_last() =~= before.take(done));
            assert(before.take(done + 1).last() == before[done]);
        }
        if media[i].0 == id {
            let _ = media.remove(i);
            assert(media_model(media@) =~= model.remove(i as int));
            assert(media_model(media@) =~= media_without(before.take(done + 1), id) + before.skip(
                done + 1,
            ));
        } else {
            i += 1;
            assert(media_model(media@) =~= media_without(before.take(done + 1), id) + before.skip(
                done + 1,
            ));
        }
        proof {
            done = done + 1;
        }
    }
    assert(before.skip(done).len() == 0);
    assert(before.take(done) =~= before);
    assert(media_model(media@) =~= media_without(before, id));
}

/// Removing the images at an ID leaves none there, and those at other IDs as they were.
pub proof fn law_removal_is_exact(media: Seq<(usize, Seq<u8>)>, id: usize)
    ensures
        image_at(media_without(media, id), id) is None,
        forall|other: usize|
            other != id ==> #[trigger] image_at(media_without(media, id), other) == image_at(
                media,
                other,
            ),
        ids_valid(media) ==> ids_valid(media_without(media, id)),
    decreases media.len(),
{
    if media.len() > 0 {
        let shorter = media.drop_last();
        law_removal_is_exact(shorter, id);
        let rest = media_without(shorter, id);
        if media.last().0 != id {
            assert(media_without(media, id).drop_last() =~= rest);
        }
        assert forall|other: usize| other != id implies #[trigger] image_at(
            media_without(media, id),
            other,
        ) == image_at(media, other) by {
            assert(image_at(rest, other) == image_at(shorter, other));
        }
        if ids_valid(media) {
            lemma_shorter_ids(media);
            lemma_absent_id(shorter, media.last().0);
            if media.last().0 != id {
                assert(image_at(rest, media.last().0) is None);
                lemma_ids_push(rest, media.last());
            }
        }
    }
}

/// The IDs before the last are valid, and none of them is the last one's.
pub proof fn lemma_shorter_ids(media: Seq<(usize, Seq<u8>)>)
    requires
        media.len() > 0,
        ids_valid(media),
    ensures
        ids_valid(media.drop_last()),
        forall|i: int| 0 <= i < media.len() - 1 ==> (#[trigger] media.drop_last()[i]).0
            != media.last().0,
        media.last().0 < 7,
{
    let shorter = media.drop_last();
    assert(media[media.len() - 1] == media.last());
    assert forall|i: int| 0 <= i < shorter.len() implies (#[trigger] shorter[i]).0 < 7
        && shorter[i].0 != media.last().0 by {
        assert(shorter[i] == media[i]);
        assert(media[i].0 != media[media.len() - 1].0);
    }
    assert forall|i: int, j: int|
        0 <= i < shorter.len() && 0 <= j < shorter.len() && i != j implies (#[trigger] shorter[i]).0
        != (#[trigger] shorter[j]).0 by {
        assert(shorter[i] == media[i] && shorter[j] == media[j]);
    }
}

/// An ID that no image has has no image.
pub proof fn lemma_absent_id(media: Seq<(usize, Seq<u8>)>, id: usize)
    ensures
        image_at(media, id) is None <==> forall|i: int|
            0 <= i < media.len() ==> (#[trigger] media[i]).0 != id,
    decreases media.len(),
{
    if media.len() > 0 {
        let shorter = media.drop_last();
        lemma_absent_id(shorter, id);
        assert(media[media.len() - 1] == media.last());
        if image_at(media, id) is None {
            assert forall|i: int| 0 <= i < media.len() implies (#[trigger] media[i]).0 != id by {
                if i < shorter.len() {
                    assert(shorter[i] == media[i]);
                }
            }
        } else if image_at(shorter, id) is Some {
            let i = choose|i: int| 0 <= i < shorter.len() && (#[trigger] shorter[i]).0 == id;
            assert(media[i].0 == id);
        }
    }
}

/// An image at a free ID keeps the IDs valid.
pub proof fn lemma_ids_push(media: Seq<(usize, Seq<u8>)>, added: (usize, Seq<u8>))
    requires
        ids_valid(media),
        added.0 < 7,
        image_at(media, added.0) is None,
    ensures
        ids_valid(media.push(added)),
        image_at(media.push(added), added.0) == Some(added.1),
        forall|other: usize|
            other != added.0 ==> #[trigger] image_at(media.push(added), other) == image_at(
                media,
                other,
            ),
{
    lemma_absent_id(media, added.0);
    assert(media.push(added).drop_last() =~= media);
}

/// A floppy image that has been loaded, on its way into a drive.
pub struct FloppyMedium<I> {
    pub image: I,
    /// Whether it holds changes that have not been saved.
    pub dirty: bool,
    /// Whether it is protected whatever the image says.
    pub force_wp: bool,
}

/// The value of a [`FloppyMedium`] whose image has the value `image`.
pub ghost struct MediumModel<M> {
    pub image: M,
    pub dirty: bool,
    pub force_wp: bool,
}

impl<I> FloppyMedium<I> {
    /// Protect the medium whatever the image says.
    pub fn set_force_wp(&mut self)
        ensures
            *final(self) == (FloppyMedium { force_wp: true, ..*old(self) }),
    {
        self.force_wp = true;
    }

    /// Take the medium as saved.
    pub fn clear_dirty(&mut self)
        ensures
            *final(self) == (FloppyMedium { dirty: false, ..*old(self) }),
    {
        self.dirty = false;
    }
}

/// A medium as it goes into a drive: clean, and protected where that was asked for.
pub open spec fn readied<M>(medium: MediumModel<M>, write_protect: bool) -> MediumModel<M> {
    MediumModel {
        image: medium.image,
        dirty: false,
        force_wp: medium.force_wp || write_protect,
    }
}

/// Removing the images at an ID once more changes nothing.
pub proof fn law_removal_is_final(media: Seq<(usize, Seq<u8>)>, id: usize)
    ensures
        media_without(media_without(media, id), id) == media_without(media, id),
    decreases media.len(),
{
    if media.len() > 0 {
        law_removal_is_final(media.drop_last(), id);
        if media.last().0 != id {
            assert(media_without(media, id).drop_last() =~= media_without(media.drop_last(), id));
        }
    }
}

} // verus!
