use vstd::prelude::*;
use image::DynamicImage;
use image::GenericImageView;
use img_hash::HasherConfig;
use crate::entry::EntryView;
use crate::entry::FileEntry;
use crate::lists::law_picked_items;
use crate::lists::lemma_picked_last;
use crate::lists::picked;
use crate::text::decimal;
use crate::text::decimal_text;

verus! {

/// A decoded image, as `image` has it: a table of pixels.
#[verifier::external_type_specification]
#[verifier::external_body]
pub struct ExDynamicImage(DynamicImage);

/// The width and the height of the pixels that an image holds.
pub uninterp spec fn image_size(image: DynamicImage) -> (u32, u32);

/// Calls `GenericImageView::dimensions`.
///
/// Claimed of it: it gives the width and the height of the image.
#[verifier::external_body]
fn dimensions_of(image: &DynamicImage) -> (size: (u32, u32))
    ensures
        size == image_size(*image),
{
    image.dimensions()
}

/// Calls `img_hash::Hasher::hash_image` with the default configuration for hashes of eight
/// bytes, and reads the bytes as one number, the first byte highest.
///
/// Nothing is claimed of the hash: the hasher scales the image with floating-point functions whose
/// results may differ from machine to machine. The call panics on an image without pixels, so
/// such an image is left out.
#[verifier::external_body]
fn hash_of(image: &DynamicImage) -> (hash: u64)
    requires
        image_size(*image).0 > 0,
        image_size(*image).1 > 0,
{
    let hasher = HasherConfig::with_bytes_type::<[u8; 8]>().to_hasher();
    let mut buf = [0u8; 8];
    buf.copy_from_slice(hasher.hash_image(image).as_bytes());
    u64::from_be_bytes(buf)
}

/// Whether the hasher comes back with the given hash for an image. As its results may differ from
/// machine to machine, it may have more than one for an image.
pub closed spec fn hasher_gives(image: DynamicImage, hash: u64) -> bool {
    call_ensures(hash_of, (&image,), hash)
}

/// The hashes that the hasher gives are those of the call of it.
proof fn law_hashes_come_from_the_hasher(image: &DynamicImage, hash: u64)
    ensures
        hasher_gives(*image, hash) <==> call_ensures(hash_of, (image,), hash),
{
}

/// The size of an image as results show it.
pub open spec fn dimensions_text(width: u32, height: u32) -> Seq<char> {
    decimal(width as nat) + "x"@ + decimal(height as nat)
}

/// The entry with the size of its image filled in.
pub open spec fn with_dimensions(entry: EntryView, width: u32, height: u32) -> EntryView {
    EntryView { dimensions: dimensions_text(width, height), ..entry }
}

/// Fills in the size of an image in its entry.
pub fn fill_dimensions(entry: &FileEntry, width: u32, height: u32) -> (filled: FileEntry)
    ensures
        filled@ == with_dimensions(entry@, width, height),
{
    let mut file_entry = entry.clone();
    let mut dimensions = decimal_text(width as u64);
    dimensions.append("x");
    dimensions.append(decimal_text(height as u64).as_str());
    file_entry.dimensions = dimensions;
    file_entry
}

/// Why an image file could not be hashed.
#[derive(Clone, Copy, PartialEq, Eq, Debug, Structural)]
pub enum ReadError {
    /// Something is wrong with the image.
    Undecodable,
    /// The image has no pixels.
    NoPixels,
}

/// Fills in the size of an image in its entry, and hashes the image.
///
/// `image` is what decoding the file gave, if it could be decoded.
pub fn read_image(entry: &FileEntry, image: Option<&DynamicImage>) -> (hashed: Result<
    (FileEntry, u64),
    ReadError,
>)
    ensures
        match image {
            None => hashed == Err::<(FileEntry, u64), ReadError>(ReadError::Undecodable),
            Some(image) => {
                let (width, height) = image_size(*image);
                if width == 0 || height == 0 {
                    hashed == Err::<(FileEntry, u64), ReadError>(ReadError::NoPixels)
                } else {
                    &&& hashed is Ok
                    &&& hashed->Ok_0.0@ == with_dimensions(entry@, width, height)
                    &&& hasher_gives(*image, hashed->Ok_0.1)
                }
            },
        },
{
    match image {
        None => Err(ReadError::Undecodable),
        Some(image) => {
            let (width, height) = dimensions_of(image);
            if width == 0 || height == 0 {
                return Err(ReadError::NoPixels);
            }
            let file_entry = fill_dimensions(entry, width, height);
            let hash = hash_of(image);
            Ok((file_entry, hash))
        },
    }
}

/// An image is hashed exactly if it was decoded and has pixels. Its hash is one that the hasher
/// gives for it, and of its entry nothing changes but the dimensions, which become the width and
/// the height of the image in decimal, with an `x` between them.
pub proof fn law_images_are_read_as_they_are(
    entry: &FileEntry,
    image: Option<&DynamicImage>,
    hashed: Result<(FileEntry, u64), ReadError>,
)
    requires
        call_ensures(read_image, (entry, image), hashed),
    ensures
        hashed is Ok <==> (image matches Some(image) && image_size(*image).0 > 0 && image_size(
            *image,
        ).1 > 0),
        hashed matches Err(error) ==> (error == ReadError::Undecodable <==> image is None),
        hashed matches Ok(read) ==> {
            &&& hasher_gives(*image->0, read.1)
            &&& read.0.path@ == entry.path@
            &&& read.0.size == entry.size
            &&& read.0.modified_date == entry.modified_date
            &&& read.0.similarity == entry.similarity
            &&& read.0.dimensions@ == decimal(image_size(*image->0).0 as nat) + seq!['x']
                + decimal(image_size(*image->0).1 as nat)
        },
{
    reveal_strlit("x");
    if let Ok(read) = hashed {
        let (width, height) = image_size(*image->0);
        assert(read.0@ == with_dimensions(entry@, width, height));
        assert("x"@ =~= seq!['x']);
    }
}

/// What a list of hashed images says.
pub open spec fn hashed_views(hashed: Seq<(FileEntry, u64)>) -> Seq<(EntryView, u64)> {
    hashed.map_values(|image: (FileEntry, u64)| (image.0@, image.1))
}

/// What a list of images says of which some could not be hashed.
pub open spec fn outcome_views(outcomes: Seq<Option<(FileEntry, u64)>>) -> Seq<
    Option<(EntryView, u64)>,
> {
    outcomes.map_values(
        |outcome: Option<(FileEntry, u64)>|
            match outcome {
                Some(image) => Some((image.0@, image.1)),
                None => None,
            },
    )
}

/// The images that could be hashed, in their order.
pub open spec fn hashed_ones(outcomes: Seq<Option<(EntryView, u64)>>) -> Seq<(EntryView, u64)> {
    picked(
        outcomes,
        |outcome: Option<(EntryView, u64)>| outcome is Some,
        |outcome: Option<(EntryView, u64)>| outcome->0,
    )
}

proof fn lemma_hashed_ones_last(outcomes: Seq<Option<(EntryView, u64)>>)
    ensures
        outcomes.len() == 0 ==> hashed_ones(outcomes) == Seq::<(EntryView, u64)>::empty(),
        outcomes.len() > 0 ==> hashed_ones(outcomes) == match outcomes.last() {
            Some(image) => hashed_ones(outcomes.drop_last()).push(image),
            None => hashed_ones(outcomes.drop_last()),
        },
{
    lemma_picked_last(
        outcomes,
        |outcome: Option<(EntryView, u64)>| outcome is Some,
        |outcome: Option<(EntryView, u64)>| outcome->0,
    );
}

/// Leaves out the images that could not be hashed.
pub fn decoded(outcomes: Vec<Option<(FileEntry, u64)>>) -> (hashed: Vec<(FileEntry, u64)>)
    ensures
        hashed_views(hashed@) == hashed_ones(outcome_views(outcomes@)),
{
    let ghost views = outcome_views(outcomes@);
    let mut hashed: Vec<(FileEntry, u64)> = Vec::new();
    proof {
        lemma_hashed_ones_last(views.take(0));
        assert(hashed_views(hashed@) =~= hashed_ones(views.take(0)));
    }
    let mut i: usize = 0;
    while i < outcomes.len()
        invariant
            i <= outcomes.len(),
            views == outcome_views(outcomes@),
            hashed_views(hashed@) == hashed_ones(views.take(i as int)),
        decreases outcomes.len() - i,
    {
        let ghost so_far = hashed@;
        proof {
            assert(views.take(i + 1).drop_last() =~= views.take(i as int));
            assert(views.take(i + 1).last() == views[i as int]);
            lemma_hashed_ones_last(views.take(i + 1));
        }
        if let Some((file_entry, hash)) = &outcomes[i] {
            let image = (file_entry.clone(), *hash);
            hashed.push(image);
            assert(hashed_views(hashed@) =~= hashed_views(so_far).push((image.0@, image.1)));
        }
        i += 1;
    }
    assert(views.take(i as int) =~= views);
    hashed
}

/// Whether an entry is that of one of the given images, with the size of the image filled in.
pub open spec fn read_from(entry: EntryView, images: Seq<EntryView>) -> bool {
    exists|i: int, width: u32, height: u32|
        0 <= i < images.len() && entry == #[trigger] with_dimensions(images[i], width, height)
}

/// Whether the hashed images are among the given ones.
pub open spec fn hashed_from(hashed: Seq<(EntryView, u64)>, images: Seq<EntryView>) -> bool {
    forall|i: int| 0 <= i < hashed.len() ==> read_from((#[trigger] hashed[i]).0, images)
}

/// Where each outcome is that of one of the given images, nothing but those images is hashed.
pub proof fn law_hashed_images_were_given(
    outcomes: Seq<Option<(EntryView, u64)>>,
    images: Seq<EntryView>,
)
    requires
        forall|i: int|
            0 <= i < outcomes.len() ==> ((#[trigger] outcomes[i]) matches Some(image) ==> read_from(
                image.0,
                images,
            )),
    ensures
        hashed_from(hashed_ones(outcomes), images),
    decreases outcomes.len(),
{
    lemma_hashed_ones_last(outcomes);
    if outcomes.len() > 0 {
        let shorter = outcomes.drop_last();
        assert forall|i: int| 0 <= i < shorter.len() implies ((
        #[trigger] shorter[i]) matches Some(image) ==> read_from(image.0, images)) by {
            assert(shorter[i] == outcomes[i]);
        }
        law_hashed_images_were_given(shorter, images);
        assert(outcomes[outcomes.len() - 1] == outcomes.last());
    }
}

/// Leaving out the images that could not be hashed keeps all the others, each once and as it is, in
/// order. The result are the places where they stood.
pub proof fn law_hashed_images_are_kept(
    outcomes: Vec<Option<(FileEntry, u64)>>,
    hashed: Vec<(FileEntry, u64)>,
) -> (places: Seq<int>)
    requires
        call_ensures(decoded, (outcomes,), hashed),
    ensures
        places.len() == hashed@.len(),
        forall|n: int|
            0 <= n < places.len() ==> {
                &&& 0 <= #[trigger] places[n] < outcomes@.len()
                &&& outcomes@[places[n]] matches Some(image) && hashed@[n].0@ == image.0@
                    && hashed@[n].1 == image.1
            },
        forall|m: int, n: int|
            0 <= m < n < places.len() ==> (#[trigger] places[m]) < (#[trigger] places[n]),
        forall|i: int|
            0 <= i < outcomes@.len() && (#[trigger] outcomes@[i]) is Some ==> places.contains(i),
{
    let views = outcome_views(outcomes@);
    let places = law_picked_items(
        views,
        |outcome: Option<(EntryView, u64)>| outcome is Some,
        |outcome: Option<(EntryView, u64)>| outcome->0,
    );
    assert(hashed_views(hashed@).len() == hashed@.len());
    assert forall|n: int| 0 <= n < places.len() implies {
        &&& 0 <= #[trigger] places[n] < outcomes@.len()
        &&& outcomes@[places[n]] matches Some(image) && hashed@[n].0@ == image.0@ && hashed@[n].1
            == image.1
    } by {
        assert(hashed_views(hashed@)[n] == (hashed@[n].0@, hashed@[n].1));
        assert(views[places[n]] is Some);
    }
    assert forall|i: int|
        0 <= i < outcomes@.len() && (#[trigger] outcomes@[i]) is Some implies places.contains(i) by {
        assert(views[i] is Some);
    }
    places
}

} // verus!
