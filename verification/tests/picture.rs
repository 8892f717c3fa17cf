use image::{DynamicImage, GrayImage, ImageFormat, ImageOutputFormat, Luma, Rgb, RgbImage};
use img_hash::HasherConfig;
use similar_images::entry::FilePath;
use similar_images::picture::{decoded, fill_dimensions, read_image, ReadError};
use similar_images::{FileEntry, SimilarImages, Similarity};

fn named(name: &str) -> FileEntry {
    FileEntry {
        path: FilePath {
            bytes: name.as_bytes().to_vec(),
            shown: name.to_string(),
            quoted: format!("{:?}", name),
        },
        size: 12,
        dimensions: String::new(),
        modified_date: 34,
        similarity: Similarity::Unrated,
    }
}

fn entry() -> FileEntry {
    named("/p/a.png")
}

fn stored(image: &DynamicImage, written: ImageOutputFormat, read: ImageFormat) -> DynamicImage {
    let mut contents: Vec<u8> = Vec::new();
    image.write_to(&mut contents, written).unwrap();
    image::load_from_memory_with_format(&contents, read).unwrap()
}

fn brightening() -> DynamicImage {
    DynamicImage::ImageLuma8(GrayImage::from_fn(90, 80, |x, _| Luma([(x * 2) as u8])))
}

fn colourful() -> DynamicImage {
    DynamicImage::ImageRgb8(RgbImage::from_fn(64, 48, |x, y| {
        let light = if (x / 9 + y / 7) % 2 == 0 { 200 } else { 40 };
        Rgb([light, (y * 5) as u8, light / 2])
    }))
}

fn expected_hash(image: &DynamicImage) -> u64 {
    let hasher = HasherConfig::with_bytes_type::<[u8; 8]>().to_hasher();
    let mut bytes = [0u8; 8];
    bytes.copy_from_slice(hasher.hash_image(image).as_bytes());
    u64::from_be_bytes(bytes)
}

#[test]
fn a_brightening_image_sets_every_bit() {
    let image = stored(&brightening(), ImageOutputFormat::Png, ImageFormat::Png);
    let (read, hash) = read_image(&entry(), Some(&image)).unwrap();
    assert_eq!(hash, u64::MAX);
    assert_eq!(read.dimensions, "90x80");
    assert_eq!(read.path.bytes, b"/p/a.png".to_vec());
    assert_eq!(read.path.shown, "/p/a.png");
    assert_eq!(read.size, 12);
    assert_eq!(read.modified_date, 34);
    assert_eq!(read.similarity, Similarity::Unrated);
}

#[test]
fn a_darkening_image_sets_no_bit() {
    let image = stored(&brightening().fliph(), ImageOutputFormat::Bmp, ImageFormat::Bmp);
    let (read, hash) = read_image(&entry(), Some(&image)).unwrap();
    assert_eq!(read.dimensions, "90x80");
    assert_eq!(hash, 0);
}

#[test]
fn colours_hash_as_the_hasher_has_it() {
    let image = stored(&colourful(), ImageOutputFormat::Png, ImageFormat::Png);
    let (read, hash) = read_image(&entry(), Some(&image)).unwrap();
    assert_eq!(read.dimensions, "64x48");
    assert_eq!(hash, expected_hash(&colourful()));
    assert_ne!(hash, 0);
    assert_ne!(hash, u64::MAX);
}

#[test]
fn an_image_that_cannot_be_decoded_has_no_hash() {
    assert!(matches!(read_image(&entry(), None), Err(ReadError::Undecodable)));
}

#[test]
fn an_image_without_pixels_is_told_apart() {
    let image = DynamicImage::ImageLuma8(GrayImage::new(0, 4));
    assert!(matches!(read_image(&entry(), Some(&image)), Err(ReadError::NoPixels)));
    let image = DynamicImage::ImageRgb8(RgbImage::new(4, 0));
    assert!(matches!(read_image(&entry(), Some(&image)), Err(ReadError::NoPixels)));
}

#[test]
fn a_size_is_written_as_width_and_height() {
    assert_eq!(fill_dimensions(&entry(), 3, 2).dimensions, "3x2");
    assert_eq!(fill_dimensions(&entry(), 1024, 768).dimensions, "1024x768");
    assert_eq!(fill_dimensions(&entry(), u32::MAX, 0).dimensions, "4294967295x0");
}

#[test]
fn what_cannot_be_hashed_is_left_out() {
    let outcomes = vec![None, Some((named("b"), 2)), None, None, Some((named("a"), 1)), None];
    let hashed = decoded(outcomes);
    assert_eq!(hashed.len(), 2);
    assert_eq!((hashed[0].0.path.shown.as_str(), hashed[0].1), ("b", 2));
    assert_eq!((hashed[1].0.path.shown.as_str(), hashed[1].1), ("a", 1));
    assert_eq!(decoded(vec![]).len(), 0);
    assert_eq!(decoded(vec![None]).len(), 0);
}

#[test]
fn the_same_image_in_two_formats_is_found() {
    let png = stored(&colourful(), ImageOutputFormat::Png, ImageFormat::Png);
    let bmp = stored(&colourful(), ImageOutputFormat::Bmp, ImageFormat::Bmp);
    let other = stored(&brightening(), ImageOutputFormat::Png, ImageFormat::Png);
    let outcomes = vec![
        read_image(&named("a.png"), Some(&png)).ok(),
        read_image(&named("broken.png"), None).ok(),
        read_image(&named("other.png"), Some(&other)).ok(),
        read_image(&named("b.bmp"), Some(&bmp)).ok(),
    ];
    let mut search = SimilarImages::new();
    assert!(search.find_similar_images(Some(&decoded(outcomes)), None));
    assert_eq!(
        search.print_results(),
        "Found 1 images which have similar friends\n\
         a.png - 64x48 - 12 B - Very High\n\
         b.bmp - 64x48 - 12 B - Very High\n\n"
    );
}
