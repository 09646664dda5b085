//! The tile images live in bevy's asset store; this module is the only place
//! that touches bevy and wgpu, through a few small trusted items.

use vstd::prelude::*;
use bevy::asset::{Assets, Handle, RenderAssetUsages};
use bevy::image::{Image, ImageSampler};
use wgpu_types::{Extent3d, TextureDimension, TextureFormat};
use crate::model::filled;

verus! {

/// bevy's `Image`, carried opaquely.
#[verifier::external_type_specification]
#[verifier::external_body]
pub struct ExImage(Image);

/// A handle to one tile's image in bevy's asset store (a bevy `Handle<Image>`).
#[verifier::external_body]
pub struct TileImage(pub Handle<Image>);

/// Bevy's image store (`Assets<Image>`), borrowed for the length of one
/// canvas operation.
#[verifier::external_body]
pub struct ImageStore<'a>(pub &'a mut Assets<Image>);

/// The pixel data an image holds: its `data` field.
pub uninterp spec fn image_data(image: Image) -> Option<Seq<u8>>;

/// The asset id that a handle points to, as a key into the store.
pub uninterp spec fn image_key(handle: TileImage) -> int;

/// The images the store holds: for the key of each image present, that
/// image's pixel data.
pub uninterp spec fn stored_images(store: ImageStore) -> Map<int, Option<Seq<u8>>>;

/// The image samples linearly: its sampler is `ImageSampler::linear()`.
pub uninterp spec fn samples_linearly(image: Image) -> bool;

/// The keys of the images in the store that sample linearly.
pub uninterp spec fn linear_images(store: ImageStore) -> Set<int>;

/// Calls `Image::new_fill` for a `width` x `height` sRGB RGBA8 2D texture
/// usable from both the main and the render world. With a four-byte pixel
/// format `new_fill` fills the data with `fill` repeated once per pixel.
/// `new_fill` computes `width * height` in `u32` and debug-asserts that the
/// fill fits in the buffer, so the area must fit in `u32` and both sides must
/// be at least one pixel.
#[verifier::external_body]
pub(crate) fn new_filled_image(width: u32, height: u32, fill: [u8; 4]) -> (image: Image)
    requires
        width >= 1,
        height >= 1,
        width * height <= u32::MAX,
    ensures
        image_data(image) == Some(filled(fill@, width * height)),
{
    Image::new_fill(
        Extent3d { width, height, depth_or_array_layers: 1 },
        TextureDimension::D2,
        &fill,
        TextureFormat::Rgba8UnormSrgb,
        RenderAssetUsages::MAIN_WORLD | RenderAssetUsages::RENDER_WORLD,
    )
}

/// Sets the image's sampler to `ImageSampler::linear()`; its pixel data is
/// left as it was.
#[verifier::external_body]
pub(crate) fn use_linear_sampler(image: &mut Image)
    ensures
        image_data(*final(image)) == image_data(*old(image)),
        samples_linearly(*final(image)),
{
    image.sampler = ImageSampler::linear();
}

/// Calls `Assets::add`, which stores the image under a freshly allocated
/// asset id and returns a strong handle to it: the key was not in use, and
/// the store gains the image there (its data and its sampler) and changes
/// nowhere else.
#[verifier::external_body]
pub(crate) fn add_image(images: &mut ImageStore, image: Image) -> (handle: TileImage)
    ensures
        !stored_images(*old(images)).dom().contains(image_key(handle)),
        stored_images(*final(images)) == stored_images(*old(images)).insert(
            image_key(handle),
            image_data(image),
        ),
        linear_images(*final(images)) == if samples_linearly(image) {
            linear_images(*old(images)).insert(image_key(handle))
        } else {
            linear_images(*old(images)).remove(image_key(handle))
        },
{
    TileImage(images.0.add(image))
}

/// Calls `Assets::get_mut` for `handle`: when the store holds that image, its
/// pixel data becomes `data` and `true` is returned; otherwise the store is
/// left as it was and `false` is returned. No image's sampler changes.
#[verifier::external_body]
pub(crate) fn replace_image_data(
    images: &mut ImageStore,
    handle: &TileImage,
    data: Vec<u8>,
) -> (stored: bool)
    ensures
        stored == stored_images(*old(images)).dom().contains(image_key(*handle)),
        stored ==> stored_images(*final(images)) == stored_images(*old(images)).insert(
            image_key(*handle),
            Some(data@),
        ),
        !stored ==> stored_images(*final(images)) == stored_images(*old(images)),
        linear_images(*final(images)) == linear_images(*old(images)),
{
    match images.0.get_mut(&handle.0) {
        Some(image) => {
            image.data = Some(data);
            true
        },
        None => false,
    }
}

} // verus!
