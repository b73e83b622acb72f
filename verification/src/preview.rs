//! What the preview keeps of an image, and where thumbnails are stored.
use vstd::prelude::*;
use std::collections::hash_map::DefaultHasher;
use std::hash::{Hash, Hasher};
use crate::config::{is_image_path, lowercase, Config};
use crate::kitty::Picture;
use crate::path::{extension, has_root, join, join_path};
use crate::text::{digit_char, hex_lower, push_hex};

verus! {

/// Width of the thumbnails generated for previews, in pixels.
pub const PREVIEW_WIDTH: u32 = 100;

/// Height of the thumbnails generated for previews, in pixels.
pub const PREVIEW_HEIGHT: u32 = 75;

/// Whether thumbnails are blurred after scaling.
pub const ENABLE_BLUR: bool = false;

/// How long a preview waits for a thumbnail to be generated, in
/// milliseconds, before leaving it to the background.
pub const THUMBNAIL_TIMEOUT_MS: u64 = 500;

/// What the cache knows of an image: where its thumbnail is and the size of
/// the image.
pub struct ImageInfo {
    pub thumbnail_path: String,
    pub dimensions: (u32, u32),
}

/// What the browser shows of the image being previewed.
pub struct CachedImage {
    pub dimensions: (u32, u32),
    pub size_bytes: u64,
}

/// The value std's `DefaultHasher`, made with `new`, gives for a string
/// hashed with `str`'s `Hash`. std documents that every hasher made with
/// `new` is the same, so the value depends on the string alone; the
/// algorithm itself is left unspecified.
pub uninterp spec fn default_hash(s: Seq<char>) -> u64;

/// Hashes a string with std's `DefaultHasher` (`new`, the string's `Hash`,
/// `finish`). The contract names the result.
#[verifier::external_body]
fn hash_text(s: &str) -> (r: u64)
    ensures
        r == default_hash(s@),
{
    let mut hasher = DefaultHasher::new();
    s.hash(&mut hasher);
    hasher.finish()
}

/// The image the `image` crate decodes from `bytes`, its format taken from
/// the extension of `path` (`ImageReader` with default limits, `decode`),
/// converted to 8-bit RGBA (`to_rgba8`): width, height and pixels; `None`
/// when the format is unknown or decoding fails.
pub uninterp spec fn decoded_rgba(path: Seq<char>, bytes: Seq<u8>) -> Option<(u32, u32, Seq<u8>)>;

/// What the `image` crate makes of an image's `bytes`, its format taken
/// from the extension of `path`: decoded without limits, scaled with
/// `thumbnail` to fit `max_width` by `max_height`, and encoded as JPEG.
/// The result is the width and height of the decoded image, the width and
/// height of the thumbnail, and the JPEG bytes; `None` when decoding or
/// encoding fails.
pub uninterp spec fn jpeg_thumbnail(path: Seq<char>, bytes: Seq<u8>, max_width: u32, max_height: u32) -> Option<(u32, u32, u32, u32, Seq<u8>)>;

/// Decodes an image with the `image` crate: `ImageFormat::from_path`,
/// `ImageReader::with_format` over the bytes, `decode`, `to_rgba8`. The
/// contract names the result and says the pixel buffer holds four bytes
/// per pixel, as an RGBA buffer does.
#[verifier::external_body]
fn decode_rgba(path: &str, bytes: &Vec<u8>) -> (r: Option<(u32, u32, Vec<u8>)>)
    ensures
        match r {
            Some((w, h, px)) => decoded_rgba(path@, bytes@) == Some((w, h, px@)) && px@.len() == 4
                * w * h,
            None => decoded_rgba(path@, bytes@) is None,
        },
{
    let format = image::ImageFormat::from_path(path).ok()?;
    let reader = image::ImageReader::with_format(std::io::Cursor::new(bytes.as_slice()), format);
    let rgba = reader.decode().ok()?.to_rgba8();
    let (w, h) = rgba.dimensions();
    Some((w, h, rgba.into_raw()))
}

/// Makes a JPEG thumbnail with the `image` crate: `ImageFormat::from_path`,
/// `ImageReader::with_format` over the bytes with `no_limits`, `decode`,
/// `DynamicImage::thumbnail`, `write_to` in JPEG. The bound on the
/// thumbnail's size keeps its buffer within what Rust can allocate. The
/// contract names the result, and states what the crate documents of
/// `thumbnail`: the thumbnail keeps the aspect ratio and fits within the
/// bounds when both are at least one pixel.
#[verifier::external_body]
fn make_jpeg_thumbnail(path: &str, bytes: &Vec<u8>, max_width: u32, max_height: u32) -> (r: Option<
    (u32, u32, u32, u32, Vec<u8>),
>)
    requires
        max_width * max_height * 16 <= isize::MAX,
    ensures
        match r {
            Some((w, h, tw, th, j)) => {
                &&& jpeg_thumbnail(path@, bytes@, max_width, max_height) == Some((w, h, tw, th, j@))
                &&& max_width >= 1 && max_height >= 1 ==> tw <= max_width && th <= max_height
            },
            None => jpeg_thumbnail(path@, bytes@, max_width, max_height) is None,
        },
{
    let format = image::ImageFormat::from_path(path).ok()?;
    let mut reader = image::ImageReader::with_format(std::io::Cursor::new(bytes.as_slice()), format);
    reader.no_limits();
    let image = reader.decode().ok()?;
    let thumbnail = image.thumbnail(max_width, max_height);
    let mut out = std::io::Cursor::new(Vec::new());
    thumbnail.write_to(&mut out, image::ImageFormat::Jpeg).ok()?;
    Some((image.width(), image.height(), thumbnail.width(), thumbnail.height(), out.into_inner()))
}

/// Whether a path names an HEIC image (converted with `sips`).
pub open spec fn is_heic_path(p: Seq<char>) -> bool {
    match extension(p) {
        Some(e) => lowercase(e) == "heic"@,
        None => false,
    }
}

/// The name of the thumbnail for a path with the given hash.
pub open spec fn thumbnail_name(hash: u64) -> Seq<char> {
    hex_lower(hash as nat) + ".jpg"@
}

/// Where the thumbnail of an image is kept: in the thumbnail directory,
/// named by the hash of the image's path.
pub open spec fn thumbnail_file(thumbnail_dir: Seq<char>, path: Seq<char>) -> Seq<char> {
    join(thumbnail_dir, thumbnail_name(default_hash(path)))
}

/// The larger of a thumbnail's two bounds.
pub open spec fn larger(width: u32, height: u32) -> u32 {
    if width >= height {
        width
    } else {
        height
    }
}

/// Where the thumbnail shown in a preview comes from.
pub enum ImageSource {
    /// The cache knows the image; its thumbnail is at this path.
    Known(String),
    /// The image's thumbnail file already exists at this path.
    OnDisk(String),
    /// The thumbnail is to be generated, within the time allowed.
    Generate,
}

/// What follows an attempt to generate a preview's thumbnail.
pub enum AfterGeneration {
    /// Record the thumbnail in the cache and load it.
    CacheAndLoad(ImageInfo),
    /// Send the image to the background preloader; there is no preview yet.
    PreloadAndWait,
}

/// What making the thumbnail of an image comes to.
pub enum ThumbnailPlan {
    /// The path is not an image; there is no thumbnail.
    NotAnImage,
    /// The thumbnail already kept is used.
    Reuse(ImageInfo),
    /// An HEIC image: `sips` is run with these arguments, then the file it
    /// wrote is read with `converted_thumbnail`.
    ConvertHeic(Vec<String>),
    /// The image is read and its thumbnail made with `generate_thumbnail`.
    Generate,
}

/// The meaning of a `ThumbnailPlan`.
pub enum ThumbnailStep {
    NotAnImage,
    Reuse(Seq<char>, (u32, u32)),
    ConvertHeic(Seq<Seq<char>>),
    Generate,
}

impl View for ThumbnailPlan {
    type V = ThumbnailStep;

    open spec fn view(&self) -> ThumbnailStep {
        match self {
            ThumbnailPlan::NotAnImage => ThumbnailStep::NotAnImage,
            ThumbnailPlan::Reuse(info) => ThumbnailStep::Reuse(
                info.thumbnail_path@,
                info.dimensions,
            ),
            ThumbnailPlan::ConvertHeic(args) => ThumbnailStep::ConvertHeic(
                args@.map_values(|a: String| a@),
            ),
            ThumbnailPlan::Generate => ThumbnailStep::Generate,
        }
    }
}

/// The plan for the thumbnail of `path` at most `width` by `height`
/// pixels, given the bytes of the thumbnail file when there is one: none
/// for a path that is not an image; the kept thumbnail when it decodes;
/// else a conversion with `sips` for HEIC images, a new thumbnail for
/// others.
pub open spec fn thumbnail_plan(
    thumbnail_dir: Seq<char>,
    path: Seq<char>,
    existing: Option<Seq<u8>>,
    width: u32,
    height: u32,
) -> ThumbnailStep {
    let t = thumbnail_file(thumbnail_dir, path);
    if !is_image_path(path) {
        ThumbnailStep::NotAnImage
    } else if existing matches Some(b) && decoded_rgba(t, b) is Some {
        let d = decoded_rgba(t, existing.unwrap()).unwrap();
        ThumbnailStep::Reuse(t, (d.0, d.1))
    } else if is_heic_path(path) {
        ThumbnailStep::ConvertHeic(sips_arguments_spec(larger(width, height), path, t))
    } else {
        ThumbnailStep::Generate
    }
}

proof fn lemma_digit_char_injective(a: nat, b: nat)
    requires
        a < 16,
        b < 16,
        digit_char(a) == digit_char(b),
    ensures
        a == b,
{
    assert(digit_char(a) as int == if a < 10 { 48 + a } else { 87 + a });
    assert(digit_char(b) as int == if b < 10 { 48 + b } else { 87 + b });
}

proof fn lemma_hex_first_digit(n: nat)
    ensures
        hex_lower(n).len() >= 1,
        hex_lower(n)[0] != '/',
    decreases n,
{
    if n < 16 {
        assert(digit_char(n) as int == if n < 10 { 48 + n } else { 87 + n });
    } else {
        lemma_hex_first_digit(n / 16);
        assert(hex_lower(n)[0] == hex_lower(n / 16)[0]);
    }
}

proof fn lemma_hex_injective(a: nat, b: nat)
    requires
        hex_lower(a) == hex_lower(b),
    ensures
        a == b,
    decreases a,
{
    lemma_hex_first_digit(a / 16);
    lemma_hex_first_digit(b / 16);
    if a < 16 && b < 16 {
        assert(hex_lower(a) == seq![digit_char(a)]);
        assert(hex_lower(b) == seq![digit_char(b)]);
        assert(hex_lower(a)[0] == hex_lower(b)[0]);
        assert(seq![digit_char(a)][0] == digit_char(a));
        assert(seq![digit_char(b)][0] == digit_char(b));
        lemma_digit_char_injective(a, b);
    } else if a >= 16 && b >= 16 {
        let ha = hex_lower(a);
        let hb = hex_lower(b);
        assert(ha.last() == hb.last());
        lemma_digit_char_injective(a % 16, b % 16);
        assert(ha.drop_last() =~= hex_lower(a / 16));
        assert(hb.drop_last() =~= hex_lower(b / 16));
        lemma_hex_injective(a / 16, b / 16);
    } else if a < 16 {
        assert(hex_lower(a).len() == 1);
        assert(hex_lower(b).len() == hex_lower(b / 16).len() + 1);
    } else {
        assert(hex_lower(b).len() == 1);
        assert(hex_lower(a).len() == hex_lower(a / 16).len() + 1);
    }
}

/// Images whose paths hash to different values get different thumbnail
/// files; an image always gets the same one.
pub proof fn law_distinct_thumbnails(thumbnail_dir: Seq<char>, p: Seq<char>, q: Seq<char>)
    requires
        default_hash(p) != default_hash(q),
    ensures
        thumbnail_file(thumbnail_dir, p) != thumbnail_file(thumbnail_dir, q),
{
    reveal_strlit(".jpg");
    let hp = default_hash(p) as nat;
    let hq = default_hash(q) as nat;
    let np = thumbnail_name(default_hash(p));
    let nq = thumbnail_name(default_hash(q));
    lemma_hex_first_digit(hp);
    lemma_hex_first_digit(hq);
    assert(np[0] == hex_lower(hp)[0]);
    assert(nq[0] == hex_lower(hq)[0]);
    assert(!has_root(np) && !has_root(nq));
    if thumbnail_file(thumbnail_dir, p) == thumbnail_file(thumbnail_dir, q) {
        let base: Seq<char> = if thumbnail_dir.len() > 0 && thumbnail_dir.last() != '/' {
            thumbnail_dir + seq!['/']
        } else {
            thumbnail_dir
        };
        assert(thumbnail_file(thumbnail_dir, p) =~= base + np);
        assert(thumbnail_file(thumbnail_dir, q) =~= base + nq);
        assert(np.len() == nq.len());
        assert(np =~= (base + np).subrange(base.len() as int, (base + np).len() as int));
        assert(nq =~= (base + nq).subrange(base.len() as int, (base + nq).len() as int));
        assert(np == nq);
        assert(hex_lower(hp) =~= np.subrange(0, np.len() - 4));
        assert(hex_lower(hq) =~= nq.subrange(0, nq.len() - 4));
        lemma_hex_injective(hp, hq);
    }
}

/// Where thumbnails are kept, given the user's cache directory (`.cache`
/// when there is none).
pub open spec fn thumbnail_dir_spec(cache_dir: Option<Seq<char>>) -> Seq<char> {
    let base = match cache_dir {
        Some(d) => d,
        None => ".cache"@,
    };
    join(join(base, "mac-wallpaper-tui"@), "thumbnails"@)
}

/// The arguments given to `sips` to convert an HEIC image into a JPEG
/// thumbnail no larger than `max_dimension` on either side.
pub open spec fn sips_arguments_spec(max_dimension: u32, source: Seq<char>, out: Seq<char>) -> Seq<
    Seq<char>,
> {
    seq![
        "-s"@,
        "format"@,
        "jpeg"@,
        "-s"@,
        "formatOptions"@,
        "70"@,
        "-Z"@,
        crate::text::decimal(max_dimension as nat),
        source,
        "--out"@,
        out,
    ]
}

/// The image cache's rules, apart from its storage.
pub struct ImageCache;

impl ImageCache {
    /// Where thumbnails are kept.
    pub fn thumbnail_dir(cache_dir: Option<String>) -> (r: String)
        ensures
            r@ == thumbnail_dir_spec(
                match cache_dir {
                    Some(d) => Some(d@),
                    None => None,
                },
            ),
    {
        let base = match cache_dir {
            Some(d) => d,
            None => String::from_str(".cache"),
        };
        let dir = join_path(base.as_str(), "mac-wallpaper-tui");
        join_path(dir.as_str(), "thumbnails")
    }

    /// The name of a path's thumbnail: the path's hash in hexadecimal.
    pub fn hash_path(path: &str) -> (r: String)
        ensures
            r@ == hex_lower(default_hash(path@) as nat),
    {
        let h = hash_text(path);
        let mut s = String::new();
        push_hex(&mut s, h);
        assert(s@ =~= hex_lower(h as nat));
        s
    }

    /// The thumbnail path in `thumbnail_dir` for a path with hash `hash`.
    pub fn thumbnail_path_for_hash(thumbnail_dir: &str, hash: u64) -> (r: String)
        ensures
            r@ == join(thumbnail_dir@, thumbnail_name(hash)),
    {
        let mut name = String::new();
        push_hex(&mut name, hash);
        let name = name.concat(".jpg");
        join_path(thumbnail_dir, name.as_str())
    }

    /// Where the thumbnail of a path is kept: its hash in hexadecimal with
    /// `.jpg`, inside the thumbnail directory.
    pub fn get_thumbnail_path(thumbnail_dir: &str, original_path: &str) -> (r: String)
        ensures
            r@ == thumbnail_file(thumbnail_dir@, original_path@),
    {
        let h = hash_text(original_path);
        Self::thumbnail_path_for_hash(thumbnail_dir, h)
    }

    /// Whether a path names an image a thumbnail can be made of.
    pub fn is_image_file(path: &str) -> (r: bool)
        ensures
            r == is_image_path(path@),
    {
        let config = Config::with_root(String::new());
        config.is_valid_image(path)
    }

    /// Whether a path names an HEIC image.
    pub fn is_heic_file(path: &str) -> (r: bool)
        ensures
            r == is_heic_path(path@),
    {
        match crate::path::extension_of(path) {
            Some(ext) => {
                let lower = crate::config::lower_case(ext.as_str());
                crate::text::same_text(lower.as_str(), "heic")
            },
            None => false,
        }
    }

    /// The arguments given to `sips` to make an HEIC thumbnail of at most
    /// `width` by `height` pixels: it is bounded by the larger of the two.
    pub fn sips_arguments(width: u32, height: u32, source: &str, out: &str) -> (r: Vec<String>)
        ensures
            r@.map_values(|s: String| s@) == sips_arguments_spec(
                if width >= height {
                    width
                } else {
                    height
                },
                source@,
                out@,
            ),
    {
        let max_dimension = if width >= height {
            width
        } else {
            height
        };
        let mut r: Vec<String> = Vec::new();
        r.push(String::from_str("-s"));
        r.push(String::from_str("format"));
        r.push(String::from_str("jpeg"));
        r.push(String::from_str("-s"));
        r.push(String::from_str("formatOptions"));
        r.push(String::from_str("70"));
        r.push(String::from_str("-Z"));
        r.push(crate::text::decimal_string(max_dimension as u64));
        r.push(String::from_str(source));
        r.push(String::from_str("--out"));
        r.push(String::from_str(out));
        assert(r@.map_values(|s: String| s@) =~= sips_arguments_spec(
            max_dimension,
            source@,
            out@,
        ));
        r
    }

    /// The plan for the thumbnail of `path` at most `width` by `height`
    /// pixels, given the bytes of its thumbnail file when there is one.
    pub fn thumbnail_step(
        thumbnail_dir: &str,
        path: &str,
        existing: Option<Vec<u8>>,
        width: u32,
        height: u32,
    ) -> (r: ThumbnailPlan)
        ensures
            r@ == thumbnail_plan(
                thumbnail_dir@,
                path@,
                match existing {
                    Some(b) => Some(b@),
                    None => None,
                },
                width,
                height,
            ),
    {
        if !Self::is_image_file(path) {
            return ThumbnailPlan::NotAnImage;
        }
        let thumbnail_path = Self::get_thumbnail_path(thumbnail_dir, path);
        if let Some(bytes) = existing {
            if let Some(info) = Self::converted_thumbnail(thumbnail_path.as_str(), &bytes) {
                return ThumbnailPlan::Reuse(info);
            }
        }
        if Self::is_heic_file(path) {
            ThumbnailPlan::ConvertHeic(
                Self::sips_arguments(width, height, path, thumbnail_path.as_str()),
            )
        } else {
            ThumbnailPlan::Generate
        }
    }

    /// What is known of a thumbnail file with these bytes: its path and the
    /// size it decodes to; `None` when it does not decode.
    pub fn converted_thumbnail(thumbnail_path: &str, bytes: &Vec<u8>) -> (r: Option<ImageInfo>)
        ensures
            match r {
                Some(info) => {
                    &&& info.thumbnail_path@ == thumbnail_path@
                    &&& decoded_rgba(thumbnail_path@, bytes@) is Some
                    &&& info.dimensions == (
                        decoded_rgba(thumbnail_path@, bytes@).unwrap().0,
                        decoded_rgba(thumbnail_path@, bytes@).unwrap().1,
                    )
                },
                None => decoded_rgba(thumbnail_path@, bytes@) is None,
            },
    {
        match decode_rgba(thumbnail_path, bytes) {
            Some((w, h, _)) => Some(
                ImageInfo { thumbnail_path: String::from_str(thumbnail_path), dimensions: (w, h) },
            ),
            None => None,
        }
    }

    /// A new thumbnail of the image `path` with bytes `source`, at most
    /// `width` by `height` pixels, to be written to `thumbnail_path`: what
    /// is then known of it (the size of the image itself), the size of the
    /// thumbnail, and the JPEG bytes; `None` when the image cannot be
    /// decoded or encoded.
    pub fn generate_thumbnail(
        thumbnail_path: &str,
        path: &str,
        source: &Vec<u8>,
        width: u32,
        height: u32,
    ) -> (r: Option<(ImageInfo, (u32, u32), Vec<u8>)>)
        requires
            width * height * 16 <= isize::MAX,
        ensures
            match r {
                Some((info, size, jpeg)) => {
                    &&& info.thumbnail_path@ == thumbnail_path@
                    &&& jpeg_thumbnail(path@, source@, width, height) == Some(
                        (info.dimensions.0, info.dimensions.1, size.0, size.1, jpeg@),
                    )
                    &&& width >= 1 && height >= 1 ==> size.0 <= width && size.1 <= height
                },
                None => jpeg_thumbnail(path@, source@, width, height) is None,
            },
    {
        match make_jpeg_thumbnail(path, source, width, height) {
            Some((w, h, tw, th, jpeg)) => Some(
                (
                    ImageInfo {
                        thumbnail_path: String::from_str(thumbnail_path),
                        dimensions: (w, h),
                    },
                    (tw, th),
                    jpeg,
                ),
            ),
            None => None,
        }
    }

    /// Where a preview's thumbnail comes from: the one the cache knows, the
    /// file already kept for the image, or one still to be generated.
    pub fn image_source(
        thumbnail_dir: &str,
        path: &str,
        cached: Option<ImageInfo>,
        thumbnail_exists: bool,
    ) -> (r: ImageSource)
        ensures
            match cached {
                Some(i) => r matches ImageSource::Known(t) && t@ == i.thumbnail_path@,
                None => if thumbnail_exists {
                    r matches ImageSource::OnDisk(t) && t@ == thumbnail_file(thumbnail_dir@, path@)
                } else {
                    r is Generate
                },
            },
    {
        match cached {
            Some(info) => ImageSource::Known(info.thumbnail_path),
            None => {
                if thumbnail_exists {
                    ImageSource::OnDisk(Self::get_thumbnail_path(thumbnail_dir, path))
                } else {
                    ImageSource::Generate
                }
            },
        }
    }

    /// What follows an attempt to generate a thumbnail within the time
    /// allowed: on success the cache learns of it and the preview loads it;
    /// on failure or timeout the image goes to the background preloader and
    /// the preview waits.
    pub fn after_generation(generated: Option<ImageInfo>) -> (r: AfterGeneration)
        ensures
            generated is None <==> r is PreloadAndWait,
            r matches AfterGeneration::CacheAndLoad(i) ==> generated matches Some(g)
                && g.thumbnail_path@ == i.thumbnail_path@ && g.dimensions == i.dimensions,
    {
        match generated {
            Some(info) => AfterGeneration::CacheAndLoad(info),
            None => AfterGeneration::PreloadAndWait,
        }
    }

    /// A thumbnail file decoded for display, as RGBA pixels; `None` when it
    /// does not decode.
    pub fn decode_thumbnail(thumbnail_path: &str, bytes: &Vec<u8>) -> (r: Option<Picture>)
        ensures
            match r {
                Some(p) => p.wf() && decoded_rgba(thumbnail_path@, bytes@) == Some(
                    (p.width, p.height, p.pixels@),
                ),
                None => decoded_rgba(thumbnail_path@, bytes@) is None,
            },
    {
        match decode_rgba(thumbnail_path, bytes) {
            Some((width, height, pixels)) => Some(Picture { width, height, pixels }),
            None => None,
        }
    }
}

} // verus!
