//! Wall and floor textures: pixel storage, lookup with edge clamping, decoding
//! from image bytes, and the table of textures by wall symbol.
use std::collections::HashMap;
use vstd::prelude::*;

use crate::render::{decimal, push_decimal};
use crate::text::{string_from_chars, text_chars};

verus! {

broadcast use vstd::std_specs::hash::group_hash_axioms;

/// Color of the fallback texture's first diagonal, also returned for pixels
/// of an empty texture.
pub const FALLBACK_MAGENTA: u32 = 0xff00ff;

/// Color of the fallback texture's second diagonal.
pub const FALLBACK_BLACK: u32 = 0x000000;

#[verifier::external_type_specification]
#[verifier::external_body]
pub struct ExImageError(image::ImageError);

/// What the image crate decodes the contents `bytes` of the file at `path`
/// into: width, height and RGBA bytes (four per pixel, row by row), or
/// nothing when it cannot decode them.
pub uninterp spec fn decoded_file_rgba8(path: Seq<char>, bytes: Seq<u8>) -> Option<(u32, u32, Seq<u8>)>;

/// Decodes the contents of the image file at `path` into RGBA pixels, the
/// format being chosen by the path's extension as `image::open` does: with
/// `ImageFormat::from_path`, `image::load_from_memory_with_format` and
/// `DynamicImage::to_rgba8`. The contract names the decoded width, height
/// and bytes after the path and the contents, and says nothing of the error
/// value.
#[verifier::external_body]
fn decode_file_rgba8(path: &str, bytes: &[u8]) -> (res: Result<(u32, u32, Vec<u8>), image::ImageError>)
    ensures
        match res {
            Ok((width, height, rgba)) => decoded_file_rgba8(path@, bytes@) == Some((width, height, rgba@)),
            Err(_) => decoded_file_rgba8(path@, bytes@) is None,
        },
{
    let format = match image::ImageFormat::from_path(path) {
        Ok(format) => format,
        Err(error) => return Err(error),
    };
    match image::load_from_memory_with_format(bytes, format) {
        Ok(decoded) => {
            let rgba = decoded.to_rgba8();
            Ok((rgba.width(), rgba.height(), rgba.into_raw()))
        },
        Err(error) => Err(error),
    }
}

/// Why a texture could not be built.
#[derive(Debug)]
pub enum TextureError {
    InvalidDimensions { width: usize, height: usize },
    PixelCountMismatch { width: usize, height: usize, expected: usize, actual: usize },
    Image(image::ImageError),
}

/// The text of an image decoding error, by its `Display` impl. Nothing is
/// stated of the text: it depends on what went wrong inside the decoder.
#[verifier::external_body]
fn image_error_text(error: &image::ImageError) -> String {
    format!("{error}")
}

/// `chars` followed by the digits of `n`.
fn with_decimal(chars: Vec<char>, n: usize) -> (out: Vec<char>)
    ensures
        out@ == chars@ + decimal(n as nat),
{
    let mut out = chars;
    push_decimal(&mut out, n as u64);
    out
}

/// `chars` followed by the characters of `text`.
fn with_text(chars: Vec<char>, text: &str) -> (out: Vec<char>)
    ensures
        out@ == chars@ + text@,
{
    let mut out = chars;
    let mut tail = text_chars(text);
    out.append(&mut tail);
    out
}

impl TextureError {
    /// The message that describes the error.
    pub fn message(&self) -> (text: String)
        ensures
            match *self {
                TextureError::InvalidDimensions { width, height } => text@
                    == "texture dimensions must be greater than zero, got "@ + decimal(width as nat)
                    + "x"@ + decimal(height as nat),
                TextureError::PixelCountMismatch { width, height, expected, actual } => text@
                    == "texture "@ + decimal(width as nat) + "x"@ + decimal(height as nat)
                    + " needs "@ + decimal(expected as nat) + " pixels, got "@ + decimal(
                    actual as nat,
                ),
                TextureError::Image(_) => exists|detail: Seq<char>|
                    text@ == "could not decode image: "@ + detail,
            },
    {
        match self {
            TextureError::InvalidDimensions { width, height } => {
                let out = text_chars("texture dimensions must be greater than zero, got ");
                let out = with_decimal(out, *width);
                let out = with_text(out, "x");
                let out = with_decimal(out, *height);
                string_from_chars(&out)
            },
            TextureError::PixelCountMismatch { width, height, expected, actual } => {
                let out = text_chars("texture ");
                let out = with_decimal(out, *width);
                let out = with_text(out, "x");
                let out = with_decimal(out, *height);
                let out = with_text(out, " needs ");
                let out = with_decimal(out, *expected);
                let out = with_text(out, " pixels, got ");
                let out = with_decimal(out, *actual);
                string_from_chars(&out)
            },
            TextureError::Image(error) => {
                let detail = image_error_text(error);
                let out = text_chars("could not decode image: ");
                let out = with_text(out, detail.as_str());
                let text = string_from_chars(&out);
                assert(text@ == "could not decode image: "@ + detail@);
                text
            },
        }
    }
}

/// A `0xRRGGBB` color from its red, green and blue bytes.
pub open spec fn rgb_color(r: u8, g: u8, b: u8) -> u32 {
    (r * 65536 + g * 256 + b) as u32
}

/// The colors of RGBA bytes, one per group of four (alpha ignored); a
/// trailing incomplete group is dropped.
pub open spec fn rgba_colors(rgba: Seq<u8>) -> Seq<u32> {
    Seq::new(
        rgba.len() / 4,
        |i: int| rgb_color(rgba[4 * i], rgba[4 * i + 1], rgba[4 * i + 2]),
    )
}

/// A rectangular image of `0xRRGGBB` pixels stored row by row.
#[derive(Debug, Clone)]
pub struct Texture {
    pub width: usize,
    pub height: usize,
    pub pixels: Vec<u32>,
}

/// What `Texture::new` gives for these dimensions and pixels, the texture
/// being described by its dimensions and pixels.
pub open spec fn texture_new_result(width: usize, height: usize, pixels: Seq<u32>) -> Result<
    (usize, usize, Seq<u32>),
    (usize, usize, usize, usize),
> {
    if width == 0 || height == 0 {
        Err((width, height, 0, 0))
    } else if width * height > usize::MAX {
        Err((width, height, usize::MAX as usize, pixels.len() as usize))
    } else if pixels.len() != width * height {
        Err((width, height, (width * height) as usize, pixels.len() as usize))
    } else {
        Ok((width, height, pixels))
    }
}

/// `result` is what `Texture::new(width, height, pixels)` returns: the
/// texture, an `InvalidDimensions` error for an empty side, or a
/// `PixelCountMismatch` error naming the expected and actual pixel counts
/// (the expected count being `usize::MAX` when it overflows).
pub open spec fn built_as(result: Result<Texture, TextureError>, width: usize, height: usize, pixels: Seq<u32>) -> bool {
    match texture_new_result(width, height, pixels) {
        Ok((w, h, p)) => result matches Ok(t) && t.width == w && t.height == h && t.pixel_data() == p
            && t.wf(),
        Err((w, h, expected, actual)) => if width == 0 || height == 0 {
            result matches Err(TextureError::InvalidDimensions { width: ew, height: eh }) && ew == w
                && eh == h
        } else {
            result matches Err(
                TextureError::PixelCountMismatch { width: ew, height: eh, expected: ee, actual: ea },
            ) && ew == w && eh == h && ee == expected && ea == actual
        },
    }
}

impl Texture {
    /// The pixels, row by row.
    pub open spec fn pixel_data(&self) -> Seq<u32> {
        self.pixels@
    }

    /// Both sides are non-empty and there is one pixel per column and row.
    pub open spec fn wf(&self) -> bool {
        &&& self.width > 0
        &&& self.height > 0
        &&& self.pixel_data().len() == self.width * self.height
    }

    /// The pixel at column `x`, row `y`, coordinates past an edge being moved
    /// onto that edge.
    pub open spec fn clamped_pixel(&self, x: int, y: int) -> u32 {
        let cx = if x < self.width - 1 {
            x
        } else {
            self.width - 1
        };
        let cy = if y < self.height - 1 {
            y
        } else {
            self.height - 1
        };
        self.pixel_data()[cy * self.width + cx]
    }

    /// A `width` x `height` texture holding `pixels` row by row; an error when
    /// a side is zero or the pixel count is not `width * height`.
    pub fn new(width: usize, height: usize, pixels: Vec<u32>) -> (result: Result<Texture, TextureError>)
        ensures
            built_as(result, width, height, pixels@),
    {
        if width == 0 || height == 0 {
            return Err(TextureError::InvalidDimensions { width, height });
        }
        let expected = match width.checked_mul(height) {
            Some(expected) => expected,
            None => {
                return Err(
                    TextureError::PixelCountMismatch {
                        width,
                        height,
                        expected: usize::MAX,
                        actual: pixels.len(),
                    },
                );
            },
        };
        if pixels.len() != expected {
            return Err(
                TextureError::PixelCountMismatch { width, height, expected, actual: pixels.len() },
            );
        }
        Ok(Texture { width, height, pixels })
    }

    /// A texture from decoded RGBA bytes (four per pixel, alpha ignored).
    pub fn from_rgba8(width: u32, height: u32, rgba: &[u8]) -> (result: Result<Texture, TextureError>)
        ensures
            built_as(result, width as usize, height as usize, rgba_colors(rgba@)),
    {
        let len = rgba.len();
        let count = len / 4;
        let mut pixels: Vec<u32> = Vec::with_capacity(count);
        let mut i: usize = 0;
        while i < count
            invariant
                len == rgba@.len(),
                count == len / 4,
                i <= count,
                pixels@ =~= rgba_colors(rgba@).take(i as int),
            decreases count - i,
        {
            proof {
                assert(4 * i + 3 < rgba@.len());
            }
            let color = rgb_to_u32(rgba[4 * i], rgba[4 * i + 1], rgba[4 * i + 2]);
            pixels.push(color);
            i = i + 1;
        }
        assert(rgba_colors(rgba@).take(count as int) =~= rgba_colors(rgba@));
        Texture::new(width as usize, height as usize, pixels)
    }

    /// A texture from the image file at `path`, given its contents `bytes`:
    /// decoded by the image crate in the format named by the path's
    /// extension, then built as `from_rgba8` does; a decoding failure is
    /// reported as `TextureError::Image`.
    pub fn from_file(path: &str, bytes: &[u8]) -> (result: Result<Texture, TextureError>)
        ensures
            match decoded_file_rgba8(path@, bytes@) {
                Some((width, height, rgba)) => built_as(
                    result,
                    width as usize,
                    height as usize,
                    rgba_colors(rgba),
                ),
                None => result matches Err(TextureError::Image(_)),
            },
    {
        match decode_file_rgba8(path, bytes) {
            Ok((width, height, rgba)) => Texture::from_rgba8(width, height, rgba.as_slice()),
            Err(error) => Err(TextureError::Image(error)),
        }
    }

    /// The pixel at column `x`, row `y`; coordinates past an edge are moved
    /// onto that edge. An empty texture answers magenta.
    pub fn get_pixel(&self, x: usize, y: usize) -> (color: u32)
        requires
            self.pixel_data().len() >= self.width * self.height,
        ensures
            color == (if self.width == 0 || self.height == 0 {
                FALLBACK_MAGENTA
            } else {
                self.clamped_pixel(x as int, y as int)
            }),
    {
        if self.width == 0 || self.height == 0 {
            return FALLBACK_MAGENTA;
        }
        let cx = if x < self.width - 1 {
            x
        } else {
            self.width - 1
        };
        let cy = if y < self.height - 1 {
            y
        } else {
            self.height - 1
        };
        let n = self.pixels.len();
        proof {
            crate::framebuffer::lemma_pixel_index_in_buffer(
                self.width as int,
                self.height as int,
                cx as int,
                cy as int,
            );
        }
        self.pixels[cy * self.width + cx]
    }

    /// Number of stored pixels.
    pub fn pixel_count(&self) -> (count: usize)
        ensures
            count == self.pixel_data().len(),
    {
        self.pixels.len()
    }

    /// The 2x2 checkerboard shown where a texture is missing: magenta on the
    /// main diagonal, black on the other.
    pub fn fallback() -> (texture: Texture)
        ensures
            texture.wf(),
            texture.width == 2,
            texture.height == 2,
            texture.pixel_data() == seq![FALLBACK_MAGENTA, FALLBACK_BLACK, FALLBACK_BLACK, FALLBACK_MAGENTA],
    {
        let mut pixels: Vec<u32> = Vec::new();
        pixels.push(FALLBACK_MAGENTA);
        pixels.push(FALLBACK_BLACK);
        pixels.push(FALLBACK_BLACK);
        pixels.push(FALLBACK_MAGENTA);
        assert(pixels@ =~= seq![FALLBACK_MAGENTA, FALLBACK_BLACK, FALLBACK_BLACK, FALLBACK_MAGENTA]);
        Texture { width: 2, height: 2, pixels }
    }

    /// A copy with the same dimensions and pixels.
    pub fn duplicate(&self) -> (copy: Texture)
        ensures
            copy.width == self.width,
            copy.height == self.height,
            copy.pixel_data() == self.pixel_data(),
    {
        Texture { width: self.width, height: self.height, pixels: self.pixels.clone() }
    }
}

/// A `0xRRGGBB` color from its red, green and blue bytes.
pub fn rgb_to_u32(r: u8, g: u8, b: u8) -> (color: u32)
    ensures
        color == rgb_color(r, g, b),
{
    let (r32, g32, b32) = (r as u32, g as u32, b as u32);
    assert((r32 << 16u32) | (g32 << 8u32) | b32 == r32 * 65536 + g32 * 256 + b32) by (bit_vector)
        requires
            r32 < 256,
            g32 < 256,
            b32 < 256,
    ;
    (r32 << 16u32) | (g32 << 8u32) | b32
}

/// The key a wall symbol is stored under.
pub open spec fn wall_key(wall: char) -> u32 {
    wall as u32
}

/// The table `entries` builds: each symbol maps to its last texture.
pub open spec fn texture_table(entries: Seq<(char, Texture)>) -> Map<u32, Texture>
    decreases entries.len(),
{
    if entries.len() == 0 {
        Map::empty()
    } else {
        texture_table(entries.drop_last()).insert(wall_key(entries.last().0), entries.last().1)
    }
}

/// The wall symbols and the image files of their default textures; the goal
/// wall shares the fifth wall's image.
pub open spec fn default_wall_files() -> Seq<(char, Seq<char>)> {
    seq![
        ('#', "assets/wall1.png"@),
        ('+', "assets/wall2.png"@),
        ('%', "assets/wall3.png"@),
        ('@', "assets/wall4.png"@),
        ('&', "assets/wall5.png"@),
        ('!', "assets/wall5.png"@),
    ]
}

/// The image file of the default floor texture.
pub open spec fn floor_texture_file() -> Seq<char> {
    "assets/piso.png"@
}

/// The wall symbols and the image files of their default textures.
pub fn default_texture_paths() -> (paths: Vec<(char, String)>)
    ensures
        paths@.len() == default_wall_files().len(),
        forall|i: int|
            0 <= i < paths@.len() ==> (#[trigger] paths@[i]).0 == default_wall_files()[i].0
                && paths@[i].1@ == default_wall_files()[i].1,
{
    let mut paths: Vec<(char, String)> = Vec::new();
    paths.push(('#', String::from_str("assets/wall1.png")));
    paths.push(('+', String::from_str("assets/wall2.png")));
    paths.push(('%', String::from_str("assets/wall3.png")));
    paths.push(('@', String::from_str("assets/wall4.png")));
    paths.push(('&', String::from_str("assets/wall5.png")));
    paths.push(('!', String::from_str("assets/wall5.png")));
    paths
}

/// The image file of the default floor texture.
pub fn floor_texture_path() -> (path: String)
    ensures
        path@ == floor_texture_file(),
{
    String::from_str("assets/piso.png")
}

/// The contents of the first of `files` read from `path`.
pub open spec fn file_contents(files: Seq<(String, Vec<u8>)>, path: Seq<char>) -> Option<Seq<u8>>
    decreases files.len(),
{
    if files.len() == 0 {
        None
    } else if files[0].0@ == path {
        Some(files[0].1@)
    } else {
        file_contents(files.drop_first(), path)
    }
}

/// The width, height and pixels of the texture that `Texture::from_file`
/// builds from the contents `bytes` of the file at `path`, when it builds one.
pub open spec fn decoded_texture(path: Seq<char>, bytes: Seq<u8>) -> Option<(usize, usize, Seq<u32>)> {
    match decoded_file_rgba8(path, bytes) {
        Some((width, height, rgba)) => match texture_new_result(
            width as usize,
            height as usize,
            rgba_colors(rgba),
        ) {
            Ok(texture) => Some(texture),
            Err(_) => None,
        },
        None => None,
    }
}

/// The texture loaded from the file `path` among `files`, when it was read
/// and decodes.
pub open spec fn loaded_texture(files: Seq<(String, Vec<u8>)>, path: Seq<char>) -> Option<
    (usize, usize, Seq<u32>),
> {
    match file_contents(files, path) {
        Some(bytes) => decoded_texture(path, bytes),
        None => None,
    }
}

/// `texture` has these width, height and pixels.
pub open spec fn describes(texture: Texture, shape: (usize, usize, Seq<u32>)) -> bool {
    texture.width == shape.0 && texture.height == shape.1 && texture.pixel_data() == shape.2
}

/// The contents of the first of `files` read from `path`.
fn find_file<'a>(files: &'a Vec<(String, Vec<u8>)>, path: &String) -> (found: Option<&'a Vec<u8>>)
    ensures
        match found {
            Some(bytes) => file_contents(files@, path@) == Some(bytes@),
            None => file_contents(files@, path@) is None,
        },
{
    let mut i: usize = 0;
    assert(files@.subrange(0, files@.len() as int) =~= files@);
    while i < files.len()
        invariant
            i <= files@.len(),
            file_contents(files@, path@) == file_contents(files@.subrange(i as int, files@.len() as int), path@),
        decreases files@.len() - i,
    {
        let ghost rest = files@.subrange(i as int, files@.len() as int);
        assert(rest[0] == files@[i as int]);
        if files[i].0 == *path {
            return Some(&files[i].1);
        }
        assert(rest.drop_first() =~= files@.subrange(i + 1, files@.len() as int));
        i = i + 1;
    }
    assert(files@.subrange(i as int, files@.len() as int).len() == 0);
    None
}

/// The texture decoded from the contents of `path` among `files`, if it was
/// read and decodes.
fn load_texture(files: &Vec<(String, Vec<u8>)>, path: &String) -> (texture: Option<Texture>)
    ensures
        match loaded_texture(files@, path@) {
            Some(shape) => texture matches Some(t) && describes(t, shape) && t.wf(),
            None => texture is None,
        },
{
    match find_file(files, path) {
        Some(bytes) => match Texture::from_file(path.as_str(), bytes.as_slice()) {
            Ok(texture) => Some(texture),
            Err(_) => None,
        },
        None => None,
    }
}

/// The textures of the renderer: one per wall symbol, a fallback for the
/// others, and the floor's.
pub struct TextureManager {
    textures: HashMap<u32, Texture>,
    fallback: Texture,
    floor: Texture,
}

impl TextureManager {
    /// The wall textures by symbol code.
    pub closed spec fn wall_textures(&self) -> Map<u32, Texture> {
        self.textures@
    }

    /// The texture for symbols without one of their own.
    pub closed spec fn fallback_texture_spec(&self) -> Texture {
        self.fallback
    }

    /// The floor texture.
    pub closed spec fn floor_texture(&self) -> Texture {
        self.floor
    }

    fn table_from(entries: Vec<(char, Texture)>) -> (table: HashMap<u32, Texture>)
        ensures
            table@ == texture_table(entries@),
    {
        let ghost all = entries@;
        let mut table: HashMap<u32, Texture> = HashMap::new();
        let mut remaining = entries;
        let mut done: usize = 0;
        let n = remaining.len();
        while remaining.len() > 0
            invariant
                n == all.len(),
                done + remaining@.len() == n,
                remaining@ =~= all.subrange(done as int, n as int),
                table@ == texture_table(all.take(done as int)),
            decreases remaining@.len(),
        {
            let (wall, texture) = remaining.remove(0);
            proof {
                assert(all[done as int] == (wall, texture));
                assert(all.take(done + 1).drop_last() =~= all.take(done as int));
            }
            table.insert(wall as u32, texture);
            done = done + 1;
        }
        assert(all.take(n as int) =~= all);
        table
    }

    /// A manager for `textures` (later entries for a symbol replace earlier
    /// ones) whose floor is a copy of the fallback.
    pub fn new(textures: Vec<(char, Texture)>, fallback: Texture) -> (manager: TextureManager)
        ensures
            manager.wall_textures() == texture_table(textures@),
            manager.fallback_texture_spec() == fallback,
            manager.floor_texture().width == fallback.width,
            manager.floor_texture().height == fallback.height,
            manager.floor_texture().pixel_data() == fallback.pixel_data(),
    {
        let floor = fallback.duplicate();
        TextureManager { textures: Self::table_from(textures), fallback, floor }
    }

    /// A manager for `textures` (later entries for a symbol replace earlier
    /// ones) with its own floor texture.
    pub fn new_with_floor(textures: Vec<(char, Texture)>, fallback: Texture, floor: Texture) -> (manager:
        TextureManager)
        ensures
            manager.wall_textures() == texture_table(textures@),
            manager.fallback_texture_spec() == fallback,
            manager.floor_texture() == floor,
    {
        TextureManager { textures: Self::table_from(textures), fallback, floor }
    }

    /// The default textures, from the image files that were read: `files`
    /// pairs each path with its contents. A wall symbol whose file is missing
    /// or does not decode has no texture of its own; the floor falls back to
    /// a copy of the fallback texture in that case.
    pub fn load_default(files: &Vec<(String, Vec<u8>)>) -> (manager: TextureManager)
        ensures
            forall|i: int|
                0 <= i < default_wall_files().len() ==> {
                    let (wall, path) = #[trigger] default_wall_files()[i];
                    match loaded_texture(files@, path) {
                        Some(shape) => manager.wall_textures().contains_key(wall_key(wall))
                            && describes(manager.wall_textures()[wall_key(wall)], shape),
                        None => !manager.wall_textures().contains_key(wall_key(wall)),
                    }
                },
            forall|key: u32|
                #[trigger] manager.wall_textures().contains_key(key) ==> exists|i: int|
                    0 <= i < default_wall_files().len() && key == wall_key(
                        #[trigger] default_wall_files()[i].0,
                    ),
            describes(
                manager.fallback_texture_spec(),
                (2, 2, seq![FALLBACK_MAGENTA, FALLBACK_BLACK, FALLBACK_BLACK, FALLBACK_MAGENTA]),
            ),
            match loaded_texture(files@, floor_texture_file()) {
                Some(shape) => describes(manager.floor_texture(), shape),
                None => describes(
                    manager.floor_texture(),
                    (2, 2, seq![FALLBACK_MAGENTA, FALLBACK_BLACK, FALLBACK_BLACK, FALLBACK_MAGENTA]),
                ),
            },
    {
        let fallback = Texture::fallback();
        let paths = default_texture_paths();
        let ghost defaults = default_wall_files();
        let mut entries: Vec<(char, Texture)> = Vec::new();
        let mut i: usize = 0;
        while i < paths.len()
            invariant
                paths@.len() == defaults.len(),
                defaults == default_wall_files(),
                forall|k: int|
                    0 <= k < paths@.len() ==> (#[trigger] paths@[k]).0 == defaults[k].0
                        && paths@[k].1@ == defaults[k].1,
                i <= paths@.len(),
                forall|k: int|
                    0 <= k < i ==> {
                        let (wall, path) = #[trigger] defaults[k];
                        match loaded_texture(files@, path) {
                            Some(shape) => texture_table(entries@).contains_key(wall_key(wall))
                                && describes(texture_table(entries@)[wall_key(wall)], shape),
                            None => !texture_table(entries@).contains_key(wall_key(wall)),
                        }
                    },
                forall|key: u32|
                    #[trigger] texture_table(entries@).contains_key(key) ==> exists|k: int|
                        0 <= k < i && key == wall_key(#[trigger] defaults[k].0),
            decreases paths@.len() - i,
        {
            let wall = paths[i].0;
            let loaded = load_texture(files, &paths[i].1);
            let ghost before = entries@;
            match loaded {
                Some(texture) => {
                    entries.push((wall, texture));
                    proof {
                        assert(entries@.drop_last() =~= before);
                    }
                },
                None => {},
            }
            proof {
                assert forall|k: int| 0 <= k < i + 1 implies {
                    let (w, path) = #[trigger] defaults[k];
                    match loaded_texture(files@, path) {
                        Some(shape) => texture_table(entries@).contains_key(wall_key(w))
                            && describes(texture_table(entries@)[wall_key(w)], shape),
                        None => !texture_table(entries@).contains_key(wall_key(w)),
                    }
                } by {
                    if k < i {
                        lemma_wall_key_injective(defaults[k].0, wall);
                        assert(defaults[k].0 != wall);
                    }
                }
                assert forall|key: u32| #[trigger] texture_table(entries@).contains_key(key) implies exists|k: int|
                    0 <= k < i + 1 && key == wall_key(#[trigger] defaults[k].0) by {
                    if key != wall_key(wall) {
                        assert(texture_table(before).contains_key(key));
                    } else {
                        assert(wall == defaults[i as int].0);
                    }
                }
            }
            i = i + 1;
        }
        let floor_path = floor_texture_path();
        let floor = match load_texture(files, &floor_path) {
            Some(texture) => texture,
            None => fallback.duplicate(),
        };
        TextureManager::new_with_floor(entries, fallback, floor)
    }

    /// The texture of wall symbol `wall`, or the fallback when it has none.
    pub fn get(&self, wall: char) -> (texture: &Texture)
        ensures
            *texture == (if self.wall_textures().contains_key(wall_key(wall)) {
                self.wall_textures()[wall_key(wall)]
            } else {
                self.fallback_texture_spec()
            }),
    {
        let key = wall as u32;
        match self.textures.get(&key) {
            Some(texture) => texture,
            None => &self.fallback,
        }
    }

    /// The texture stored for `wall`, if it has one.
    pub fn texture_for(&self, wall: char) -> (texture: Option<&Texture>)
        ensures
            match texture {
                Some(t) => self.wall_textures().contains_key(wall_key(wall)) && *t
                    == self.wall_textures()[wall_key(wall)],
                None => !self.wall_textures().contains_key(wall_key(wall)),
            },
    {
        let key = wall as u32;
        self.textures.get(&key)
    }

    /// The texture used for symbols without one of their own.
    pub fn fallback_texture(&self) -> (texture: &Texture)
        ensures
            *texture == self.fallback_texture_spec(),
    {
        &self.fallback
    }

    /// The floor texture.
    pub fn floor(&self) -> (texture: &Texture)
        ensures
            *texture == self.floor_texture(),
    {
        &self.floor
    }

    /// Number of wall symbols with a texture of their own.
    pub fn len(&self) -> (count: usize)
        ensures
            count == self.wall_textures().len(),
    {
        self.textures.len()
    }

    /// Whether no wall symbol has a texture of its own.
    pub fn is_empty(&self) -> (empty: bool)
        ensures
            empty == (self.wall_textures().len() == 0),
    {
        self.textures.len() == 0
    }
}

/// A texture that `Texture::new` built reads back, at every column and row,
/// the pixel given for it.
pub proof fn lemma_new_texture_reads_back(
    result: Result<Texture, TextureError>,
    width: usize,
    height: usize,
    pixels: Seq<u32>,
    x: int,
    y: int,
)
    requires
        built_as(result, width, height, pixels),
        result is Ok,
        0 <= x < width,
        0 <= y < height,
    ensures
        result->Ok_0.clamped_pixel(x, y) == pixels[y * width + x],
{
}

/// Distinct symbols are stored under distinct keys.
proof fn lemma_wall_key_injective(a: char, b: char)
    ensures
        wall_key(a) == wall_key(b) ==> a == b,
{
    assert(a as u32 as int == a as int);
    assert(b as u32 as int == b as int);
}

/// Looking a symbol up in the table that `entries` builds finds the last
/// texture given for it.
pub proof fn lemma_texture_table_finds_last(entries: Seq<(char, Texture)>, wall: char, i: int)
    requires
        0 <= i < entries.len(),
        entries[i].0 == wall,
        forall|j: int| i < j < entries.len() ==> #[trigger] entries[j].0 != wall,
    ensures
        texture_table(entries).contains_key(wall_key(wall)),
        texture_table(entries)[wall_key(wall)] == entries[i].1,
    decreases entries.len(),
{
    let prefix = entries.drop_last();
    if i < entries.len() - 1 {
        let last = entries[entries.len() - 1];
        assert(last.0 != wall);
        lemma_wall_key_injective(last.0, wall);
        assert forall|j: int| i < j < prefix.len() implies #[trigger] prefix[j].0 != wall by {
            assert(prefix[j] == entries[j]);
        }
        lemma_texture_table_finds_last(prefix, wall, i);
    }
}

/// A symbol that no entry gives has no texture in the table.
pub proof fn lemma_texture_table_misses_unknown(entries: Seq<(char, Texture)>, wall: char)
    requires
        forall|i: int| 0 <= i < entries.len() ==> #[trigger] entries[i].0 != wall,
    ensures
        !texture_table(entries).contains_key(wall_key(wall)),
    decreases entries.len(),
{
    if entries.len() > 0 {
        let prefix = entries.drop_last();
        lemma_wall_key_injective(entries[entries.len() - 1].0, wall);
        assert forall|i: int| 0 <= i < prefix.len() implies #[trigger] prefix[i].0 != wall by {
            assert(prefix[i] == entries[i]);
        }
        lemma_texture_table_misses_unknown(prefix, wall);
    }
}

/// Coordinates past an edge read the pixel on that edge: a column at or
/// past the width reads the last column of its row, a row at or past the
/// height reads the last row.
pub proof fn lemma_reads_clamp_to_edges(texture: Texture, x: int, y: int)
    requires
        texture.wf(),
        0 <= x,
        0 <= y,
    ensures
        x >= texture.width && y < texture.height ==> texture.clamped_pixel(x, y)
            == texture.pixel_data()[y * texture.width + texture.width - 1],
        x < texture.width && y >= texture.height ==> texture.clamped_pixel(x, y)
            == texture.pixel_data()[(texture.height - 1) * texture.width + x],
        x >= texture.width && y >= texture.height ==> texture.clamped_pixel(x, y)
            == texture.pixel_data()[texture.width * texture.height - 1],
        x < texture.width && y < texture.height ==> texture.clamped_pixel(x, y)
            == texture.pixel_data()[y * texture.width + x],
{
    let w = texture.width as int;
    let h = texture.height as int;
    assert((h - 1) * w + w - 1 == w * h - 1) by (nonlinear_arith);
}

/// The color packed from red, green and blue bytes gives them back: red in
/// bits 16 to 23, green in bits 8 to 15, blue in bits 0 to 7.
pub proof fn lemma_rgb_channels(r: u8, g: u8, b: u8)
    ensures
        rgb_color(r, g, b) / 65536 == r,
        (rgb_color(r, g, b) / 256) % 256 == g,
        rgb_color(r, g, b) % 256 == b,
{
}

} // verus!
