use raycasting::texture::{
    default_texture_paths, floor_texture_path, rgb_to_u32, Texture, TextureError, TextureManager,
    FALLBACK_BLACK, FALLBACK_MAGENTA,
};

fn sample_texture() -> Texture {
    Texture::new(2, 2, vec![0x010203, 0x040506, 0x070809, 0x0a0b0c])
        .expect("sample texture should be valid")
}

fn texture_manager_for_tests() -> TextureManager {
    let textures = vec![
        ('#', Texture::new(1, 1, vec![0x111111]).unwrap()),
        ('+', Texture::new(1, 1, vec![0x222222]).unwrap()),
        ('%', Texture::new(1, 1, vec![0x333333]).unwrap()),
        ('@', Texture::new(1, 1, vec![0x444444]).unwrap()),
        ('&', Texture::new(1, 1, vec![0x555555]).unwrap()),
        ('!', Texture::new(1, 1, vec![0x666666]).unwrap()),
    ];

    TextureManager::new(textures, Texture::fallback())
}

fn texture_manager_with_floor_for_tests() -> TextureManager {
    TextureManager::new_with_floor(
        Vec::new(),
        Texture::fallback(),
        Texture::new(1, 1, vec![0x123456]).unwrap(),
    )
}

fn png_bytes(width: u32, height: u32, rgba: [u8; 4]) -> Vec<u8> {
    let image = image::RgbaImage::from_pixel(width, height, image::Rgba(rgba));
    let mut bytes = Vec::new();
    image::DynamicImage::ImageRgba8(image)
        .write_to(&mut std::io::Cursor::new(&mut bytes), image::ImageFormat::Png)
        .expect("a PNG should be encoded");
    bytes
}

fn default_asset_files() -> Vec<(String, Vec<u8>)> {
    let mut files: Vec<(String, Vec<u8>)> = default_texture_paths()
        .into_iter()
        .enumerate()
        .map(|(i, (_, path))| (path, png_bytes(2, 2, [10 * i as u8, 20, 30, 255])))
        .collect();
    files.push((floor_texture_path(), png_bytes(4, 4, [1, 2, 3, 255])));
    files
}

#[test]
fn creates_valid_texture_from_memory() {
    let texture = sample_texture();

    assert_eq!(texture.width, 2);
    assert_eq!(texture.height, 2);
    assert_eq!(texture.pixel_count(), 4);
}

#[test]
fn rejects_invalid_dimensions() {
    assert!(Texture::new(0, 2, vec![0x000000, 0x000000]).is_err());
    assert!(Texture::new(2, 0, vec![0x000000, 0x000000]).is_err());
}

#[test]
fn rejects_wrong_pixel_count() {
    assert!(Texture::new(2, 2, vec![0x000000, 0x111111, 0x222222]).is_err());
}

#[test]
fn gets_individual_pixels() {
    let texture = sample_texture();

    assert_eq!(texture.get_pixel(0, 0), 0x010203);
    assert_eq!(texture.get_pixel(1, 0), 0x040506);
    assert_eq!(texture.get_pixel(0, 1), 0x070809);
    assert_eq!(texture.get_pixel(1, 1), 0x0a0b0c);
}

#[test]
fn clamps_pixel_coordinates_outside_texture() {
    let texture = sample_texture();

    assert_eq!(texture.get_pixel(8, 0), 0x040506);
    assert_eq!(texture.get_pixel(0, 8), 0x070809);
    assert_eq!(texture.get_pixel(8, 8), 0x0a0b0c);
}

#[test]
fn creates_valid_fallback_texture() {
    let texture = Texture::fallback();

    assert_eq!(texture.width, 2);
    assert_eq!(texture.height, 2);
    assert_eq!(texture.pixel_count(), 4);
    assert_eq!(texture.get_pixel(0, 0), FALLBACK_MAGENTA);
    assert_eq!(texture.get_pixel(1, 0), FALLBACK_BLACK);
    assert_eq!(texture.get_pixel(0, 1), FALLBACK_BLACK);
    assert_eq!(texture.get_pixel(1, 1), FALLBACK_MAGENTA);
}

#[test]
fn default_manager_maps_goal_wall_texture() {
    let manager = TextureManager::load_default(&default_asset_files());

    assert!(!std::ptr::eq(manager.get('!'), manager.fallback_texture()));
    assert!(!std::ptr::eq(manager.get('&'), manager.fallback_texture()));
}

#[test]
fn default_manager_loads_floor_texture() {
    let manager = TextureManager::load_default(&default_asset_files());

    assert!(!std::ptr::eq(manager.floor(), manager.fallback_texture()));
}

#[test]
fn texture_manager_maps_known_wall_characters() {
    let manager = texture_manager_for_tests();

    assert_eq!(manager.get('#').get_pixel(0, 0), 0x111111);
    assert_eq!(manager.get('+').get_pixel(0, 0), 0x222222);
    assert_eq!(manager.get('%').get_pixel(0, 0), 0x333333);
    assert_eq!(manager.get('@').get_pixel(0, 0), 0x444444);
    assert_eq!(manager.get('&').get_pixel(0, 0), 0x555555);
    assert_eq!(manager.get('!').get_pixel(0, 0), 0x666666);
}

#[test]
fn texture_manager_returns_fallback_for_unknown_wall_character() {
    let manager = texture_manager_for_tests();

    assert!(std::ptr::eq(manager.get('~'), manager.fallback_texture()));
    assert_eq!(manager.get('~').get_pixel(0, 0), FALLBACK_MAGENTA);
}

#[test]
fn texture_manager_get_returns_references_without_cloning() {
    let manager = texture_manager_for_tests();
    let stored_texture = manager.texture_for('#').unwrap();

    assert!(std::ptr::eq(manager.get('#'), stored_texture));
    assert!(std::ptr::eq(manager.get('#'), manager.get('#')));
}

#[test]
fn texture_manager_returns_configured_floor_texture() {
    let manager = texture_manager_with_floor_for_tests();

    assert_eq!(manager.floor().get_pixel(0, 0), 0x123456);
}

#[test]
fn later_texture_for_a_symbol_replaces_earlier_one() {
    let manager = TextureManager::new(
        vec![
            ('#', Texture::new(1, 1, vec![0x010101]).unwrap()),
            ('+', Texture::new(1, 1, vec![0x020202]).unwrap()),
            ('#', Texture::new(1, 1, vec![0x030303]).unwrap()),
        ],
        Texture::fallback(),
    );

    assert_eq!(manager.len(), 2);
    assert!(!manager.is_empty());
    assert_eq!(manager.get('#').get_pixel(0, 0), 0x030303);
    assert!(manager.texture_for('%').is_none());
    assert_eq!(manager.floor().get_pixel(1, 0), FALLBACK_BLACK);
}

#[test]
fn empty_manager_uses_fallback_everywhere() {
    let manager = TextureManager::new(Vec::new(), Texture::fallback());

    assert!(manager.is_empty());
    assert_eq!(manager.len(), 0);
    assert_eq!(manager.get('#').get_pixel(1, 1), FALLBACK_MAGENTA);
}

#[test]
fn pixel_count_mismatch_reports_expected_and_actual() {
    match Texture::new(2, 3, vec![1, 2]) {
        Err(TextureError::PixelCountMismatch { width, height, expected, actual }) => {
            assert_eq!((width, height, expected, actual), (2, 3, 6, 2));
        }
        other => panic!("unexpected result: {:?}", other),
    }
    match Texture::new(0, 3, vec![]) {
        Err(TextureError::InvalidDimensions { width, height }) => {
            assert_eq!((width, height), (0, 3));
        }
        other => panic!("unexpected result: {:?}", other),
    }
}

#[test]
fn texture_errors_describe_themselves() {
    let dimensions = Texture::new(0, 2, vec![]).unwrap_err();
    assert_eq!(dimensions.message(), "texture dimensions must be greater than zero, got 0x2");

    let count = Texture::new(2, 2, vec![7]).unwrap_err();
    assert_eq!(count.message(), "texture 2x2 needs 4 pixels, got 1");

    let image = Texture::from_file("broken.png", &[1, 2, 3, 4]).unwrap_err();
    assert!(image.message().starts_with("could not decode image: "));
}

#[test]
fn decodes_png_bytes_into_rgb_pixels() {
    let bytes = png_bytes(3, 2, [0x12, 0x34, 0x56, 0x80]);

    let texture = Texture::from_file("picture.png", &bytes).expect("PNG should decode");

    assert_eq!((texture.width, texture.height), (3, 2));
    assert_eq!(texture.pixel_count(), 6);
    assert_eq!(texture.get_pixel(2, 1), 0x123456);
}

#[test]
fn rejects_bytes_that_are_not_an_image() {
    assert!(matches!(Texture::from_file("noise.png", b"not an image"), Err(TextureError::Image(_))));
}

#[test]
fn builds_textures_from_rgba_bytes() {
    let texture = Texture::from_rgba8(2, 1, &[1, 2, 3, 0, 4, 5, 6, 255]).unwrap();
    assert_eq!(texture.get_pixel(0, 0), 0x010203);
    assert_eq!(texture.get_pixel(1, 0), 0x040506);
    assert!(Texture::from_rgba8(2, 2, &[1, 2, 3, 4]).is_err());
}

#[test]
fn default_manager_skips_missing_or_broken_files() {
    let mut files = default_asset_files();
    files.retain(|(path, _)| path != "assets/wall1.png" && path != "assets/piso.png");
    files.push(("assets/wall2.png".to_string(), b"broken".to_vec()));
    files.reverse();

    let manager = TextureManager::load_default(&files);

    assert!(std::ptr::eq(manager.get('#'), manager.fallback_texture()));
    assert!(manager.texture_for('+').is_none());
    assert!(manager.texture_for('%').is_some());
    assert_eq!(manager.len(), 4);
    assert_eq!(manager.floor().get_pixel(0, 0), FALLBACK_MAGENTA);
}

#[test]
fn packs_rgb_channels() {
    assert_eq!(rgb_to_u32(0x12, 0x34, 0x56), 0x123456);
    assert_eq!(rgb_to_u32(0xff, 0, 0xff), FALLBACK_MAGENTA);
}

#[test]
fn decoding_follows_the_file_extension() {
    let bytes = png_bytes(1, 1, [9, 8, 7, 255]);

    assert!(Texture::from_file("picture.PNG", &bytes).is_ok());
    assert!(matches!(Texture::from_file("picture.txt", &bytes), Err(TextureError::Image(_))));
    assert!(matches!(Texture::from_file("picture.bmp", &bytes), Err(TextureError::Image(_))));
    assert!(matches!(Texture::from_file("picture", &bytes), Err(TextureError::Image(_))));
}

#[test]
fn pixels_beyond_the_dimensions_are_not_read() {
    let texture = Texture { width: 1, height: 1, pixels: vec![0x0a0b0c, 0x111111] };

    assert_eq!(texture.get_pixel(3, 3), 0x0a0b0c);
}
