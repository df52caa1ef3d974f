use mdlux::cli::{Cli, FeatureMode};
use mdlux::kitty::detect::detect_capabilities;
use mdlux::kitty::escape_osc;
use mdlux::kitty::graphics::{kitty_image_sequence, load_image, render_image, KittyImageOptions};
use mdlux::kitty::hyperlink::osc8_link;
use mdlux::kitty::text_size::{sized_text, TextSize};

#[test]
fn wraps_link_with_osc8() {
    let out = osc8_link("docs", "https://example.com");
    assert!(out.starts_with("\u{1b}]8;;https://example.com"));
    assert!(out.contains("docs"));
    assert!(out.ends_with("\u{1b}]8;;\u{1b}\\"));
}

#[test]
fn uses_osc_66_with_bel_terminator() {
    let out = sized_text("Hello", TextSize::Scale(2));
    assert!(out.starts_with("\u{1b}]66;s=2;"));
    assert!(out.ends_with('\u{7}'));
}

#[test]
fn sized_text_forms() {
    assert_eq!(sized_text("Hi", TextSize::Normal), "Hi");
    assert_eq!(sized_text("Hi", TextSize::Scale(3)), "\u{1b}]66;s=3;Hi\u{7}");
    assert_eq!(
        sized_text("Hi", TextSize::Fraction { numerator: 1, denominator: 2 }),
        "\u{1b}]66;n=1:d=2;Hi\u{7}"
    );
    assert_eq!(sized_text("a\u{7}b", TextSize::Scale(2)), "\u{1b}]66;s=2;ab\u{7}");
}

#[test]
fn escape_osc_drops_terminators_and_doubles_backslashes() {
    assert_eq!(escape_osc("a\u{1b}b\u{7}c\\d"), "abc\\\\d");
    assert_eq!(escape_osc("plain"), "plain");
    assert_eq!(escape_osc(""), "");
}

#[test]
fn osc8_link_escapes_label_and_url() {
    let out = osc8_link("a\u{7}b", "u\u{1b}rl");
    assert_eq!(out, "\u{1b}]8;;url\u{1b}\\ab\u{1b}]8;;\u{1b}\\");
}

fn encoded(img: &image::RgbaImage, format: image::ImageFormat) -> Vec<u8> {
    let mut bytes = Vec::new();
    img.write_to(&mut std::io::Cursor::new(&mut bytes), format).expect("encode image");
    bytes
}

#[test]
fn kitty_image_encoder_envelope() {
    let img = image::RgbaImage::from_pixel(1, 1, image::Rgba([255, 0, 0, 255]));
    let bytes = encoded(&img, image::ImageFormat::Png);

    let seq = render_image(
        "mdlux_test_image.png",
        &bytes,
        KittyImageOptions {
            max_width_cells: 20,
            max_height_cells: None,
        },
    )
    .expect("kitty image render");

    assert!(seq.starts_with("\u{1b}_G"), "must start with kitty APC");
    assert!(seq.contains("f=100"), "must include png format tag");
    assert!(seq.ends_with("\u{1b}\\"), "must end with ST");
}

#[test]
fn loaded_image_is_reencoded_as_png() {
    let img = image::RgbaImage::from_pixel(3, 2, image::Rgba([0, 128, 255, 255]));
    let bmp = encoded(&img, image::ImageFormat::Bmp);
    let loaded = load_image("pic.bmp".to_string(), "dir/pic.bmp", &bmp).expect("loads");
    assert_eq!(loaded.path, "pic.bmp");
    assert_eq!((loaded.width, loaded.height), (3, 2));
    assert!(loaded.png.starts_with(&[0x89, b'P', b'N', b'G']));
    assert!(!bmp.starts_with(&[0x89, b'P', b'N', b'G']));
    let back = image::load_from_memory(&loaded.png).expect("png decodes").to_rgba8();
    assert_eq!(back, img);
    let seq = render_image("dir/pic.bmp", &bmp, KittyImageOptions { max_width_cells: 9, max_height_cells: Some(4) })
        .expect("renders");
    assert_eq!(seq, kitty_image_sequence(&loaded.png, 3, 2, KittyImageOptions { max_width_cells: 9, max_height_cells: Some(4) }));
    assert!(seq.contains("s=3,v=2,c=9,r=4;"));
}

#[test]
fn unreadable_images_are_refused() {
    let img = image::RgbaImage::from_pixel(1, 1, image::Rgba([1, 2, 3, 255]));
    let png = encoded(&img, image::ImageFormat::Png);
    let opts = KittyImageOptions { max_width_cells: 20, max_height_cells: None };
    assert!(render_image("notes.txt", &png, opts).is_none());
    assert!(render_image("no_extension", &png, opts).is_none());
    assert!(render_image("broken.png", b"not an image", opts).is_none());
    assert!(load_image("broken.png".to_string(), "broken.png", b"not an image").is_none());
}

#[test]
fn kitty_image_single_chunk_exact() {
    let seq = kitty_image_sequence(b"abc", 4, 5, KittyImageOptions { max_width_cells: 0, max_height_cells: Some(7) });
    assert_eq!(seq, "\u{1b}_Ga=T,t=d,f=100,m=0,s=4,v=5,c=1,r=7;YWJj\u{1b}\\");
}

#[test]
fn kitty_image_splits_into_chunks() {
    let png = vec![0u8; 3072 + 2];
    let seq = kitty_image_sequence(&png, 2, 3, KittyImageOptions { max_width_cells: 10, max_height_cells: None });
    assert!(seq.starts_with("\u{1b}_Ga=T,t=d,f=100,m=1,s=2,v=3,c=10,r=0;"));
    assert!(seq.ends_with("\u{1b}_Gm=0;AAA=\u{1b}\\"));
    assert_eq!(seq.matches("\u{1b}_G").count(), 2);
}

fn cli(kitty: FeatureMode, images: FeatureMode, plain: bool) -> Cli {
    Cli {
        file: None,
        width: None,
        theme: "ansi".to_string(),
        kitty,
        images,
        no_highlight: false,
        plain,
        list_themes: false,
    }
}

#[test]
fn capabilities_follow_modes() {
    let c = detect_capabilities(&cli(FeatureMode::Auto, FeatureMode::Auto, false), true);
    assert!(c.ansi && c.kitty_text_size && c.kitty_graphics && c.kitty_hyperlinks);
    let c = detect_capabilities(&cli(FeatureMode::Auto, FeatureMode::Auto, false), false);
    assert!(c.ansi && !c.kitty_text_size && !c.kitty_graphics && !c.kitty_hyperlinks);
    let c = detect_capabilities(&cli(FeatureMode::Always, FeatureMode::Never, false), false);
    assert!(c.kitty_text_size && c.kitty_hyperlinks && !c.kitty_graphics);
    let c = detect_capabilities(&cli(FeatureMode::Always, FeatureMode::Always, true), true);
    assert!(!c.ansi && !c.kitty_text_size && !c.kitty_graphics && !c.kitty_hyperlinks);
}
