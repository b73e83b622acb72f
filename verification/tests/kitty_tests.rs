use base64::Engine;
use mac_wallpaper_tui::kitty::{encode_frames, KittyProtocol, Picture, PLACEHOLDER};

#[test]
fn clear_sequence() {
    assert_eq!(KittyProtocol::clear_image(), "\x1b_Ga=d;\x1b\\");
}

#[test]
fn one_chunk_and_placeholders() {
    let out = encode_frames(2, 1, "QUJD", 3, 2);
    let p = PLACEHOLDER.to_string();
    let expected = format!("\x1b_Ga=T,f=32,s=2,v=1,m=0;QUJD\x1b\\{}\n{}", p.repeat(3), p.repeat(3));
    assert_eq!(out, expected);
}

#[test]
fn long_data_is_split_into_4096_character_chunks() {
    let data = "A".repeat(5000);
    let out = encode_frames(10, 20, &data, 0, 0);
    let expected = format!(
        "\x1b_Ga=T,f=32,s=10,v=20,m=1;{}\x1b\\\x1b_Ga=T,f=32,s=10,v=20,m=0;{}\x1b\\",
        "A".repeat(4096),
        "A".repeat(904)
    );
    assert_eq!(out, expected);
}

#[test]
fn empty_data_sends_only_placeholders() {
    assert_eq!(encode_frames(0, 0, "", 1, 1), PLACEHOLDER.to_string());
    assert_eq!(encode_frames(0, 0, "", 0, 0), "");
}

#[test]
fn small_image_is_sent_as_it_is() {
    let pixels: Vec<u8> = (0..16u8).collect();
    let img = Picture { width: 2, height: 2, pixels: pixels.clone() };
    let out = KittyProtocol::encode_image(&img, 1, 1);
    let b64 = base64::engine::general_purpose::STANDARD.encode(&pixels);
    assert_eq!(out, format!("\x1b_Ga=T,f=32,s=2,v=2,m=0;{}\x1b\\{}", b64, PLACEHOLDER));
}

#[test]
fn large_image_is_resized_to_fit_the_cells() {
    let img = Picture { width: 64, height: 32, pixels: vec![200u8; 64 * 32 * 4] };
    let out = KittyProtocol::encode_image(&img, 1, 1);
    // One cell holds 8 by 16 pixels; the aspect ratio 2:1 gives 8 by 4.
    assert!(out.starts_with("\x1b_Ga=T,f=32,s=8,v=4,m=0;"), "{}", &out[..40]);
    let b64 = base64::engine::general_purpose::STANDARD.encode(vec![200u8; 8 * 4 * 4]);
    assert!(out.contains(&b64));
}

#[test]
fn pixels_are_sent_in_standard_base64() {
    let img = Picture { width: 1, height: 1, pixels: vec![0x4d, 0x61, 0x6e, 0x00] };
    let out = KittyProtocol::encode_image(&img, 1, 1);
    assert_eq!(out, format!("\x1b_Ga=T,f=32,s=1,v=1,m=0;TWFuAA==\x1b\\{}", PLACEHOLDER));
}
