use justshow::requests::{
    decode_get_atom_name_reply, decode_get_monitors_reply, encode_get_atom_name,
    encode_get_monitors, MonitorInfo,
};
use justshow::wire::WireError;

fn reply_header(extra_words: u32) -> Vec<u8> {
    let mut f = vec![0u8; 32];
    f[0] = 1;
    f[4..8].copy_from_slice(&extra_words.to_le_bytes());
    f
}

#[test]
fn get_atom_name_request_bytes() {
    assert_eq!(encode_get_atom_name(0x0102_0304), vec![17, 0, 2, 0, 4, 3, 2, 1]);
}

#[test]
fn get_atom_name_reply_gives_name() {
    let mut f = reply_header(2);
    f[8] = 7;
    f.extend_from_slice(b"HDMI-1\0\0");
    f[32 + 6] = b'x';
    assert_eq!(decode_get_atom_name_reply(&f), Ok(b"HDMI-1x".to_vec()));
    let mut short = reply_header(0);
    short[8] = 1;
    assert_eq!(decode_get_atom_name_reply(&short), Err(WireError::Malformed));
}

#[test]
fn get_monitors_request_bytes() {
    assert_eq!(
        encode_get_monitors(140, 0x512, true),
        vec![140, 42, 3, 0, 0x12, 0x05, 0, 0, 1, 0, 0, 0]
    );
}

#[test]
fn get_monitors_reply_lists_monitors() {
    let mut f = reply_header(0);
    f[12] = 2;
    let mut m1 = vec![0u8; 24];
    m1[0..4].copy_from_slice(&77u32.to_le_bytes());
    m1[4] = 1;
    m1[6] = 1; // one output
    m1[8..10].copy_from_slice(&(-10i16).to_le_bytes());
    m1[10..12].copy_from_slice(&20i16.to_le_bytes());
    m1[12..14].copy_from_slice(&1920u16.to_le_bytes());
    m1[14..16].copy_from_slice(&1080u16.to_le_bytes());
    m1[16..20].copy_from_slice(&510u32.to_le_bytes());
    m1[20..24].copy_from_slice(&290u32.to_le_bytes());
    f.extend_from_slice(&m1);
    f.extend_from_slice(&[9, 9, 9, 9]);
    let mut m2 = vec![0u8; 24];
    m2[0] = 78;
    m2[5] = 1;
    f.extend_from_slice(&m2);
    let monitors = decode_get_monitors_reply(&f).unwrap();
    assert_eq!(
        monitors,
        vec![
            MonitorInfo {
                name: 77,
                primary: true,
                automatic: false,
                x: -10,
                y: 20,
                width_in_pixels: 1920,
                height_in_pixels: 1080,
                width_in_millimeters: 510,
                height_in_millimeters: 290,
            },
            MonitorInfo {
                name: 78,
                primary: false,
                automatic: true,
                x: 0,
                y: 0,
                width_in_pixels: 0,
                height_in_pixels: 0,
                width_in_millimeters: 0,
                height_in_millimeters: 0,
            },
        ]
    );
    f.truncate(f.len() - 1);
    assert_eq!(decode_get_monitors_reply(&f), Err(WireError::Malformed));
}

use justshow::requests::{decode_font_info_reply, encode_list_fonts_with_info, DrawDirection, FontInfo};
use justshow::tracker::{FrameKind, Tracker, TrackerError};

#[test]
fn list_fonts_with_info_request_bytes() {
    let f = encode_list_fonts_with_info(u16::MAX, &b"*".to_vec()).unwrap();
    assert_eq!(f, vec![50, 0, 3, 0, 0xff, 0xff, 1, 0, b'*', 0, 0, 0]);
}

fn font_reply(seq: u16, name: &[u8], props: u16) -> Vec<u8> {
    let mut f = vec![0u8; 60];
    f[0] = 1;
    f[1] = name.len() as u8;
    f[2..4].copy_from_slice(&seq.to_le_bytes());
    f[40..42].copy_from_slice(&32u16.to_le_bytes());
    f[42..44].copy_from_slice(&126u16.to_le_bytes());
    f[44..46].copy_from_slice(&63u16.to_le_bytes());
    f[46..48].copy_from_slice(&props.to_le_bytes());
    f[48] = 1;
    f[51] = 1;
    f[52..54].copy_from_slice(&11i16.to_le_bytes());
    f[54..56].copy_from_slice(&(-3i16).to_le_bytes());
    f.extend(std::iter::repeat(0u8).take(8 * props as usize));
    f.extend_from_slice(name);
    while f.len() % 4 != 0 {
        f.push(0);
    }
    let words = ((f.len() - 32) / 4) as u32;
    f[4..8].copy_from_slice(&words.to_le_bytes());
    f
}

#[test]
fn font_info_reply_is_decoded() {
    let info = decode_font_info_reply(&font_reply(1, b"fixed", 2)).unwrap().unwrap();
    assert_eq!(
        info,
        FontInfo {
            name: b"fixed".to_vec(),
            draw_direction: DrawDirection::RightToLeft,
            min_char_or_byte2: 32,
            max_char_or_byte2: 126,
            default_char: 63,
            properties: 2,
            min_byte1: 0,
            max_byte1: 0,
            all_chars_exist: true,
            font_ascent: 11,
            font_descent: -3,
        }
    );
    assert_eq!(decode_font_info_reply(&font_reply(1, b"", 0)), Ok(None));
    let mut bad = font_reply(1, b"fixed", 2);
    bad.truncate(70);
    assert_eq!(decode_font_info_reply(&bad), Err(WireError::Malformed));
}

#[test]
fn reply_series_under_one_sequence_number() {
    let mut t = Tracker::new();
    let s = t.send(true).unwrap();
    assert_eq!(t.handle_frame(font_reply(s, b"a", 0)), Ok(FrameKind::Reply));
    assert!(t.take_reply(s).unwrap().is_some());
    assert_eq!(t.rearm(s), Ok(()));
    assert_eq!(t.rearm(s), Err(TrackerError::WindowFull));
    assert_eq!(t.handle_frame(font_reply(s, b"", 0)), Ok(FrameKind::Reply));
    let last = t.take_reply(s).unwrap().unwrap();
    assert_eq!(decode_font_info_reply(&last), Ok(None));
}
