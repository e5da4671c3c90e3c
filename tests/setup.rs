use justshow::setup::{
    decode_setup, decode_setup_status, encode_setup_request, ResourceIds, Screen, SetupStatus,
};
use justshow::wire::WireError;

#[test]
fn setup_request_without_authorization() {
    let r = encode_setup_request(&vec![], &vec![]).unwrap();
    assert_eq!(r, vec![0x6c, 0, 11, 0, 0, 0, 0, 0, 0, 0, 0, 0]);
}

#[test]
fn setup_request_with_authorization_is_padded() {
    let name = b"MIT-MAGIC-COOKIE-1".to_vec();
    let data = vec![7u8; 16];
    let r = encode_setup_request(&name, &data).unwrap();
    assert_eq!(r.len(), 12 + 20 + 16);
    assert_eq!(&r[6..10], &[18, 0, 16, 0]);
    assert_eq!(&r[12..30], &name[..]);
    assert_eq!(&r[30..32], &[0, 0]);
    assert_eq!(&r[32..48], &data[..]);
}

#[test]
fn setup_status_kinds() {
    assert_eq!(
        decode_setup_status(&vec![1, 0, 11, 0, 0, 0, 3, 1]),
        Ok(SetupStatus::Success { major: 11, minor: 0, extra_words: 259 })
    );
    assert_eq!(
        decode_setup_status(&vec![0, 5, 11, 0, 0, 0, 2, 0]),
        Ok(SetupStatus::Failed { reason_len: 5, major: 11, minor: 0, extra_words: 2 })
    );
    assert_eq!(decode_setup_status(&vec![2, 0, 0, 0, 0, 0, 4, 0]), Ok(SetupStatus::Authenticate { extra_words: 4 }));
    assert_eq!(decode_setup_status(&vec![3, 0, 0, 0, 0, 0, 0, 0]), Err(WireError::Malformed));
    assert_eq!(decode_setup_status(&vec![1, 0, 0]), Err(WireError::Malformed));
}

fn setup_data(with_screen: bool) -> Vec<u8> {
    let mut d = vec![0u8; 32];
    d[4..8].copy_from_slice(&0x0060_0000u32.to_le_bytes());
    d[8..12].copy_from_slice(&0x001f_ffffu32.to_le_bytes());
    d[16] = 3; // vendor "Foo", padded to 4
    d[20] = with_screen as u8;
    d[21] = 1; // one pixmap format
    d.extend_from_slice(b"Foo\0");
    d.extend_from_slice(&[24, 32, 32, 0, 0, 0, 0, 0]);
    if with_screen {
        let mut s = vec![0u8; 40];
        s[0..4].copy_from_slice(&0x0000_0512u32.to_le_bytes());
        s[20..22].copy_from_slice(&1920u16.to_le_bytes());
        s[22..24].copy_from_slice(&1080u16.to_le_bytes());
        s[24..26].copy_from_slice(&508u16.to_le_bytes());
        s[26..28].copy_from_slice(&285u16.to_le_bytes());
        s[38] = 24;
        s[39] = 1; // one depth
        d.extend_from_slice(&s);
        d.extend_from_slice(&[24, 0, 1, 0, 0, 0, 0, 0]); // depth 24, one visual
        d.extend_from_slice(&[0u8; 24]);
    }
    d
}

#[test]
fn setup_data_with_one_screen() {
    let info = decode_setup(&setup_data(true)).unwrap();
    assert_eq!(info.resource_id_base, 0x0060_0000);
    assert_eq!(info.resource_id_mask, 0x001f_ffff);
    assert_eq!(
        info.screens,
        vec![Screen {
            root: 0x512,
            width_in_pixels: 1920,
            height_in_pixels: 1080,
            width_in_millimeters: 508,
            height_in_millimeters: 285,
            root_depth: 24,
        }]
    );
}

#[test]
fn setup_data_without_screens() {
    assert!(decode_setup(&setup_data(false)).unwrap().screens.is_empty());
}

#[test]
fn setup_data_cut_short_is_malformed() {
    let mut d = setup_data(true);
    d.truncate(d.len() - 4);
    assert!(matches!(decode_setup(&d), Err(WireError::Malformed)));
    assert!(matches!(decode_setup(&vec![0u8; 20]), Err(WireError::Malformed)));
}

#[test]
fn resource_ids_offset_into_range() {
    let mut ids = ResourceIds::new(0x0060_0000, 2);
    assert_eq!(ids.generate(), Some(0x0060_0000));
    assert_eq!(ids.generate(), Some(0x0060_0001));
    assert_eq!(ids.generate(), Some(0x0060_0002));
    assert_eq!(ids.generate(), None);
}

use justshow::setup::{accept_setup, SetupError};

#[test]
fn setup_acceptance_checks_version() {
    assert_eq!(accept_setup(SetupStatus::Success { major: 11, minor: 0, extra_words: 9 }), Ok(9));
    assert_eq!(
        accept_setup(SetupStatus::Success { major: 12, minor: 1, extra_words: 9 }),
        Err(SetupError::VersionMismatch { major: 12, minor: 1 })
    );
    assert_eq!(
        accept_setup(SetupStatus::Failed { reason_len: 4, major: 11, minor: 0, extra_words: 1 }),
        Err(SetupError::Refused { reason_len: 4, extra_words: 1 })
    );
    assert_eq!(
        accept_setup(SetupStatus::Authenticate { extra_words: 2 }),
        Err(SetupError::AuthenticationRequired { extra_words: 2 })
    );
}
