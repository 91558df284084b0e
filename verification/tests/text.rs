use catos_install::device::{drive_params, encode, DeviceKind};
use catos_install::text::{materialize, replace_bytes};

#[test]
fn token_is_substituted_in_txt_paths() {
    let out = materialize("/note.txt", b"version {x.x.x}", b"1.2.3");
    assert_eq!(out.as_slice(), b"version 1.2.3");
}

#[test]
fn token_is_kept_outside_txt_paths() {
    let out = materialize("/note.bin", b"version {x.x.x}", b"1.2.3");
    assert_eq!(out.as_slice(), b"version {x.x.x}");
}

#[test]
fn invalid_utf8_text_asset_is_written_verbatim() {
    let content: &[u8] = b"\xff\xfe{x.x.x}";
    let out = materialize("/note.txt", content, b"1.2.3");
    assert_eq!(out.as_slice(), content);
}

#[test]
fn every_occurrence_is_replaced() {
    let out = materialize("/v.txt", b"{x.x.x} and {x.x.x}!", b"9.9.9");
    assert_eq!(out.as_slice(), b"9.9.9 and 9.9.9!");
}

#[test]
fn replacement_scans_left_to_right_without_overlap() {
    let out = replace_bytes(b"aaa", b"aa", b"b");
    assert_eq!(out.as_slice(), b"ba");
    let out = replace_bytes(b"abc", b"", b"x");
    assert_eq!(out.as_slice(), b"abc");
    let out = replace_bytes(b"abc", b"abcd", b"x");
    assert_eq!(out.as_slice(), b"abc");
}

#[test]
fn drive_lookup_recognizes_exactly_four_paths() {
    assert_eq!(drive_params("/dev/ata/0/0"), Some((0, 0)));
    assert_eq!(drive_params("/dev/ata/0/1"), Some((0, 1)));
    assert_eq!(drive_params("/dev/ata/1/0"), Some((1, 0)));
    assert_eq!(drive_params("/dev/ata/1/1"), Some((1, 1)));
    assert_eq!(drive_params("/dev/ata/1/2"), None);
    assert_eq!(drive_params("/dev/ata/0"), None);
    assert_eq!(drive_params(""), None);
}

#[test]
fn descriptors_start_with_the_kind_tag() {
    let kinds = [
        DeviceKind::Null,
        DeviceKind::Console,
        DeviceKind::Random,
        DeviceKind::Uptime,
        DeviceKind::Realtime,
        DeviceKind::Rtc,
        DeviceKind::TcpSocket,
        DeviceKind::UdpSocket,
    ];
    let mut seen: Vec<u8> = Vec::new();
    for kind in kinds {
        let buf = encode(kind, "/dev/whatever");
        assert_eq!(buf.len(), 1);
        assert_eq!(buf[0], kind.tag());
        assert!(!seen.contains(&buf[0]), "tags must be distinct");
        seen.push(buf[0]);
    }
    let drive = encode(DeviceKind::Drive, "/dev/ata/1/0");
    assert_eq!(drive.as_slice(), &[DeviceKind::Drive.tag(), 1, 0]);
    assert!(!seen.contains(&drive[0]));
}
