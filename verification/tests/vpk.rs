use map_info::vpk::{VPKInfo, VpkError};

/// Builds a VPK v1 file whose tree holds the given (extension, directory,
/// file name, archive index, data) entries, each in its own extension and
/// directory block, with the data stored after the tree.
fn build_vpk(entries: &[(&str, &str, &str, u16, &[u8])]) -> Vec<u8> {
    let mut tree: Vec<u8> = Vec::new();
    let mut blob: Vec<u8> = Vec::new();
    for (ext, dir, name, archive, data) in entries {
        tree.extend_from_slice(ext.as_bytes());
        tree.push(0);
        tree.extend_from_slice(dir.as_bytes());
        tree.push(0);
        tree.extend_from_slice(name.as_bytes());
        tree.push(0);
        tree.extend_from_slice(&0u32.to_le_bytes()); // crc
        tree.extend_from_slice(&0u16.to_le_bytes()); // preload
        tree.extend_from_slice(&archive.to_le_bytes());
        tree.extend_from_slice(&(blob.len() as u32).to_le_bytes());
        tree.extend_from_slice(&(data.len() as u32).to_le_bytes());
        tree.extend_from_slice(&0xFFFFu16.to_le_bytes());
        tree.push(0); // end of files
        tree.push(0); // end of directories
        blob.extend_from_slice(data);
    }
    tree.push(0); // end of extensions
    let mut out = Vec::new();
    out.extend_from_slice(&0x55AA1234u32.to_le_bytes());
    out.extend_from_slice(&1u32.to_le_bytes());
    out.extend_from_slice(&(tree.len() as u32).to_le_bytes());
    out.extend_from_slice(&tree);
    out.extend_from_slice(&blob);
    out
}

#[test]
fn vpk_reads_mission_text() {
    let text = b"\"mission\" { \"modes\" { \"coop\" { \"1\" { \"Map\" \"c1m1_hotel\" } } } }";
    let data = build_vpk(&[("txt", "missions", "campaign1", 0x7FFF, text)]);
    let info = VPKInfo::new(&data).unwrap();
    assert_eq!(info.get_mission().unwrap(), String::from_utf8_lossy(text));
    assert_eq!(info.get_addoninfo().unwrap_err(), VpkError::NoAddonInfo);
}

#[test]
fn vpk_mission_match_ignores_ascii_case() {
    let data = build_vpk(&[
        ("vmt", "materials", "wall", 0x7FFF, b"x"),
        ("TXT", "Missions", "c", 0, b"abc"),
    ]);
    let info = VPKInfo::new(&data).unwrap();
    assert_eq!(info.get_mission().unwrap(), "abc");
}

#[test]
fn vpk_first_mission_wins() {
    let data = build_vpk(&[
        ("txt", "missions", "a", 0x7FFF, b"first"),
        ("txt", "missions", "b", 0x7FFF, b"second"),
    ]);
    let info = VPKInfo::new(&data).unwrap();
    assert_eq!(info.get_mission().unwrap(), "first");
}

#[test]
fn vpk_without_mission() {
    let data = build_vpk(&[("vmt", "materials", "wall", 0x7FFF, b"x")]);
    let info = VPKInfo::new(&data).unwrap();
    assert_eq!(info.get_mission().unwrap_err(), VpkError::NoMission);
}

#[test]
fn vpk_empty_mission_data() {
    let data = build_vpk(&[("txt", "missions", "a", 3, b"")]);
    let info = VPKInfo::new(&data).unwrap();
    assert_eq!(info.get_mission().unwrap(), "");
}

#[test]
fn vpk_invalid_utf8_is_replaced() {
    let data = build_vpk(&[("txt", "missions", "a", 0, &[0x61, 0xFF, 0x62])]);
    let info = VPKInfo::new(&data).unwrap();
    assert_eq!(info.get_mission().unwrap(), "a\u{FFFD}b");
}

#[test]
fn vpk_bad_signature() {
    let mut data = build_vpk(&[]);
    data[0] = 0;
    assert_eq!(VPKInfo::new(&data).unwrap_err(), VpkError::BadSignature(0x55AA1200));
}

#[test]
fn vpk_bad_version() {
    let mut data = build_vpk(&[]);
    data[4] = 2;
    assert_eq!(VPKInfo::new(&data).unwrap_err(), VpkError::UnsupportedVersion(2));
}

#[test]
fn vpk_too_short() {
    assert_eq!(VPKInfo::new(&[0x34, 0x12]).unwrap_err(), VpkError::UnexpectedEof);
    assert_eq!(
        VPKInfo::new(&[0x34, 0x12, 0xAA, 0x55, 1, 0]).unwrap_err(),
        VpkError::UnexpectedEof
    );
}

#[test]
fn vpk_multi_archive_refused() {
    let data = build_vpk(&[("txt", "missions", "a", 2, b"abc")]);
    assert_eq!(VPKInfo::new(&data).unwrap_err(), VpkError::MultiArchive(2));
}

#[test]
fn vpk_data_out_of_range() {
    let mut data = build_vpk(&[("txt", "missions", "a", 0, b"abc")]);
    data.truncate(data.len() - 1);
    assert_eq!(VPKInfo::new(&data).unwrap_err(), VpkError::DataOutOfRange);
}

#[test]
fn vpk_bad_terminator() {
    let mut data = build_vpk(&[("txt", "missions", "a", 0, b"abc")]);
    // terminator sits 2 bytes before the end-of-files marker of the entry
    let term = 12 + 4 + 9 + 2 + 16;
    data[term] = 0;
    assert_eq!(VPKInfo::new(&data).unwrap_err(), VpkError::BadTerminator);
}

#[test]
fn vpk_truncated_entry() {
    let data = build_vpk(&[("txt", "missions", "a", 0, b"abc")]);
    let cut = &data[..12 + 4 + 9 + 2 + 10];
    let mut fixed = cut.to_vec();
    // keep the tree size pointing past the cut
    fixed[8] = 0xFF;
    assert_eq!(VPKInfo::new(&fixed).unwrap_err(), VpkError::UnexpectedEof);
}
