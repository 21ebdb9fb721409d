use adb_sink::wire::{checksum, AdbMsg, Cmd, Packer, UnPacker, UnpackedAdbMsg, MSG_SIZE};

#[test]
fn checksum_is_byte_sum() {
    assert_eq!(checksum(&[]), 0);
    assert_eq!(checksum(&[1, 2, 3]), 6);
    assert_eq!(checksum(&[0xFF, 0xFF]), 510);
    assert_eq!(checksum(b"AB"), 0x41 + 0x42);
}

#[test]
fn command_words_roundtrip() {
    let all = [Cmd::Cnxn, Cmd::Auth, Cmd::Clse, Cmd::Okay, Cmd::Open, Cmd::Sync, Cmd::Wrte];
    for c in all {
        assert_eq!(Cmd::try_from_u32(c.code()), Some(c));
    }
    assert_eq!(Cmd::try_from_u32(0xDEADBEEF), None);
    assert_eq!(Cmd::Cnxn.code(), 1314410051);
    assert_eq!(Cmd::Auth.code(), 1213486401);
    assert_eq!(Cmd::Clse.code(), 1163086915);
    assert_eq!(Cmd::Okay.code(), 1497451343);
    assert_eq!(Cmd::Open.code(), 1313165391);
    assert_eq!(Cmd::Sync.code(), 1129208147);
    assert_eq!(Cmd::Wrte.code(), 1163154007);
}

#[test]
fn packer_writes_little_endian_words() {
    let mut p = Packer::new(Vec::new());
    p.write_u32(0x0403_0201);
    p.write_u32(0xFFFF_FFFF);
    assert_eq!(p.into_inner(), vec![1, 2, 3, 4, 0xFF, 0xFF, 0xFF, 0xFF]);
}

#[test]
fn unpacker_reads_little_endian_words() {
    let buf: Vec<u8> = vec![1, 2, 3, 4, 0xFF, 0, 0, 0];
    let mut u = UnPacker::new(buf.as_slice());
    assert_eq!(u.read_u32(), 0x0403_0201);
    assert_eq!(u.read_u32(), 0xFF);
}

#[test]
fn header_layout_is_exact() {
    let msg = AdbMsg::pack(Cmd::Cnxn, 1, 2, b"AB");
    assert_eq!(msg.packed.len(), MSG_SIZE);
    let expected: Vec<u8> = vec![
        0x43, 0x4E, 0x58, 0x4E, // command word
        1, 0, 0, 0, // arg0
        2, 0, 0, 0, // arg1
        2, 0, 0, 0, // payload length
        0x83, 0, 0, 0, // payload checksum
        0xBC, 0xB1, 0xA7, 0xB1, // complement of the command word
    ];
    assert_eq!(msg.packed, expected);
}

#[test]
fn headers_roundtrip_through_unpack() {
    let data = b"shell:echo hi\0";
    let msg = AdbMsg::pack(Cmd::Open, 7, 9, data);
    let m: UnpackedAdbMsg = UnpackedAdbMsg::unpack(msg.packed.as_slice()).unwrap();
    assert_eq!(m.cmd, Cmd::Open);
    assert_eq!(m.arg0, 7);
    assert_eq!(m.arg1, 9);
    assert_eq!(m.data_len, data.len() as u32);
    assert_eq!(m.checksum, checksum(data));
    assert!(m.matches_checksum(data));
    assert!(!m.matches_checksum(b"other"));
}

#[test]
fn unknown_command_word_is_rejected() {
    let buf = [0u8; 24];
    assert!(UnpackedAdbMsg::unpack(&buf).is_none());
}
