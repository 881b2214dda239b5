use mhrise_save_migrate::container::{
    patch_link, read_link, relink_or_reseal, relink_to_sys, reseal, resealed_sys, set_link_and_tail, tail_checksum_ok,
    validate_steam, ContainerError, SteamIssue,
};
use mhrise_save_migrate::murmur::{murm3, name_hash};
use mhrise_save_migrate::payload::{
    append_checksum, frame_stream, patch_bytes, raw_patch_str, raw_patch_u32, seal_stream, PatchError,
};
use mhrise_save_migrate::raw::{find_reference_tail, place_reference_tail, raw_container_head, TailPlacement};

fn sample(n: usize) -> Vec<u8> {
    (0..n).map(|i| (i * 7 + 3) as u8).collect()
}

#[test]
fn murm3_known_values() {
    assert_eq!(murm3(b""), 0x81f1_6f39);
    assert_eq!(murm3(b"a"), 0x2a68_4527);
    assert_eq!(murm3(b"abcd"), 0x2b7d_c558);
}

#[test]
fn name_hash_matches_schema_names() {
    assert_eq!(name_hash("HuntingCount"), 0x1c4d_0471);
    assert_eq!(name_hash("_HunterRank"), 0x5653_c091);
    assert_eq!(name_hash("HunterUniqueID"), 0x0a96_0102);
    assert_eq!(name_hash("NsaID"), 0xcce8_505f);
    assert_eq!(name_hash("EnemySizeMin"), 0xa23e_e890);
    assert_eq!(name_hash("EnemySizeMax"), 0xfac8_9643);
}

#[test]
fn set_link_and_tail_writes_link_and_checksum() {
    let mut buf = sample(64);
    set_link_and_tail(&mut buf, 0x1234_5678);
    assert_eq!(&buf[0x0C..0x10], &[0x78, 0x56, 0x34, 0x12]);
    assert_eq!(read_link(&buf), 0x1234_5678);
    let n = buf.len();
    let h = murm3(&buf[..n - 4]);
    assert_eq!(&buf[n - 4..], &h.to_le_bytes());
    assert!(tail_checksum_ok(&buf));
    // other bytes are untouched
    let orig = sample(64);
    assert_eq!(&buf[..0x0C], &orig[..0x0C]);
    assert_eq!(&buf[0x10..n - 4], &orig[0x10..n - 4]);
}

#[test]
fn set_link_and_tail_short_buffers() {
    let mut tiny = vec![1u8, 2, 3];
    set_link_and_tail(&mut tiny, 9);
    assert_eq!(tiny, vec![1, 2, 3]);
    let mut small = sample(8);
    set_link_and_tail(&mut small, 9);
    assert!(tail_checksum_ok(&small));
    assert_eq!(&small[..4], &sample(8)[..4]);
}

#[test]
fn relinking_twice_is_relinking_once() {
    let mut a = sample(40);
    set_link_and_tail(&mut a, 77);
    let mut b = a.clone();
    set_link_and_tail(&mut b, 77);
    assert_eq!(a, b);
}

#[test]
fn reseal_fixes_checksum() {
    let mut buf = sample(32);
    assert!(!tail_checksum_ok(&buf));
    reseal(&mut buf);
    assert!(tail_checksum_ok(&buf));
}

#[test]
fn patch_link_too_small() {
    assert_eq!(patch_link(&sample(0x13), 5), Err(ContainerError::TooSmall));
    let out = patch_link(&sample(0x14), 5).unwrap();
    assert_eq!(read_link(&out), 5);
    assert!(tail_checksum_ok(&out));
}

#[test]
fn relink_to_sys_takes_the_system_link() {
    let mut sys = sample(48);
    set_link_and_tail(&mut sys, 4242);
    let mut slot = sample(96);
    relink_to_sys(&mut slot, &sys);
    assert_eq!(read_link(&slot), 4242);
    assert!(tail_checksum_ok(&slot));
    let sys2 = resealed_sys(&sys);
    assert_eq!(sys2, sys);
}

#[test]
fn relink_or_reseal_without_link_only_reseals() {
    let mut slot = sample(40);
    let link_before = read_link(&slot);
    relink_or_reseal(&mut slot, 0);
    assert_eq!(read_link(&slot), link_before);
    assert!(tail_checksum_ok(&slot));
    relink_or_reseal(&mut slot, 31);
    assert_eq!(read_link(&slot), 31);
}

#[test]
fn validate_steam_accepts_a_linked_pair() {
    let mut sys = sample(48);
    set_link_and_tail(&mut sys, 99);
    let mut slot = sample(80);
    relink_to_sys(&mut slot, &sys);
    assert_eq!(validate_steam(&slot, &sys, Ok(34)), Ok(34));
}

#[test]
fn validate_steam_reports_every_issue() {
    let sys = sample(48);
    let slot = sample(80);
    let r = validate_steam(&slot, &sys, Err("bad magic".to_string()));
    let issues = r.unwrap_err();
    assert_eq!(issues.len(), 2);
    assert_eq!(issues[0], SteamIssue::BadChecksum);
    assert_eq!(issues[1], SteamIssue::ParseFailed("bad magic".to_string()));
    let mut other = sample(48);
    set_link_and_tail(&mut other, 3);
    let mut slot2 = sample(80);
    set_link_and_tail(&mut slot2, 4);
    let r2 = validate_steam(&slot2, &other, Ok(1)).unwrap_err();
    assert_eq!(r2, vec![SteamIssue::LinkMismatch { slot_link: 4, sys_link: 3 }]);
    let mut zero = sample(80);
    set_link_and_tail(&mut zero, 0);
    let mut zsys = sample(48);
    set_link_and_tail(&mut zsys, 0);
    let r3 = validate_steam(&zero, &zsys, Ok(1)).unwrap_err();
    assert_eq!(r3, vec![SteamIssue::LinkMismatch { slot_link: 0, sys_link: 0 }]);
}

#[test]
fn raw_patch_u32_writes_little_endian() {
    let p = sample(16);
    let out = raw_patch_u32(&p, 4, 0xdead_beef).unwrap();
    assert_eq!(&out[4..8], &[0xef, 0xbe, 0xad, 0xde]);
    assert_eq!(&out[..4], &p[..4]);
    assert_eq!(&out[8..], &p[8..]);
    assert_eq!(raw_patch_u32(&p, 13, 1), Err(PatchError::OffsetOutOfBounds));
    assert!(raw_patch_u32(&p, 12, 1).is_ok());
}

#[test]
fn patch_bytes_overwrites_in_place() {
    let p = sample(10);
    let out = patch_bytes(&p, 3, &[9, 9, 9]).unwrap();
    assert_eq!(out.len(), 10);
    assert_eq!(&out[3..6], &[9, 9, 9]);
    assert_eq!(patch_bytes(&p, 8, &[1, 2, 3]), Err(PatchError::PatchOutOfBounds));
}

#[test]
fn raw_patch_str_replaces_the_record() {
    // a record of two code units "AB": len 2, 4 bytes of units, no padding
    let mut p = vec![0xAAu8, 0xBB, 0xCC, 0xDD];
    p.extend_from_slice(&2u32.to_le_bytes());
    p.extend_from_slice(&[b'A', 0, b'B', 0]);
    p.extend_from_slice(&[1, 2, 3, 4]);
    let out = raw_patch_str(&p, 4, "xy").unwrap();
    assert_eq!(out.len(), p.len());
    assert_eq!(&out[..4], &p[..4]);
    assert_eq!(&out[4..8], &2u32.to_le_bytes());
    assert_eq!(&out[8..12], &[b'x', 0, b'y', 0]);
    assert_eq!(&out[12..], &[1, 2, 3, 4]);
    // a longer name grows the record, with padding to four bytes
    let out2 = raw_patch_str(&p, 4, "xyz").unwrap();
    assert_eq!(out2.len(), p.len() + 4);
    assert_eq!(&out2[4..8], &3u32.to_le_bytes());
    assert_eq!(&out2[8..16], &[b'x', 0, b'y', 0, b'z', 0, 0, 0]);
    assert_eq!(&out2[16..], &[1, 2, 3, 4]);
    assert_eq!(raw_patch_str(&p, 13, "a"), Err(PatchError::OffsetOutOfBounds));
    let mut q = vec![0u8; 4];
    q[0] = 9;
    q.extend_from_slice(&[0; 4]);
    assert_eq!(raw_patch_str(&q, 0, "a"), Err(PatchError::StringOutOfBounds));
}

#[test]
fn seal_stream_frames_and_checksums() {
    let head = [1u8, 2, 3, 4];
    let enc = [5u8, 6, 7];
    let framed = frame_stream(&head, &enc, 0x0102);
    assert_eq!(framed.len() % 4, 0);
    assert_eq!(&framed[..7], &[1, 2, 3, 4, 5, 6, 7]);
    assert_eq!(&framed[7..15], &0x0102u64.to_le_bytes());
    assert_eq!(framed.len(), 16);
    let sealed = seal_stream(&head, &enc, 0x0102);
    assert_eq!(&sealed[..16], &framed[..]);
    assert!(tail_checksum_ok(&sealed));
    let mut b = framed.clone();
    append_checksum(&mut b);
    assert_eq!(b, sealed);
}

#[test]
fn raw_head_layout() {
    let h = raw_container_head(0x0010);
    assert_eq!(h.len(), 16);
    assert_eq!(&h[..4], b"DSSS");
    assert_eq!(&h[4..8], &2u32.to_le_bytes());
    assert_eq!(&h[8..12], &0x0010u32.to_le_bytes());
    assert_eq!(&h[12..16], &0x208u32.to_le_bytes());
}

#[test]
fn reference_tail_is_found_and_placed() {
    let n = 0x4000usize;
    let mut r = vec![0xffu8; n];
    for (i, b) in r.iter_mut().enumerate().take(0x1f00) {
        *b = (i % 251) as u8 | 0x80;
    }
    let planted = 0x2000usize;
    r[planted..planted + 8].copy_from_slice(&0x2000u64.to_le_bytes());
    assert_eq!(find_reference_tail(&r), Some(planted));
    let raw_len = 10usize;
    let tail_at = 16 + 0x40240;
    let mut file = vec![7u8; tail_at + 0x1000 + 8];
    let placed = place_reference_tail(&mut file, &r, raw_len);
    assert_eq!(placed, TailPlacement::Copied);
    assert_eq!(&file[tail_at..tail_at + 0x1000], &r[planted - 0x1000..planted]);
    let mut short = vec![7u8; 100];
    assert_eq!(place_reference_tail(&mut short, &r, raw_len), TailPlacement::OutOfRange);
    assert_eq!(short, vec![7u8; 100]);
    let none = vec![0u8; 0x100];
    assert_eq!(find_reference_tail(&none), None);
}
