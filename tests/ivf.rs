use vp9::ivf::{IvfDemuxer, IvfError, IvfHeader, MAX_FRAME_SIZE};

fn header(codec: &[u8; 4], width: u16, height: u16, denom: u32, num: u32, frames: u32) -> Vec<u8> {
    let mut v = Vec::new();
    v.extend_from_slice(b"DKIF");
    v.extend_from_slice(&0u16.to_le_bytes());
    v.extend_from_slice(&32u16.to_le_bytes());
    v.extend_from_slice(codec);
    v.extend_from_slice(&width.to_le_bytes());
    v.extend_from_slice(&height.to_le_bytes());
    v.extend_from_slice(&denom.to_le_bytes());
    v.extend_from_slice(&num.to_le_bytes());
    v.extend_from_slice(&frames.to_le_bytes());
    v.extend_from_slice(&0u32.to_le_bytes());
    v
}

fn record(v: &mut Vec<u8>, size: u32, timestamp: u64, payload: &[u8]) {
    v.extend_from_slice(&size.to_le_bytes());
    v.extend_from_slice(&timestamp.to_le_bytes());
    v.extend_from_slice(payload);
}

#[test]
fn header_fields_are_read_little_endian() {
    let s = header(b"VP90", 0x0280, 0x01E0, 0x0001_0203, 30, 7);
    let d = IvfDemuxer::new(s).unwrap();
    assert_eq!(
        *d.header(),
        IvfHeader { width: 640, height: 480, time_base_num: 30, time_base_denom: 0x0001_0203, number_of_frames: 7 }
    );
}

#[test]
fn well_formed_stream_yields_declared_frames() {
    let mut s = header(b"VP90", 4, 4, 1000, 1, 3);
    record(&mut s, 3, 0, &[1, 2, 3]);
    record(&mut s, 0, 33, &[]);
    record(&mut s, 2, 0x0102_0304_0506_0708, &[9, 8]);
    let mut d = IvfDemuxer::new(s).unwrap();
    {
        let f = d.next_frame().unwrap().unwrap();
        assert_eq!(f.timestamp, 0);
        assert_eq!(f.data, &[1, 2, 3][..]);
    }
    {
        let f = d.next_frame().unwrap().unwrap();
        assert_eq!(f.timestamp, 33);
        assert!(f.data.is_empty());
    }
    {
        let f = d.next_frame().unwrap().unwrap();
        assert_eq!(f.timestamp, 0x0102_0304_0506_0708);
        assert_eq!(f.data, &[9, 8][..]);
    }
    assert!(d.next_frame().unwrap().is_none());
    assert!(d.next_frame().unwrap().is_none());
}

#[test]
fn zero_declared_frames_yields_none() {
    let mut s = header(b"VP90", 4, 4, 1, 1, 0);
    record(&mut s, 1, 0, &[1]);
    let mut d = IvfDemuxer::new(s).unwrap();
    assert!(d.next_frame().unwrap().is_none());
}

#[test]
fn wrong_signature_is_refused() {
    let mut s = header(b"VP90", 4, 4, 1, 1, 1);
    s[0] = b'R';
    assert_eq!(IvfDemuxer::new(s).err(), Some(IvfError::MissingSignature));
    assert_eq!(IvfDemuxer::new(b"RIFF".to_vec()).err(), Some(IvfError::MissingSignature));
}

#[test]
fn other_codec_is_refused_with_its_tag() {
    let s = header(b"VP80", 4, 4, 1, 1, 1);
    assert_eq!(IvfDemuxer::new(s).err(), Some(IvfError::UnsupportedCodec("VP80".to_string())));
    let s = header(&[0xFF, 0xFE, 0x41, 0x42], 4, 4, 1, 1, 1);
    assert_eq!(IvfDemuxer::new(s).err(), Some(IvfError::UnsupportedCodec(String::new())));
}

#[test]
fn short_header_is_truncated() {
    assert_eq!(IvfDemuxer::new(b"DK".to_vec()).err(), Some(IvfError::Truncated));
    assert_eq!(IvfDemuxer::new(b"DKIF\0\0".to_vec()).err(), Some(IvfError::Truncated));
    let s = header(b"VP90", 4, 4, 1, 1, 1);
    assert_eq!(IvfDemuxer::new(s[..31].to_vec()).err(), Some(IvfError::Truncated));
}

#[test]
fn frame_size_over_ceiling_is_refused() {
    let mut s = header(b"VP90", 4, 4, 1, 1, 1);
    record(&mut s, 8 * 1024 * 1024 + 1, 0, &[]);
    let mut d = IvfDemuxer::new(s).unwrap();
    assert_eq!(d.next_frame().err(), Some(IvfError::FrameTooLarge));
}

#[test]
fn frame_size_at_ceiling_is_accepted() {
    assert_eq!(MAX_FRAME_SIZE, 8 * 1024 * 1024);
    let mut s = header(b"VP90", 4, 4, 1, 1, 1);
    let payload = vec![0x5Au8; 8 * 1024 * 1024];
    record(&mut s, 8 * 1024 * 1024, 12, &payload);
    let mut d = IvfDemuxer::new(s).unwrap();
    let f = d.next_frame().unwrap().unwrap();
    assert_eq!(f.timestamp, 12);
    assert_eq!(f.data.len(), 8 * 1024 * 1024);
    assert_eq!(f.data[8 * 1024 * 1024 - 1], 0x5A);
}

#[test]
fn stream_ending_mid_frame_is_truncated() {
    let mut s = header(b"VP90", 4, 4, 1, 1, 2);
    record(&mut s, 4, 0, &[1, 2, 3, 4]);
    record(&mut s, 4, 1, &[1, 2]);
    let mut d = IvfDemuxer::new(s).unwrap();
    assert!(d.next_frame().unwrap().is_some());
    assert_eq!(d.next_frame().err(), Some(IvfError::Truncated));
}

#[test]
fn stream_ending_in_record_header_is_truncated() {
    let mut s = header(b"VP90", 4, 4, 1, 1, 1);
    s.extend_from_slice(&[1, 0, 0]);
    let mut d = IvfDemuxer::new(s).unwrap();
    assert_eq!(d.next_frame().err(), Some(IvfError::Truncated));
}
