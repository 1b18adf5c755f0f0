use video_player::probe::{
    be_u32, ebml_id, ebml_size, ebml_uint, find_ebml_dimensions, le_u32, probe_avi, probe_mp4,
    probe_mp4_boxes, resolution, valid_size,
};

#[test]
fn malformed_inputs_do_not_panic() {
    for size in 0..128 {
        let bytes = vec![0xff; size];
        let _ = probe_mp4(&bytes);
        let _ = find_ebml_dimensions(&bytes, 0);
        let _ = probe_avi(&bytes);
    }
}

#[test]
fn reads_valid_avi_header() {
    let mut bytes = vec![0u8; 68];
    bytes[0..4].copy_from_slice(b"RIFF");
    bytes[4..8].copy_from_slice(&60u32.to_le_bytes());
    bytes[8..12].copy_from_slice(b"AVI ");
    bytes[12..16].copy_from_slice(b"avih");
    bytes[16..20].copy_from_slice(&48u32.to_le_bytes());
    bytes[52..56].copy_from_slice(&1920u32.to_le_bytes());
    bytes[56..60].copy_from_slice(&1080u32.to_le_bytes());
    assert_eq!(probe_avi(&bytes), Some((1920, 1080)));
}

#[test]
fn avi_skips_other_chunks_with_padding() {
    let mut bytes = vec![0u8; 12];
    bytes[0..4].copy_from_slice(b"RIFF");
    bytes[8..12].copy_from_slice(b"AVI ");
    bytes.extend_from_slice(b"JUNK");
    bytes.extend_from_slice(&3u32.to_le_bytes());
    bytes.extend_from_slice(&[1, 2, 3, 0]);
    bytes.extend_from_slice(b"avih");
    bytes.extend_from_slice(&40u32.to_le_bytes());
    let mut body = vec![0u8; 40];
    body[32..36].copy_from_slice(&640u32.to_le_bytes());
    body[36..40].copy_from_slice(&480u32.to_le_bytes());
    bytes.extend_from_slice(&body);
    assert_eq!(probe_avi(&bytes), Some((640, 480)));
}

#[test]
fn avi_rejects_implausible_or_foreign_headers() {
    let mut bytes = vec![0u8; 68];
    bytes[0..4].copy_from_slice(b"RIFX");
    bytes[8..12].copy_from_slice(b"AVI ");
    assert_eq!(probe_avi(&bytes), None);
    bytes[0..4].copy_from_slice(b"RIFF");
    bytes[12..16].copy_from_slice(b"avih");
    bytes[16..20].copy_from_slice(&48u32.to_le_bytes());
    bytes[52..56].copy_from_slice(&200_000u32.to_le_bytes());
    bytes[56..60].copy_from_slice(&1080u32.to_le_bytes());
    assert_eq!(probe_avi(&bytes), None);
}

#[test]
fn reads_integers_in_both_byte_orders() {
    let bytes = [0x12, 0x34, 0x56, 0x78, 0x9a];
    assert_eq!(be_u32(&bytes, 0), Some(0x1234_5678));
    assert_eq!(le_u32(&bytes, 1), Some(0x9a78_5634));
    assert_eq!(be_u32(&bytes, 2), None);
    assert_eq!(le_u32(&bytes, usize::MAX), None);
}

#[test]
fn valid_size_bounds() {
    assert_eq!(valid_size(1, 1), Some((1, 1)));
    assert_eq!(valid_size(100_000, 100_000), Some((100_000, 100_000)));
    assert_eq!(valid_size(0, 10), None);
    assert_eq!(valid_size(100_001, 10), None);
}

fn mp4_box(kind: &[u8; 4], body: &[u8]) -> Vec<u8> {
    let mut b = ((body.len() + 8) as u32).to_be_bytes().to_vec();
    b.extend_from_slice(kind);
    b.extend_from_slice(body);
    b
}

fn tkhd(version: u8, width: u32, height: u32) -> Vec<u8> {
    let at = if version == 1 { 84 } else { 76 };
    let mut body = vec![0u8; at + 8];
    body[0] = version;
    body[at..at + 4].copy_from_slice(&(width << 16).to_be_bytes());
    body[at + 4..at + 8].copy_from_slice(&(height << 16).to_be_bytes());
    mp4_box(b"tkhd", &body)
}

#[test]
fn finds_track_header_inside_movie_box() {
    let ftyp = mp4_box(b"ftyp", b"isom0000");
    let trak = mp4_box(b"trak", &tkhd(0, 1280, 720));
    let moov = mp4_box(b"moov", &trak);
    let mut file = ftyp.clone();
    file.extend_from_slice(&moov);
    assert_eq!(probe_mp4(&file), Some((1280, 720)));
    assert_eq!(probe_mp4_boxes(&file), Some((1280, 720)));
}

#[test]
fn skips_audio_track_headers_of_size_zero() {
    let mut trak = mp4_box(b"trak", &tkhd(1, 0, 0));
    trak.extend_from_slice(&mp4_box(b"trak", &tkhd(1, 3840, 2160)));
    let moov = mp4_box(b"moov", &trak);
    assert_eq!(probe_mp4(&moov), Some((3840, 2160)));
}

#[test]
fn mp4_box_running_past_the_end_stops_the_search() {
    let mut file = 200u32.to_be_bytes().to_vec();
    file.extend_from_slice(b"moov");
    file.extend_from_slice(&tkhd(0, 640, 480));
    assert_eq!(probe_mp4(&file), None);
}

#[test]
fn reads_ebml_ids_and_sizes() {
    assert_eq!(ebml_id(&[0x1A, 0x45, 0xDF, 0xA3], 0), Some((0x1A45_DFA3, 4)));
    assert_eq!(ebml_id(&[0xB0], 0), Some((0xB0, 1)));
    assert_eq!(ebml_id(&[0x0F], 0), None);
    assert_eq!(ebml_size(&[0x82], 0), Some((Some(2), 1)));
    assert_eq!(ebml_size(&[0x40, 0x10], 0), Some((Some(16), 2)));
    assert_eq!(ebml_size(&[0xFF], 0), Some((None, 1)));
    assert_eq!(ebml_size(&[0x01, 0, 0, 0, 0, 0, 0, 5], 0), Some((Some(5), 8)));
    assert_eq!(ebml_size(&[0x00], 0), None);
    assert_eq!(ebml_size(&[0x40], 0), None);
    assert_eq!(ebml_uint(&[0x07, 0x80]), Some(1920));
    assert_eq!(ebml_uint(&[]), None);
    assert_eq!(ebml_uint(&[1, 2, 3, 4, 5]), None);
}

fn element(id: &[u8], body: &[u8]) -> Vec<u8> {
    let mut e = id.to_vec();
    e.push(0x80 | body.len() as u8);
    e.extend_from_slice(body);
    e
}

#[test]
fn finds_matroska_pixel_size() {
    let mut video = element(&[0xB0], &[0x07, 0x80]);
    video.extend_from_slice(&element(&[0xBA], &[0x04, 0x38]));
    let entry = element(&[0xAE], &element(&[0xE0], &video));
    let tracks = element(&[0x16, 0x54, 0xAE, 0x6B], &entry);
    let mut file = element(&[0x1A, 0x45, 0xDF, 0xA3], &[0x42, 0x86, 0x81, 0x01]);
    file.extend_from_slice(&element(&[0x18, 0x53, 0x80, 0x67], &tracks));
    assert_eq!(find_ebml_dimensions(&file, 0), Some((1920, 1080)));
    assert_eq!(find_ebml_dimensions(&file, 9), None);
}

#[test]
fn resolution_dispatches_on_extension() {
    let mut bytes = vec![0u8; 68];
    bytes[0..4].copy_from_slice(b"RIFF");
    bytes[8..12].copy_from_slice(b"AVI ");
    bytes[12..16].copy_from_slice(b"avih");
    bytes[16..20].copy_from_slice(&48u32.to_le_bytes());
    bytes[52..56].copy_from_slice(&1920u32.to_le_bytes());
    bytes[56..60].copy_from_slice(&1080u32.to_le_bytes());
    assert_eq!(resolution("a.AVI", Some(&bytes)), Some((1920, 1080)));
    assert_eq!(resolution("a.mp4", Some(&bytes)), None);
    assert_eq!(resolution("a.srt", Some(&bytes)), None);
    assert_eq!(resolution("a.avi", None), None);
}
