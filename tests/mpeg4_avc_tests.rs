use bytes::BytesMut;
use mpeg4_avc::{
    Mpeg4AvcProcessor, Mpeg4AvcWriter, MpegAvcError, MpegErrorValue,
};

/// Stands in for a resolution parser: width and height from bytes 1 and 2.
fn fake_parse(p: &Vec<u8>) -> Result<(u32, u32), MpegAvcError> {
    Ok((p[1] as u32 * 16, p[2] as u32 * 16))
}

fn entry(out: &mut Vec<u8>, payload: &[u8]) {
    out.push((payload.len() / 256) as u8);
    out.push((payload.len() % 256) as u8);
    out.extend_from_slice(payload);
}

const SPS_A: [u8; 4] = [0x67, 0x78, 0x44, 0x0a];
const SPS_B: [u8; 5] = [0x67, 0x64, 0x2d, 0x1f, 0xac];
const PPS_A: [u8; 3] = [0x68, 0xee, 0x3c];

fn record(profile: u8, length_byte: u8, sps: &[&[u8]], pps: &[&[u8]], trailer: &[u8]) -> Vec<u8> {
    let mut b = vec![1, profile, 0x40, 0x1f, length_byte, 0xe0 | sps.len() as u8];
    for s in sps {
        entry(&mut b, s);
    }
    b.push(pps.len() as u8);
    for p in pps {
        entry(&mut b, p);
    }
    b.extend_from_slice(trailer);
    b
}

fn load(bytes: Vec<u8>) -> (Mpeg4AvcProcessor, Result<(), MpegAvcError>) {
    let mut p = Mpeg4AvcProcessor::new();
    p.extend_data(BytesMut::from(&bytes[..]));
    let r = p.decoder_configuration_record_load(fake_parse).map(|_| ());
    (p, r)
}

fn encode(p: Mpeg4AvcProcessor) -> Vec<u8> {
    let mut w = Mpeg4AvcWriter::new(p.mpeg4_avc);
    assert!(w.decoder_configuration_record_save().is_ok());
    w.bytes_writer.get_current_bytes()
}

#[test]
fn decode_reads_header_and_lists() {
    let (p, r) = load(record(100, 0xff, &[&SPS_A, &SPS_B], &[&PPS_A], &[0xfd, 0xf8, 0xf8, 0]));
    assert_eq!(r, Ok(()));
    let m = &p.mpeg4_avc;
    assert_eq!(m.profile, 100);
    assert_eq!(m.compatibility(), 0x40);
    assert_eq!(m.level, 0x1f);
    assert_eq!(m.nalu_length(), 4);
    assert_eq!(m.nb_sps(), 2);
    assert_eq!(m.nb_pps(), 1);
    assert_eq!(m.sps()[0].data.to_vec(), SPS_A.to_vec());
    assert_eq!(m.sps()[1].data.to_vec(), SPS_B.to_vec());
    assert_eq!(m.sps()[1].size, 5);
    assert_eq!(m.pps()[0].data.to_vec(), PPS_A.to_vec());
    assert!(p.bytes_reader.is_empty());
}

#[test]
fn resolution_comes_from_last_sps() {
    let (p, r) = load(record(66, 0xff, &[&SPS_A, &SPS_B], &[&PPS_A], &[]));
    assert_eq!(r, Ok(()));
    assert_eq!(p.mpeg4_avc.width, 0x64 * 16);
    assert_eq!(p.mpeg4_avc.height, 0x2d * 16);
}

#[test]
fn round_trip_keeps_fields_and_entries() {
    let original = record(100, 0xfd, &[&SPS_A, &SPS_B], &[&PPS_A, &SPS_A], &[]);
    let (p, r) = load(original);
    assert_eq!(r, Ok(()));
    let encoded = encode(p);
    let (q, r2) = load(encoded.clone());
    assert_eq!(r2, Ok(()));
    let m = &q.mpeg4_avc;
    assert_eq!(m.profile, 100);
    assert_eq!(m.compatibility(), 0x40);
    assert_eq!(m.level, 0x1f);
    assert_eq!(m.nalu_length(), 2);
    assert_eq!(m.sps()[0].data.to_vec(), SPS_A.to_vec());
    assert_eq!(m.sps()[1].data.to_vec(), SPS_B.to_vec());
    assert_eq!(m.pps()[0].data.to_vec(), PPS_A.to_vec());
    assert_eq!(m.pps()[1].data.to_vec(), SPS_A.to_vec());
    assert_eq!((m.width, m.height), (0x64 * 16, 0x2d * 16));
    assert_eq!(encode(q), encoded);
}

#[test]
fn encode_writes_exact_bytes() {
    let (p, r) = load(record(66, 0x03, &[&SPS_A], &[&PPS_A], &[]));
    assert_eq!(r, Ok(()));
    let expected: Vec<u8> = vec![
        1, 66, 0x40, 0x1f, 0xff, 0xe1, 0, 4, 0x67, 0x78, 0x44, 0x0a, 1, 0, 3, 0x68, 0xee, 0x3c,
    ];
    assert_eq!(encode(p), expected);
}

#[test]
fn sps_count_reserved_bits_are_masked() {
    let mut b = vec![1, 66, 0, 30, 0xff, 0xe3];
    for s in [&SPS_A[..], &SPS_B[..], &SPS_A[..]] {
        entry(&mut b, s);
    }
    b.push(0);
    let (p, r) = load(b);
    assert_eq!(r, Ok(()));
    assert_eq!(p.mpeg4_avc.nb_sps(), 3);
    assert_eq!(p.mpeg4_avc.sps().len(), 3);
}

#[test]
fn extension_bytes_for_high_profile() {
    let (mut p, r) = load(record(100, 0xff, &[&SPS_A], &[&PPS_A], &[]));
    assert_eq!(r, Ok(()));
    p.mpeg4_avc.chroma_format_idc = 1;
    p.mpeg4_avc.bit_depth_luma_minus8 = 2;
    p.mpeg4_avc.bit_depth_chroma_minus8 = 0;
    let out = encode(p);
    let without = record(100, 0xff, &[&SPS_A], &[&PPS_A], &[]);
    assert_eq!(out.len(), without.len() + 4);
    assert_eq!(out[without.len()..].to_vec(), vec![0xfd, 0xfa, 0xf8, 0x00]);
}

#[test]
fn no_extension_bytes_for_baseline_profile() {
    let (p, r) = load(record(66, 0xff, &[&SPS_A], &[&PPS_A], &[]));
    assert_eq!(r, Ok(()));
    let out = encode(p);
    assert_eq!(out, record(66, 0xff, &[&SPS_A], &[&PPS_A], &[]));
}

#[test]
fn truncated_sps_payload_is_underflow() {
    let mut b = record(66, 0xff, &[&SPS_B], &[&PPS_A], &[]);
    b.truncate(6 + 2 + 3);
    let (_, r) = load(b);
    assert_eq!(r, Err(MpegAvcError { value: MpegErrorValue::BytesReadError }));
}

#[test]
fn short_header_is_underflow() {
    let (_, r) = load(vec![1, 66, 0, 30]);
    assert_eq!(r, Err(MpegAvcError { value: MpegErrorValue::BytesReadError }));
}

#[test]
fn wrong_sps_type_is_rejected() {
    let (_, r) = load(record(66, 0xff, &[&PPS_A], &[], &[]));
    assert_eq!(r, Err(MpegAvcError { value: MpegErrorValue::SPSNalunitTypeNotCorrect }));
}

#[test]
fn parser_error_is_passed_on() {
    let mut p = Mpeg4AvcProcessor::new();
    p.extend_data(BytesMut::from(&record(66, 0xff, &[&SPS_A], &[&PPS_A], &[])[..]));
    let r = p
        .decoder_configuration_record_load(|_v: &Vec<u8>| {
            Err(MpegAvcError { value: MpegErrorValue::H264Error })
        })
        .map(|_| ());
    assert_eq!(r, Err(MpegAvcError { value: MpegErrorValue::H264Error }));
}

#[test]
fn zero_counts_keep_earlier_lists() {
    let (mut p, r) = load(record(66, 0xff, &[&SPS_A], &[&PPS_A], &[]));
    assert_eq!(r, Ok(()));
    p.extend_data(BytesMut::from(&[1u8, 77, 0, 31, 0xfe, 0xe0, 0][..]));
    assert_eq!(p.decoder_configuration_record_load(fake_parse).map(|_| ()), Ok(()));
    assert_eq!(p.mpeg4_avc.profile, 77);
    assert_eq!(p.mpeg4_avc.nalu_length(), 3);
    assert_eq!(p.mpeg4_avc.nb_sps(), 0);
    assert_eq!(p.mpeg4_avc.sps().len(), 1);
    assert_eq!(p.mpeg4_avc.pps().len(), 1);
    assert_eq!(p.mpeg4_avc.width, 0x78 * 16);
}

fn nal(out: &mut Vec<u8>, payload: &[u8]) {
    out.extend_from_slice(&(payload.len() as u32).to_be_bytes());
    out.extend_from_slice(payload);
}

const IDR: [u8; 4] = [0x65, 0x88, 0x84, 0x21];
const SC: [u8; 4] = [0, 0, 0, 1];

fn framed(parts: &[&[u8]]) -> Vec<u8> {
    let mut v = Vec::new();
    for p in parts {
        v.extend_from_slice(&SC);
        v.extend_from_slice(p);
    }
    v
}

#[test]
fn stream_with_own_parameter_sets_gets_no_injection() {
    let (mut p, r) = load(record(66, 0xff, &[&SPS_B], &[&PPS_A], &[]));
    assert_eq!(r, Ok(()));
    let mut s = Vec::new();
    nal(&mut s, &SPS_A);
    nal(&mut s, &PPS_A);
    nal(&mut s, &IDR);
    p.extend_data(BytesMut::from(&s[..]));
    assert_eq!(p.h264_mp4toannexb(), Ok(()));
    assert_eq!(p.bytes_writer.get_current_bytes(), framed(&[&SPS_A, &PPS_A, &IDR]));
}

#[test]
fn idr_alone_gets_stored_parameter_sets_in_front() {
    let (mut p, r) = load(record(66, 0xff, &[&SPS_A], &[&PPS_A], &[]));
    assert_eq!(r, Ok(()));
    let mut s = Vec::new();
    nal(&mut s, &IDR);
    p.extend_data(BytesMut::from(&s[..]));
    assert_eq!(p.h264_mp4toannexb(), Ok(()));
    assert_eq!(p.bytes_writer.get_current_bytes(), framed(&[&SPS_A, &PPS_A, &IDR]));
}

#[test]
fn injection_goes_before_earlier_units() {
    let (mut p, r) = load(record(66, 0xff, &[&SPS_A], &[&PPS_A], &[]));
    assert_eq!(r, Ok(()));
    let sei: [u8; 2] = [0x06, 0x05];
    let mut s = Vec::new();
    nal(&mut s, &sei);
    nal(&mut s, &IDR);
    nal(&mut s, &IDR);
    p.extend_data(BytesMut::from(&s[..]));
    assert_eq!(p.h264_mp4toannexb(), Ok(()));
    assert_eq!(
        p.bytes_writer.get_current_bytes(),
        framed(&[&SPS_A, &PPS_A, &sei, &IDR, &IDR])
    );
}

#[test]
fn stream_without_idr_gets_no_injection() {
    let (mut p, r) = load(record(66, 0xff, &[&SPS_A], &[&PPS_A], &[]));
    assert_eq!(r, Ok(()));
    let slice: [u8; 3] = [0x41, 0x9a, 0x02];
    let mut s = Vec::new();
    nal(&mut s, &slice);
    p.extend_data(BytesMut::from(&s[..]));
    assert_eq!(p.h264_mp4toannexb(), Ok(()));
    assert_eq!(p.bytes_writer.get_current_bytes(), framed(&[&slice]));
}

#[test]
fn truncated_stream_is_underflow() {
    let (mut p, r) = load(record(66, 0xff, &[&SPS_A], &[&PPS_A], &[]));
    assert_eq!(r, Ok(()));
    let mut s = Vec::new();
    nal(&mut s, &IDR);
    s.pop();
    p.extend_data(BytesMut::from(&s[..]));
    assert_eq!(
        p.h264_mp4toannexb(),
        Err(MpegAvcError { value: MpegErrorValue::BytesReadError })
    );
}

#[test]
fn nalu_size_reads_big_endian_fields() {
    let (mut p, r) = load(record(66, 0xfe, &[&SPS_A], &[&PPS_A], &[]));
    assert_eq!(r, Ok(()));
    p.extend_data(BytesMut::from(&[0x01u8, 0x02, 0x03, 0xff][..]));
    assert_eq!(p.get_nalu_size(), Ok(0x010203));
    assert_eq!(p.bytes_reader.len(), 1);
    assert_eq!(
        p.get_nalu_size(),
        Err(MpegAvcError { value: MpegErrorValue::BytesReadError })
    );
}

#[test]
fn annexb_blobs_frame_stored_lists() {
    let (p, r) = load(record(66, 0xff, &[&SPS_A, &SPS_B], &[&PPS_A], &[]));
    assert_eq!(r, Ok(()));
    assert_eq!(p.mpeg4_avc.sps_annexb_data(), framed(&[&SPS_A, &SPS_B]));
    assert_eq!(p.mpeg4_avc.pps_annexb_data(), framed(&[&PPS_A]));
}

#[test]
fn clearing_empties_lists_and_blobs() {
    let (mut p, r) = load(record(66, 0xff, &[&SPS_A], &[&PPS_A], &[]));
    assert_eq!(r, Ok(()));
    p.clear_sps_data();
    p.clear_pps_data();
    assert_eq!(p.mpeg4_avc.sps().len(), 0);
    assert_eq!(p.mpeg4_avc.pps().len(), 0);
    assert!(p.mpeg4_avc.sps_annexb_data().is_empty());
    assert!(p.mpeg4_avc.pps_annexb_data().is_empty());
}

fn failing_parse(_v: &Vec<u8>) -> Result<(u32, u32), MpegAvcError> {
    Err(MpegAvcError { value: MpegErrorValue::H264Error })
}

#[test]
fn record_without_sps_never_calls_the_parser() {
    let mut p = Mpeg4AvcProcessor::new();
    p.extend_data(BytesMut::from(&record(66, 0xff, &[], &[&PPS_A], &[])[..]));
    let r = p.decoder_configuration_record_load(failing_parse).map(|_| ());
    assert_eq!(r, Ok(()));
    assert_eq!(p.mpeg4_avc.pps().len(), 1);
}

#[test]
fn truncated_first_sps_is_underflow_whatever_the_parser() {
    let mut p = Mpeg4AvcProcessor::new();
    p.extend_data(BytesMut::from(&[0x01u8, 0x42, 0x00, 0x1e, 0xff, 0xe1, 0x00, 0x0a, 0x67, 0x42][..]));
    let r = p.decoder_configuration_record_load(failing_parse).map(|_| ());
    assert_eq!(r, Err(MpegAvcError { value: MpegErrorValue::BytesReadError }));
}

#[test]
fn wrong_first_sps_type_wins_over_the_parser() {
    let mut p = Mpeg4AvcProcessor::new();
    p.extend_data(BytesMut::from(&[0x01u8, 0x42, 0x00, 0x1e, 0xff, 0xe1, 0x00, 0x02, 0x68, 0xce, 0x00][..]));
    let r = p.decoder_configuration_record_load(failing_parse).map(|_| ());
    assert_eq!(r, Err(MpegAvcError { value: MpegErrorValue::SPSNalunitTypeNotCorrect }));
    assert_eq!(p.mpeg4_avc.sps().len(), 0);
}
