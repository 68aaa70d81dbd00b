//! The AVC decoder configuration record, its parameter-set store, and the
//! processor and writer that decode, reframe and encode with it.
use vstd::prelude::*;
use bytes::BytesMut;
use crate::buffer::{bytes_mut_as_slice, bytes_mut_from_slice, bytes_mut_view};
use crate::bytes_io::{be_value, BytesReader, BytesWriter};
use crate::errors::{MpegAvcError, MpegErrorValue};
use crate::nal::{
    annexb,
    entries_bytes,
    frames,
    injects,
    any_ps_or_idr,
    nal_type,
    nal_walk,
    record_layout,
    record_pps_count,
    record_sps_read,
    sps_before_fault,
    start_code,
    walk_entries,
    H264_NAL_IDR,
    H264_NAL_PPS,
    H264_NAL_SPS,
    lemma_entries_push,
    lemma_injects_any,
    lemma_walk_entries_bytes,
    lemma_walk_step,
    pow256,
    prepend_entries,
    prepend_units,
};

verus! {

/// A sequence parameter set: one NAL unit, header byte included, no start code.
#[derive(Clone)]
pub struct Sps {
    pub size: u16,
    pub data: BytesMut,
}

impl Sps {
    pub fn new() -> (r: Self)
        ensures
            r.size == 0,
            bytes_mut_view(r.data).len() == 0,
    {
        Sps { size: 0, data: BytesMut::new() }
    }
}

impl Default for Sps {
    fn default() -> (r: Self)
        ensures
            r.size == 0,
            bytes_mut_view(r.data).len() == 0,
    {
        Self::new()
    }
}

/// A picture parameter set: one NAL unit, header byte included, no start code.
pub struct Pps {
    pub size: u16,
    pub data: BytesMut,
}

impl Pps {
    pub fn new() -> (r: Self)
        ensures
            r.size == 0,
            bytes_mut_view(r.data).len() == 0,
    {
        Pps { size: 0, data: BytesMut::new() }
    }
}

impl Default for Pps {
    fn default() -> (r: Self)
        ensures
            r.size == 0,
            bytes_mut_view(r.data).len() == 0,
    {
        Self::new()
    }
}

/// What a configuration record holds, as plain values.
pub struct RecordModel {
    pub profile: u8,
    pub compatibility: u8,
    pub level: u8,
    pub nalu_length: u8,
    pub width: u32,
    pub height: u32,
    pub nb_sps: u8,
    pub nb_pps: u8,
    pub sps: Seq<Seq<u8>>,
    pub pps: Seq<Seq<u8>>,
    pub chroma_format_idc: u8,
    pub bit_depth_luma_minus8: u8,
    pub bit_depth_chroma_minus8: u8,
}

/// Profiles whose records carry the chroma format and bit depth fields.
pub open spec fn is_extended_profile(p: u8) -> bool {
    p == 100 || p == 110 || p == 122 || p == 244 || p == 44 || p == 83 || p == 86 || p == 118
        || p == 128 || p == 138 || p == 139 || p == 134
}

/// Every payload fits a 16-bit size field.
pub open spec fn sizes_fit(ps: Seq<Seq<u8>>) -> bool {
    forall|i: int| 0 <= i < ps.len() ==> #[trigger] ps[i].len() <= 0xffff
}

/// Every payload begins with an SPS header byte.
pub open spec fn all_sps_tagged(ps: Seq<Seq<u8>>) -> bool {
    forall|i: int|
        0 <= i < ps.len() ==> #[trigger] ps[i].len() > 0 && nal_type(ps[i][0]) == H264_NAL_SPS
}

impl RecordModel {
    /// The state that every record keeps.
    pub open spec fn valid(self) -> bool {
        &&& self.nalu_length <= 4
        &&& self.nb_sps as nat <= self.sps.len() <= 31
        &&& self.nb_pps as nat <= self.pps.len() <= 255
        &&& sizes_fit(self.sps)
        &&& sizes_fit(self.pps)
    }

    /// The SPS entries that an encoding writes.
    pub open spec fn written_sps(self) -> Seq<Seq<u8>> {
        self.sps.take(self.nb_sps as int)
    }

    /// The PPS entries that an encoding writes.
    pub open spec fn written_pps(self) -> Seq<Seq<u8>> {
        self.pps.take(self.nb_pps as int)
    }
}

/// The four trailing bytes that extended profiles carry.
pub open spec fn extension_bytes(m: RecordModel) -> Seq<u8> {
    if is_extended_profile(m.profile) {
        seq![
            0xfcu8 | m.chroma_format_idc,
            0xf8u8 | m.bit_depth_luma_minus8,
            0xf8u8 | m.bit_depth_chroma_minus8,
            0u8,
        ]
    } else {
        Seq::empty()
    }
}

/// The binary layout of a configuration record.
pub open spec fn encode_record(m: RecordModel) -> Seq<u8> {
    seq![
        1u8,
        m.profile,
        m.compatibility,
        m.level,
        ((m.nalu_length - 1) as u8) | 0xfcu8,
        m.nb_sps | 0xe0u8,
    ] + entries_bytes(m.written_sps()) + seq![m.nb_pps] + entries_bytes(m.written_pps())
        + extension_bytes(m)
}

/// The record after `b` was decoded into `m0`, with the resolution `w` x `h`.
/// A list whose count is zero keeps its earlier entries.
pub open spec fn decoded_record(m0: RecordModel, b: Seq<u8>, w: u32, h: u32) -> RecordModel {
    let ss = record_layout(b)->Ok_0.0;
    let ps = record_layout(b)->Ok_0.1;
    let nb_sps = b[5] & 0x1f;
    let nb_pps = record_pps_count(b);
    RecordModel {
        profile: b[1],
        compatibility: b[2],
        level: b[3],
        nalu_length: ((b[4] & 3) + 1) as u8,
        width: w,
        height: h,
        nb_sps: nb_sps,
        nb_pps: nb_pps,
        sps: if nb_sps > 0 { ss } else { m0.sps },
        pps: if nb_pps > 0 { ps } else { m0.pps },
        chroma_format_idc: m0.chroma_format_idc,
        bit_depth_luma_minus8: m0.bit_depth_luma_minus8,
        bit_depth_chroma_minus8: m0.bit_depth_chroma_minus8,
    }
}

/// Some call of `parse` on a vector holding `payload` may return `r`.
pub open spec fn parser_gives<F: Fn(&Vec<u8>) -> Result<(u32, u32), MpegAvcError>>(
    parse: F,
    payload: Seq<u8>,
    r: Result<(u32, u32), MpegAvcError>,
) -> bool {
    exists|v: &Vec<u8>| v@ == payload && #[trigger] parse.ensures((v,), r)
}

/// A configuration record with its parameter-set store.
pub struct Mpeg4Avc {
    pub profile: u8,
    compatibility: u8,
    pub level: u8,
    nalu_length: u8,
    pub width: u32,
    pub height: u32,
    nb_sps: u8,
    nb_pps: u8,
    sps: Vec<Sps>,
    pps: Vec<Pps>,
    /// Every SPS in start-code framing.
    sps_annexb_data: BytesWriter,
    /// Every PPS in start-code framing.
    pps_annexb_data: BytesWriter,
    pub chroma_format_idc: u8,
    pub bit_depth_luma_minus8: u8,
    pub bit_depth_chroma_minus8: u8,
}

pub open spec fn sps_payloads(v: Seq<Sps>) -> Seq<Seq<u8>> {
    v.map_values(|e: Sps| bytes_mut_view(e.data))
}

pub open spec fn pps_payloads(v: Seq<Pps>) -> Seq<Seq<u8>> {
    v.map_values(|e: Pps| bytes_mut_view(e.data))
}

impl View for Mpeg4Avc {
    type V = RecordModel;

    closed spec fn view(&self) -> RecordModel {
        RecordModel {
            profile: self.profile,
            compatibility: self.compatibility,
            level: self.level,
            nalu_length: self.nalu_length,
            width: self.width,
            height: self.height,
            nb_sps: self.nb_sps,
            nb_pps: self.nb_pps,
            sps: sps_payloads(self.sps@),
            pps: pps_payloads(self.pps@),
            chroma_format_idc: self.chroma_format_idc,
            bit_depth_luma_minus8: self.bit_depth_luma_minus8,
            bit_depth_chroma_minus8: self.bit_depth_chroma_minus8,
        }
    }
}

impl Mpeg4Avc {
    /// The model is valid, each stored size matches its payload, and the
    /// start-code blobs frame the stored lists.
    pub closed spec fn wf(&self) -> bool {
        &&& self@.valid()
        &&& forall|i: int|
            0 <= i < self.sps@.len() ==> #[trigger] self.sps@[i].size as nat
                == bytes_mut_view(self.sps@[i].data).len()
        &&& forall|i: int|
            0 <= i < self.pps@.len() ==> #[trigger] self.pps@[i].size as nat
                == bytes_mut_view(self.pps@[i].data).len()
        &&& self.sps_annexb_data@ == annexb(self@.sps)
        &&& self.pps_annexb_data@ == annexb(self@.pps)
    }

    pub fn new() -> (r: Self)
        ensures
            r.wf(),
            r@ == Self::new_model(),
    {
        let r = Mpeg4Avc {
            profile: 0,
            compatibility: 0,
            level: 0,
            nalu_length: 0,
            width: 0,
            height: 0,
            nb_sps: 0,
            nb_pps: 0,
            sps: Vec::new(),
            pps: Vec::new(),
            sps_annexb_data: BytesWriter::new(),
            pps_annexb_data: BytesWriter::new(),
            chroma_format_idc: 0,
            bit_depth_luma_minus8: 0,
            bit_depth_chroma_minus8: 0,
        };
        assert(r@.sps =~= Seq::<Seq<u8>>::empty());
        assert(r@.pps =~= Seq::<Seq<u8>>::empty());
        assert(r@ == Self::new_model());
        assert(r.sps_annexb_data@ =~= annexb(r@.sps));
        assert(r.pps_annexb_data@ =~= annexb(r@.pps));
        r
    }

    pub fn compatibility(&self) -> (r: u8)
        ensures
            r == self@.compatibility,
    {
        self.compatibility
    }

    /// Bytes in each NAL length field of a reframed stream.
    pub fn nalu_length(&self) -> (r: u8)
        ensures
            r == self@.nalu_length,
    {
        self.nalu_length
    }

    pub fn nb_sps(&self) -> (r: u8)
        ensures
            r == self@.nb_sps,
    {
        self.nb_sps
    }

    pub fn nb_pps(&self) -> (r: u8)
        ensures
            r == self@.nb_pps,
    {
        self.nb_pps
    }

    /// The stored SPS entries.
    pub fn sps(&self) -> (r: &Vec<Sps>)
        requires
            self.wf(),
        ensures
            sps_payloads(r@) == self@.sps,
            forall|i: int|
                0 <= i < r@.len() ==> #[trigger] r@[i].size as nat == bytes_mut_view(
                    r@[i].data,
                ).len(),
    {
        &self.sps
    }

    /// The stored PPS entries.
    pub fn pps(&self) -> (r: &Vec<Pps>)
        requires
            self.wf(),
        ensures
            pps_payloads(r@) == self@.pps,
            forall|i: int|
                0 <= i < r@.len() ==> #[trigger] r@[i].size as nat == bytes_mut_view(
                    r@[i].data,
                ).len(),
    {
        &self.pps
    }

    /// Every stored SPS in start-code framing.
    pub fn sps_annexb_data(&self) -> (r: Vec<u8>)
        requires
            self.wf(),
        ensures
            r@ == annexb(self@.sps),
    {
        self.sps_annexb_data.get_current_bytes()
    }

    /// Every stored PPS in start-code framing.
    pub fn pps_annexb_data(&self) -> (r: Vec<u8>)
        requires
            self.wf(),
        ensures
            r@ == annexb(self@.pps),
    {
        self.pps_annexb_data.get_current_bytes()
    }
}

impl Mpeg4Avc {
    /// The record of a new processor.
    pub open spec fn new_model() -> RecordModel {
        RecordModel {
            profile: 0,
            compatibility: 0,
            level: 0,
            nalu_length: 0,
            width: 0,
            height: 0,
            nb_sps: 0,
            nb_pps: 0,
            sps: Seq::empty(),
            pps: Seq::empty(),
            chroma_format_idc: 0,
            bit_depth_luma_minus8: 0,
            bit_depth_chroma_minus8: 0,
        }
    }
}

impl Default for Mpeg4Avc {
    fn default() -> (r: Self)
        ensures
            r.wf(),
            r@ == Self::new_model(),
    {
        Self::new()
    }
}

fn read_error() -> (e: MpegAvcError)
    ensures
        e.value == MpegErrorValue::BytesReadError,
{
    MpegAvcError { value: MpegErrorValue::BytesReadError }
}

/// Appends the start code `00 00 00 01`.
fn write_start_code(w: &mut BytesWriter)
    ensures
        final(w)@ == old(w)@ + start_code(),
{
    w.write_u8(0);
    w.write_u8(0);
    w.write_u8(0);
    w.write_u8(1);
    assert(final(w)@ =~= old(w)@ + start_code());
}

/// Decodes configuration records and reframes NAL streams with what they held.
pub struct Mpeg4AvcProcessor {
    pub bytes_reader: BytesReader,
    pub bytes_writer: BytesWriter,
    pub mpeg4_avc: Mpeg4Avc,
}

impl Mpeg4AvcProcessor {
    pub open spec fn wf(&self) -> bool {
        self.bytes_reader.wf() && self.mpeg4_avc.wf()
    }

    pub fn new() -> (r: Self)
        ensures
            r.wf(),
            r.bytes_reader@.len() == 0,
            r.bytes_writer@.len() == 0,
            r.mpeg4_avc@ == Mpeg4Avc::new_model(),
    {
        let r = Mpeg4AvcProcessor {
            bytes_reader: BytesReader::new(Vec::new()),
            bytes_writer: BytesWriter::new(),
            mpeg4_avc: Mpeg4Avc::new(),
        };
        assert(r.mpeg4_avc@.sps =~= Seq::<Seq<u8>>::empty());
        assert(r.mpeg4_avc@.pps =~= Seq::<Seq<u8>>::empty());
        r
    }

    /// Appends `data` to the input.
    pub fn extend_data(&mut self, data: BytesMut) -> (r: &mut Self)
        requires
            old(self).wf(),
        ensures
            r.wf(),
            r.bytes_reader@ == old(self).bytes_reader@ + bytes_mut_view(data),
            r.bytes_writer@ == old(self).bytes_writer@,
            r.mpeg4_avc@ == old(self).mpeg4_avc@,
            *final(self) == *final(r),
    {
        self.bytes_reader.extend_from_slice(bytes_mut_as_slice(&data));
        self
    }

    /// Empties the SPS list and its start-code blob; the SPS count becomes zero.
    pub fn clear_sps_data(&mut self)
        requires
            old(self).wf(),
        ensures
            final(self).wf(),
            final(self).mpeg4_avc@ == (RecordModel {
                sps: Seq::empty(),
                nb_sps: 0,
                ..old(self).mpeg4_avc@
            }),
            final(self).bytes_reader == old(self).bytes_reader,
            final(self).bytes_writer == old(self).bytes_writer,
    {
        self.mpeg4_avc.sps.clear();
        self.mpeg4_avc.sps_annexb_data.clear();
        self.mpeg4_avc.nb_sps = 0;
        assert(self.mpeg4_avc@.sps =~= Seq::<Seq<u8>>::empty());
        assert(self.mpeg4_avc.sps_annexb_data@ =~= annexb(self.mpeg4_avc@.sps));
    }

    /// Empties the PPS list and its start-code blob; the PPS count becomes zero.
    pub fn clear_pps_data(&mut self)
        requires
            old(self).wf(),
        ensures
            final(self).wf(),
            final(self).mpeg4_avc@ == (RecordModel {
                pps: Seq::empty(),
                nb_pps: 0,
                ..old(self).mpeg4_avc@
            }),
            final(self).bytes_reader == old(self).bytes_reader,
            final(self).bytes_writer == old(self).bytes_writer,
    {
        self.mpeg4_avc.pps.clear();
        self.mpeg4_avc.pps_annexb_data.clear();
        self.mpeg4_avc.nb_pps = 0;
        assert(self.mpeg4_avc@.pps =~= Seq::<Seq<u8>>::empty());
        assert(self.mpeg4_avc.pps_annexb_data@ =~= annexb(self.mpeg4_avc@.pps));
    }

    /// Decodes the configuration record at the front of the input into the
    /// record, then discards the rest of the input. `parse` gives the
    /// resolution of an SPS (the whole NAL unit, header byte included); it
    /// runs on each SPS in turn, and the last result is kept.
    pub fn decoder_configuration_record_load<F>(&mut self, parse: F) -> (r: Result<
        &mut Self,
        MpegAvcError,
    >) where F: Fn(&Vec<u8>) -> Result<(u32, u32), MpegAvcError>
        requires
            old(self).wf(),
            forall|v: &Vec<u8>| #[trigger] parse.requires((v,)),
        ensures
            r is Err ==> final(self).wf(),
            r is Ok ==> *final(self) == *final(r->Ok_0),
            ({
                let b = old(self).bytes_reader@;
                &&& r is Ok ==> {
                    let p = *(r->Ok_0);
                    let m = p.mpeg4_avc@;
                    &&& p.wf()
                    &&& record_layout(b) is Ok
                    &&& m == decoded_record(old(self).mpeg4_avc@, b, m.width, m.height)
                    &&& p.bytes_reader@.len() == 0
                    &&& p.bytes_writer == old(self).bytes_writer
                    &&& record_layout(b)->Ok_0.0.len() > 0 ==> parser_gives(
                        parse,
                        record_layout(b)->Ok_0.0.last(),
                        Ok((m.width, m.height)),
                    )
                    &&& record_layout(b)->Ok_0.0.len() == 0 ==> m.width == old(
                        self,
                    ).mpeg4_avc@.width && m.height == old(self).mpeg4_avc@.height
                }
                &&& r is Err ==> final(self).mpeg4_avc@.sps == old(self).mpeg4_avc@.sps || (
                final(self).mpeg4_avc@.sps.len() <= record_sps_read(b).len()
                    && final(self).mpeg4_avc@.sps == record_sps_read(b).take(
                    final(self).mpeg4_avc@.sps.len() as int,
                ))
                &&& r is Err ==> (record_layout(b) is Err && r->Err_0.value == record_layout(
                    b,
                )->Err_0) || exists|i: int|
                    0 <= i < record_sps_read(b).len() && #[trigger] parser_gives(
                        parse,
                        record_sps_read(b)[i],
                        Err(r->Err_0),
                    )
            }),
    {
        let ghost b = self.bytes_reader@;
        let ghost m0 = self.mpeg4_avc@;
        let header = match self.bytes_reader.read_bytes(6) {
            Ok(h) => h,
            Err(_) => {
                return Err(read_error());
            },
        };
        self.mpeg4_avc.profile = header[1];
        self.mpeg4_avc.compatibility = header[2];
        self.mpeg4_avc.level = header[3];
        let h4 = header[4];
        assert(h4 & 3u8 <= 3u8) by (bit_vector);
        self.mpeg4_avc.nalu_length = (h4 & 0x03) + 1;
        let nb_sps = header[5] & 0x1F;
        let h5 = header[5];
        assert(h5 & 0x1fu8 <= 31u8) by (bit_vector);
        assert(header@[5] == b[5] && header@[4] == b[4]);
        if nb_sps > 0 {
            self.clear_sps_data();
        }
        self.mpeg4_avc.nb_sps = 0;
        let ghost s0 = self.bytes_reader@;
        assert(s0 == b.skip(6));
        let ghost mut done: Seq<Seq<u8>> = Seq::empty();
        assert(prepend_entries(done, walk_entries(s0, nb_sps as nat, true)) == walk_entries(
            s0,
            nb_sps as nat,
            true,
        )) by {
            match walk_entries(s0, nb_sps as nat, true) {
                Ok((es, r)) => {
                    assert(done + es =~= es);
                },
                Err(_) => {},
            }
        }
        assert(done + sps_before_fault(s0, nb_sps as nat) =~= sps_before_fault(s0, nb_sps as nat));
        assert(record_sps_read(b).take(0) =~= done);
        let mut i: u8 = 0;
        while i < nb_sps
            invariant
                self.wf(),
                i <= nb_sps <= 31,
                nb_sps == b[5] & 0x1f,
                b.len() >= 6,
                done.len() == i,
                self.mpeg4_avc@.nb_sps == 0,
                nb_sps > 0 ==> self.mpeg4_avc@.sps == done,
                nb_sps == 0 ==> self.mpeg4_avc@.sps == m0.sps,
                self.mpeg4_avc@.profile == b[1],
                self.mpeg4_avc@.compatibility == b[2],
                self.mpeg4_avc@.level == b[3],
                self.mpeg4_avc@.nalu_length == ((b[4] & 3) + 1) as u8,
                self.mpeg4_avc@.nb_pps == m0.nb_pps,
                self.mpeg4_avc@.pps == m0.pps,
                self.mpeg4_avc@.chroma_format_idc == m0.chroma_format_idc,
                self.mpeg4_avc@.bit_depth_luma_minus8 == m0.bit_depth_luma_minus8,
                self.mpeg4_avc@.bit_depth_chroma_minus8 == m0.bit_depth_chroma_minus8,
                self.bytes_writer == old(self).bytes_writer,
                walk_entries(s0, nb_sps as nat, true) == prepend_entries(
                    done,
                    walk_entries(self.bytes_reader@, (nb_sps - i) as nat, true),
                ),
                i > 0 ==> parser_gives(
                    parse,
                    done.last(),
                    Ok((self.mpeg4_avc@.width, self.mpeg4_avc@.height)),
                ),
                i == 0 ==> self.mpeg4_avc@.width == m0.width && self.mpeg4_avc@.height
                    == m0.height,
                forall|v: &Vec<u8>| #[trigger] parse.requires((v,)),
                s0 == b.skip(6),
                sps_before_fault(s0, nb_sps as nat) == done + sps_before_fault(
                    self.bytes_reader@,
                    (nb_sps - i) as nat,
                ),
                done.len() <= record_sps_read(b).len(),
                record_sps_read(b).take(done.len() as int) == done,
                b == old(self).bytes_reader@,
                m0 == old(self).mpeg4_avc@,
            decreases nb_sps - i,
        {
            let ghost cur = self.bytes_reader@;
            let size = match self.bytes_reader.read_u16_be() {
                Ok(v) => v,
                Err(_) => {
                    return Err(read_error());
                },
            };
            let data = match self.bytes_reader.read_bytes(size as usize) {
                Ok(d) => d,
                Err(_) => {
                    return Err(read_error());
                },
            };
            if data.len() == 0 {
                return Err(read_error());
            }
            if (data[0] & 0x1f) != H264_NAL_SPS {
                return Err(MpegAvcError { value: MpegErrorValue::SPSNalunitTypeNotCorrect });
            }
            proof {
                lemma_walk_step(done, cur, (nb_sps - i) as nat, true);
            }
            proof {
                let p = cur.skip(2).take(size as int);
                let next = cur.skip(2).skip(size as int);
                assert(data@ == p);
                assert(sps_before_fault(cur, (nb_sps - i) as nat) == seq![p] + sps_before_fault(
                    next,
                    (nb_sps - i - 1) as nat,
                ));
                assert(done + (seq![p] + sps_before_fault(next, (nb_sps - i - 1) as nat))
                    =~= done.push(p) + sps_before_fault(next, (nb_sps - i - 1) as nat));
                assert(record_sps_read(b)[i as int] == p);
            }
            let (w, h) = match parse(&data) {
                Ok(wh) => wh,
                Err(e) => {
                    assert(parse.ensures((&data,), Err(e)));
                    assert(parser_gives(parse, record_sps_read(b)[i as int], Err(e)));
                    return Err(e);
                },
            };
            assert(parse.ensures((&data,), Ok((w, h))));
            self.mpeg4_avc.width = w;
            self.mpeg4_avc.height = h;
            write_start_code(&mut self.mpeg4_avc.sps_annexb_data);
            self.mpeg4_avc.sps_annexb_data.write(data.as_slice());
            let ghost old_list = self.mpeg4_avc.sps@;
            self.mpeg4_avc.sps.push(Sps { size, data: bytes_mut_from_slice(data.as_slice()) });
            proof {
                let p = cur.skip(2).take(size as int);
                assert(old_list.push(self.mpeg4_avc.sps@.last()) == self.mpeg4_avc.sps@);
                assert(sps_payloads(self.mpeg4_avc.sps@) =~= sps_payloads(old_list).push(p));
                assert(done.push(p).drop_last() =~= done);
                done = done.push(p);
                assert(record_sps_read(b).take(done.len() as int) =~= done);
                assert(self.mpeg4_avc@.sps.drop_last() =~= sps_payloads(old_list));
                assert forall|k: int|
                    0 <= k < self.mpeg4_avc.sps@.len() implies #[trigger] self.mpeg4_avc.sps@[k].size as nat
                    == bytes_mut_view(self.mpeg4_avc.sps@[k].data).len() by {
                    if k < old_list.len() {
                        assert(self.mpeg4_avc.sps@[k] == old_list[k]);
                    }
                }
                assert(sizes_fit(self.mpeg4_avc@.sps)) by {
                    assert forall|k: int| 0 <= k < self.mpeg4_avc@.sps.len() implies #[trigger] self.mpeg4_avc@.sps[k].len() <= 0xffff by {
                        assert(self.mpeg4_avc@.sps[k] == bytes_mut_view(self.mpeg4_avc.sps@[k].data));
                    }
                }
            }
            i = i + 1;
        }
        assert(done + Seq::<Seq<u8>>::empty() =~= done);
        let ghost ss = done;
        assert(record_sps_read(b) == ss);
        assert(record_sps_read(b).take(ss.len() as int) =~= ss);
        let ghost after_sps = self.bytes_reader@;
        assert(walk_entries(s0, nb_sps as nat, true) == Ok::<(Seq<Seq<u8>>, Seq<u8>), MpegErrorValue>((ss, after_sps)));
        self.mpeg4_avc.nb_sps = nb_sps;
        let nb_pps = match self.bytes_reader.read_u8() {
            Ok(v) => v,
            Err(_) => {
                return Err(read_error());
            },
        };
        if nb_pps > 0 {
            self.clear_pps_data();
        }
        self.mpeg4_avc.nb_pps = 0;
        let ghost p0 = self.bytes_reader@;
        assert(p0 == after_sps.skip(1));
        let ghost mut pdone: Seq<Seq<u8>> = Seq::empty();
        assert(prepend_entries(pdone, walk_entries(p0, nb_pps as nat, false)) == walk_entries(
            p0,
            nb_pps as nat,
            false,
        )) by {
            match walk_entries(p0, nb_pps as nat, false) {
                Ok((es, r)) => {
                    assert(pdone + es =~= es);
                },
                Err(_) => {},
            }
        }
        let mut j: u8 = 0;
        while j < nb_pps
            invariant
                self.wf(),
                j <= nb_pps,
                pdone.len() == j,
                self.mpeg4_avc@.nb_pps == 0,
                nb_pps > 0 ==> self.mpeg4_avc@.pps == pdone,
                nb_pps == 0 ==> self.mpeg4_avc@.pps == m0.pps,
                self.mpeg4_avc@.nb_sps == nb_sps,
                b == old(self).bytes_reader@,
                m0 == old(self).mpeg4_avc@,
                b.len() >= 6,
                nb_sps == b[5] & 0x1f,
                s0 == b.skip(6),
                walk_entries(s0, nb_sps as nat, true) == Ok::<(Seq<Seq<u8>>, Seq<u8>), MpegErrorValue>((ss, after_sps)),
                after_sps.len() > 0,
                nb_pps == after_sps[0],
                p0 == after_sps.skip(1),
                record_sps_read(b) == ss,
                nb_sps > 0 ==> self.mpeg4_avc@.sps == ss,
                nb_sps == 0 ==> self.mpeg4_avc@.sps == m0.sps,
                self.mpeg4_avc@.profile == b[1],
                self.mpeg4_avc@.compatibility == b[2],
                self.mpeg4_avc@.level == b[3],
                self.mpeg4_avc@.nalu_length == ((b[4] & 3) + 1) as u8,
                self.mpeg4_avc@.chroma_format_idc == m0.chroma_format_idc,
                self.mpeg4_avc@.bit_depth_luma_minus8 == m0.bit_depth_luma_minus8,
                self.mpeg4_avc@.bit_depth_chroma_minus8 == m0.bit_depth_chroma_minus8,
                self.bytes_writer == old(self).bytes_writer,
                walk_entries(p0, nb_pps as nat, false) == prepend_entries(
                    pdone,
                    walk_entries(self.bytes_reader@, (nb_pps - j) as nat, false),
                ),
                ss.len() > 0 ==> parser_gives(
                    parse,
                    ss.last(),
                    Ok((self.mpeg4_avc@.width, self.mpeg4_avc@.height)),
                ),
                ss.len() == 0 ==> self.mpeg4_avc@.width == m0.width && self.mpeg4_avc@.height
                    == m0.height,
            decreases nb_pps - j,
        {
            let ghost cur = self.bytes_reader@;
            let size = match self.bytes_reader.read_u16_be() {
                Ok(v) => v,
                Err(_) => {
                    return Err(read_error());
                },
            };
            let data = match self.bytes_reader.read_bytes(size as usize) {
                Ok(d) => d,
                Err(_) => {
                    return Err(read_error());
                },
            };
            proof {
                lemma_walk_step(pdone, cur, (nb_pps - j) as nat, false);
            }
            write_start_code(&mut self.mpeg4_avc.pps_annexb_data);
            self.mpeg4_avc.pps_annexb_data.write(data.as_slice());
            let ghost old_list = self.mpeg4_avc.pps@;
            self.mpeg4_avc.pps.push(Pps { size, data: bytes_mut_from_slice(data.as_slice()) });
            proof {
                let p = cur.skip(2).take(size as int);
                assert(pps_payloads(self.mpeg4_avc.pps@) =~= pps_payloads(old_list).push(p));
                pdone = pdone.push(p);
                assert(self.mpeg4_avc@.pps.drop_last() =~= pps_payloads(old_list));
                assert forall|k: int|
                    0 <= k < self.mpeg4_avc.pps@.len() implies #[trigger] self.mpeg4_avc.pps@[k].size as nat
                    == bytes_mut_view(self.mpeg4_avc.pps@[k].data).len() by {
                    if k < old_list.len() {
                        assert(self.mpeg4_avc.pps@[k] == old_list[k]);
                    }
                }
                assert(sizes_fit(self.mpeg4_avc@.pps)) by {
                    assert forall|k: int| 0 <= k < self.mpeg4_avc@.pps.len() implies #[trigger] self.mpeg4_avc@.pps[k].len() <= 0xffff by {
                        assert(self.mpeg4_avc@.pps[k] == bytes_mut_view(self.mpeg4_avc.pps@[k].data));
                    }
                }
            }
            j = j + 1;
        }
        assert(pdone + Seq::<Seq<u8>>::empty() =~= pdone);
        self.mpeg4_avc.nb_pps = nb_pps;
        self.bytes_reader.extract_remaining_bytes();
        assert(record_layout(b) == Ok::<(Seq<Seq<u8>>, Seq<Seq<u8>>), MpegErrorValue>((ss, pdone)));
        assert(self.mpeg4_avc@ == decoded_record(m0, b, self.mpeg4_avc@.width, self.mpeg4_avc@.height));
        Ok(self)
    }

    /// Reads one NAL length field: `nalu_length` bytes, most significant first.
    pub fn get_nalu_size(&mut self) -> (r: Result<u32, MpegAvcError>)
        requires
            old(self).wf(),
        ensures
            final(self).wf(),
            final(self).mpeg4_avc == old(self).mpeg4_avc,
            final(self).bytes_writer == old(self).bytes_writer,
            ({
                let b = old(self).bytes_reader@;
                let l = old(self).mpeg4_avc@.nalu_length as int;
                &&& b.len() < l <==> r is Err
                &&& r is Err ==> r->Err_0.value == MpegErrorValue::BytesReadError
                &&& r is Ok ==> r->Ok_0 as nat == be_value(b.take(l))
                &&& r is Ok ==> final(self).bytes_reader@ == b.skip(l)
            }),
    {
        let ghost b = self.bytes_reader@;
        let l = self.mpeg4_avc.nalu_length;
        if self.bytes_reader.len() < l as usize {
            return Err(read_error());
        }
        let mut size: u32 = 0;
        let mut k: u8 = 0;
        assert(b.take(0) =~= Seq::<u8>::empty());
        while k < l
            invariant
                self.wf(),
                self.mpeg4_avc == old(self).mpeg4_avc,
                self.bytes_writer == old(self).bytes_writer,
                b == old(self).bytes_reader@,
                l == self.mpeg4_avc@.nalu_length,
                l <= 4,
                b.len() >= l,
                k <= l,
                size as nat == be_value(b.take(k as int)),
                size < pow256(k as nat),
                self.bytes_reader@ == b.skip(k as int),
            decreases l - k,
        {
            let byte = match self.bytes_reader.read_u8() {
                Ok(v) => v,
                Err(_) => {
                    return Err(read_error());
                },
            };
            proof {
                reveal_with_fuel(pow256, 5);
                assert(pow256((k + 1) as nat) <= 4294967296) by {
                    assert(k == 0 || k == 1 || k == 2 || k == 3);
                }
                let p = pow256(k as nat);
                assert(pow256((k + 1) as nat) == 256 * p);
                assert(size * 256 + byte < 256 * p) by (nonlinear_arith)
                    requires
                        size < p,
                        byte < 256,
                ;
                assert(b.take(k + 1).drop_last() =~= b.take(k as int));
                assert(self.bytes_reader@ =~= b.skip(k + 1));
            }
            size = size * 256 + byte as u32;
            k = k + 1;
        }
        Ok(size)
    }

    /// Rewrites the length-prefixed NAL units of the input into start-code
    /// framing, appended to the output. When an IDR slice comes before any
    /// SPS, PPS or other IDR slice, the stored SPS and PPS blobs are put in
    /// front of the whole output.
    pub fn h264_mp4toannexb(&mut self) -> (r: Result<(), MpegAvcError>)
        requires
            old(self).wf(),
            old(self).mpeg4_avc@.nalu_length >= 1,
        ensures
            final(self).wf(),
            final(self).mpeg4_avc == old(self).mpeg4_avc,
            ({
                let m = old(self).mpeg4_avc@;
                let walk = nal_walk(old(self).bytes_reader@, m.nalu_length as nat);
                &&& walk is None <==> r is Err
                &&& r is Err ==> r->Err_0.value == MpegErrorValue::BytesReadError
                &&& r is Ok ==> final(self).bytes_reader@.len() == 0
                &&& r is Ok ==> final(self).bytes_writer@ == (if injects(walk->Some_0) {
                    annexb(m.sps) + annexb(m.pps)
                } else {
                    Seq::empty()
                }) + old(self).bytes_writer@ + frames(walk->Some_0)
            }),
    {
        let ghost b = self.bytes_reader@;
        let ghost m = self.mpeg4_avc@;
        let ghost w0 = self.bytes_writer@;
        let ghost l = m.nalu_length as nat;
        let ghost mut done: Seq<(u8, Seq<u8>)> = Seq::empty();
        let mut sps_pps_flag = false;
        assert(prepend_units(done, nal_walk(b, l)) == nal_walk(b, l)) by {
            match nal_walk(b, l) {
                Some(u) => {
                    assert(done + u =~= u);
                },
                None => {},
            }
        }
        assert(Seq::<u8>::empty() + w0 + frames(done) =~= w0);
        while !self.bytes_reader.is_empty()
            invariant
                self.wf(),
                self.mpeg4_avc == old(self).mpeg4_avc,
                m == self.mpeg4_avc@,
                l == m.nalu_length,
                l >= 1,
                b == old(self).bytes_reader@,
                w0 == old(self).bytes_writer@,
                nal_walk(b, l) == prepend_units(done, nal_walk(self.bytes_reader@, l)),
                sps_pps_flag == any_ps_or_idr(done),
                self.bytes_writer@ == (if injects(done) {
                    annexb(m.sps) + annexb(m.pps)
                } else {
                    Seq::empty()
                }) + w0 + frames(done),
            decreases self.bytes_reader@.len(),
        {
            let ghost cur = self.bytes_reader@;
            let size = match self.get_nalu_size() {
                Ok(v) => v,
                Err(e) => {
                    return Err(e);
                },
            };
            let nalu_type = match self.bytes_reader.advance_u8() {
                Ok(v) => v & 0x1f,
                Err(_) => {
                    return Err(read_error());
                },
            };
            if nalu_type == H264_NAL_PPS || nalu_type == H264_NAL_SPS {
                sps_pps_flag = true;
            } else if nalu_type == H264_NAL_IDR {
                if !sps_pps_flag {
                    sps_pps_flag = true;
                    let pps_blob = self.mpeg4_avc.pps_annexb_data.get_current_bytes();
                    self.bytes_writer.prepend(pps_blob.as_slice());
                    let sps_blob = self.mpeg4_avc.sps_annexb_data.get_current_bytes();
                    self.bytes_writer.prepend(sps_blob.as_slice());
                    proof {
                        lemma_injects_any(done);
                        assert(self.bytes_writer@ =~= annexb(m.sps) + annexb(m.pps) + w0 + frames(done));
                    }
                }
            }
            write_start_code(&mut self.bytes_writer);
            let data = match self.bytes_reader.read_bytes(size as usize) {
                Ok(d) => d,
                Err(_) => {
                    return Err(read_error());
                },
            };
            self.bytes_writer.write(data.as_slice());
            proof {
                let rest = cur.skip(l as int);
                let unit = (nal_type(rest[0]), rest.take(size as int));
                assert(unit.1 == data@);
                match nal_walk(self.bytes_reader@, l) {
                    Some(u) => {
                        assert(done + (seq![unit] + u) =~= done.push(unit) + u);
                    },
                    None => {},
                }
                let nd = done.push(unit);
                assert(nd.drop_last() =~= done);
                assert(nd.last() == unit);
                done = nd;
                assert(self.bytes_writer@ =~= (if injects(done) {
                    annexb(m.sps) + annexb(m.pps)
                } else {
                    Seq::empty()
                }) + w0 + frames(done));
            }
        }
        assert(done + Seq::<(u8, Seq<u8>)>::empty() =~= done);
        Ok(())
    }
}

impl Default for Mpeg4AvcProcessor {
    fn default() -> (r: Self)
        ensures
            r.wf(),
            r.bytes_reader@.len() == 0,
            r.bytes_writer@.len() == 0,
            r.mpeg4_avc@ == Mpeg4Avc::new_model(),
    {
        Self::new()
    }
}

/// Encodes configuration records.
pub struct Mpeg4AvcWriter {
    pub bytes_writer: BytesWriter,
    pub mpeg4_avc: Mpeg4Avc,
}

fn is_extended_profile_exec(p: u8) -> (r: bool)
    ensures
        r == is_extended_profile(p),
{
    p == 100 || p == 110 || p == 122 || p == 244 || p == 44 || p == 83 || p == 86 || p == 118
        || p == 128 || p == 138 || p == 139 || p == 134
}

impl Mpeg4AvcWriter {
    pub fn new(mpeg4_avc: Mpeg4Avc) -> (r: Self)
        ensures
            r.bytes_writer@.len() == 0,
            r.mpeg4_avc == mpeg4_avc,
    {
        Mpeg4AvcWriter { bytes_writer: BytesWriter::new(), mpeg4_avc }
    }

    /// Appends the binary layout of the record to the output.
    pub fn decoder_configuration_record_save(&mut self) -> (r: Result<(), MpegAvcError>)
        requires
            old(self).mpeg4_avc.wf(),
            old(self).mpeg4_avc@.nalu_length >= 1,
        ensures
            r is Ok,
            final(self).mpeg4_avc == old(self).mpeg4_avc,
            final(self).bytes_writer@ == old(self).bytes_writer@ + encode_record(
                old(self).mpeg4_avc@,
            ),
    {
        let ghost m = self.mpeg4_avc@;
        let ghost w0 = self.bytes_writer@;
        self.bytes_writer.write_u8(1);
        self.bytes_writer.write_u8(self.mpeg4_avc.profile);
        self.bytes_writer.write_u8(self.mpeg4_avc.compatibility);
        self.bytes_writer.write_u8(self.mpeg4_avc.level);
        self.bytes_writer.write_u8((self.mpeg4_avc.nalu_length - 1) | 0xFC);
        self.bytes_writer.write_u8(self.mpeg4_avc.nb_sps | 0xE0);
        let ghost header = seq![
            1u8,
            m.profile,
            m.compatibility,
            m.level,
            ((m.nalu_length - 1) as u8) | 0xfcu8,
            m.nb_sps | 0xe0u8,
        ];
        assert(self.bytes_writer@ =~= w0 + header + entries_bytes(m.written_sps().take(0)));
        let mut i: usize = 0;
        while i < self.mpeg4_avc.nb_sps as usize
            invariant
                self.mpeg4_avc.wf(),
                self.mpeg4_avc == old(self).mpeg4_avc,
                m == self.mpeg4_avc@,
                i <= m.nb_sps,
                self.bytes_writer@ == w0 + header + entries_bytes(m.written_sps().take(i as int)),
            decreases m.nb_sps - i,
        {
            let e = &self.mpeg4_avc.sps[i];
            self.bytes_writer.write_u16_be(e.size);
            self.bytes_writer.write(bytes_mut_as_slice(&e.data));
            proof {
                let ws = m.written_sps();
                assert(ws[i as int] == bytes_mut_view(e.data));
                lemma_entries_push(ws.take(i as int), ws[i as int]);
                assert(ws.take(i + 1) =~= ws.take(i as int).push(ws[i as int]));
                assert(self.bytes_writer@ =~= w0 + header + entries_bytes(ws.take(i + 1)));
            }
            i = i + 1;
        }
        assert(m.written_sps().take(m.nb_sps as int) =~= m.written_sps());
        self.bytes_writer.write_u8(self.mpeg4_avc.nb_pps);
        let ghost mid = w0 + header + entries_bytes(m.written_sps()) + seq![m.nb_pps];
        assert(self.bytes_writer@ =~= mid + entries_bytes(m.written_pps().take(0)));
        let mut j: usize = 0;
        while j < self.mpeg4_avc.nb_pps as usize
            invariant
                self.mpeg4_avc.wf(),
                self.mpeg4_avc == old(self).mpeg4_avc,
                m == self.mpeg4_avc@,
                j <= m.nb_pps,
                self.bytes_writer@ == mid + entries_bytes(m.written_pps().take(j as int)),
            decreases m.nb_pps - j,
        {
            let e = &self.mpeg4_avc.pps[j];
            self.bytes_writer.write_u16_be(e.size);
            self.bytes_writer.write(bytes_mut_as_slice(&e.data));
            proof {
                let wp = m.written_pps();
                assert(wp[j as int] == bytes_mut_view(e.data));
                lemma_entries_push(wp.take(j as int), wp[j as int]);
                assert(wp.take(j + 1) =~= wp.take(j as int).push(wp[j as int]));
                assert(self.bytes_writer@ =~= mid + entries_bytes(wp.take(j + 1)));
            }
            j = j + 1;
        }
        assert(m.written_pps().take(m.nb_pps as int) =~= m.written_pps());
        if is_extended_profile_exec(self.mpeg4_avc.profile) {
            self.bytes_writer.write_u8(0xFC | self.mpeg4_avc.chroma_format_idc);
            self.bytes_writer.write_u8(0xF8 | self.mpeg4_avc.bit_depth_luma_minus8);
            self.bytes_writer.write_u8(0xF8 | self.mpeg4_avc.bit_depth_chroma_minus8);
            self.bytes_writer.write_u8(0);
        }
        assert(self.bytes_writer@ =~= w0 + encode_record(m));
        Ok(())
    }
}

/// The lists and the header bytes that a read of an encoding finds.
proof fn lemma_layout_of_encoding(m: RecordModel)
    requires
        m.valid(),
        m.nalu_length >= 1,
        all_sps_tagged(m.written_sps()),
    ensures
        record_layout(encode_record(m)) == Ok::<(Seq<Seq<u8>>, Seq<Seq<u8>>), MpegErrorValue>(
            (m.written_sps(), m.written_pps()),
        ),
        record_pps_count(encode_record(m)) == m.nb_pps,
        encode_record(m).len() >= 6,
        encode_record(m)[1] == m.profile,
        encode_record(m)[2] == m.compatibility,
        encode_record(m)[3] == m.level,
        ((encode_record(m)[4] & 3) + 1) as u8 == m.nalu_length,
        encode_record(m)[5] & 0x1f == m.nb_sps,
{
    let b = encode_record(m);
    let ws = m.written_sps();
    let wp = m.written_pps();
    let ext = extension_bytes(m);
    let nl = m.nalu_length;
    let ns = m.nb_sps;
    assert(((((nl - 1) as u8) | 0xfcu8) & 3u8) + 1 == nl) by (bit_vector)
        requires
            1 <= nl <= 4,
    ;
    assert((ns | 0xe0u8) & 0x1fu8 == ns) by (bit_vector)
        requires
            ns <= 31,
    ;
    let hdr = seq![
        1u8,
        m.profile,
        m.compatibility,
        m.level,
        ((nl - 1) as u8) | 0xfcu8,
        ns | 0xe0u8,
    ];
    let tail = seq![m.nb_pps] + entries_bytes(wp) + ext;
    assert(b =~= hdr + (entries_bytes(ws) + tail));
    assert(b.skip(6) =~= entries_bytes(ws) + tail);
    assert(b[4] == hdr[4] && b[5] == hdr[5]);
    assert forall|i: int| 0 <= i < ws.len() implies #[trigger] ws[i].len() <= 0xffff by {
        assert(ws[i] == m.sps[i]);
    }
    assert forall|i: int| 0 <= i < wp.len() implies #[trigger] wp[i].len() <= 0xffff by {
        assert(wp[i] == m.pps[i]);
    }
    assert(ws.len() == ns);
    assert(wp.len() == m.nb_pps);
    lemma_walk_entries_bytes(ws, tail, true);
    lemma_walk_entries_bytes(wp, ext, false);
    assert(tail[0] == m.nb_pps);
    assert(tail.skip(1) =~= entries_bytes(wp) + ext);
}

/// Encoding a valid record and decoding the bytes gives back its profile,
/// compatibility, level, NAL length size, both counts and the written SPS and
/// PPS entries byte for byte; the decoded SPS list, whose last entry sets the
/// resolution, is the encoded one.
pub proof fn lemma_round_trip(m: RecordModel, m0: RecordModel, w: u32, h: u32)
    requires
        m.valid(),
        m.nalu_length >= 1,
        all_sps_tagged(m.written_sps()),
    ensures
        record_layout(encode_record(m)) == Ok::<(Seq<Seq<u8>>, Seq<Seq<u8>>), MpegErrorValue>(
            (m.written_sps(), m.written_pps()),
        ),
        ({
            let d = decoded_record(m0, encode_record(m), w, h);
            &&& d.profile == m.profile
            &&& d.compatibility == m.compatibility
            &&& d.level == m.level
            &&& d.nalu_length == m.nalu_length
            &&& d.nb_sps == m.nb_sps
            &&& d.nb_pps == m.nb_pps
            &&& d.written_sps() == m.written_sps()
            &&& d.written_pps() == m.written_pps()
            &&& d.width == w && d.height == h
        }),
{
    lemma_layout_of_encoding(m);
    let ws = m.written_sps();
    let wp = m.written_pps();
    let d = decoded_record(m0, encode_record(m), w, h);
    assert(ws.take(m.nb_sps as int) =~= ws);
    assert(wp.take(m.nb_pps as int) =~= wp);
    assert(d.written_sps() =~= ws);
    assert(d.written_pps() =~= wp);
}

/// An encoding ends with four extension bytes after the PPS list exactly when
/// the profile is an extended one, and with the PPS list otherwise.
pub proof fn lemma_extension_emission(m: RecordModel)
    ensures
        ({
            let before_ext = 7 + entries_bytes(m.written_sps()).len() + entries_bytes(
                m.written_pps(),
            ).len();
            &&& is_extended_profile(m.profile) ==> encode_record(m).len() == before_ext + 4
            &&& !is_extended_profile(m.profile) ==> encode_record(m).len() == before_ext
        }),
{
}

} // verus!
