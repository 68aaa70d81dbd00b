//! NAL unit types and the byte layouts shared by the decoder, the encoder
//! and the reframer, stated as spec functions.
use vstd::prelude::*;
use crate::bytes_io::be_value;
use crate::errors::MpegErrorValue;

verus! {

pub const H264_NAL_IDR: u8 = 5;

pub const H264_NAL_SPS: u8 = 7;

pub const H264_NAL_PPS: u8 = 8;

pub open spec fn start_code() -> Seq<u8> {
    seq![0u8, 0u8, 0u8, 1u8]
}

/// Start-code framing of a list of NAL units: each one preceded by `00 00 00 01`.
pub open spec fn annexb(units: Seq<Seq<u8>>) -> Seq<u8>
    decreases units.len(),
{
    if units.len() == 0 {
        Seq::empty()
    } else {
        annexb(units.drop_last()) + start_code() + units.last()
    }
}

/// Two bytes holding `v` most significant first.
pub open spec fn be16_bytes(v: nat) -> Seq<u8> {
    seq![(v / 256) as u8, (v % 256) as u8]
}

/// Entries of a configuration record: a 16-bit big-endian size, then the payload.
pub open spec fn entries_bytes(ps: Seq<Seq<u8>>) -> Seq<u8>
    decreases ps.len(),
{
    if ps.len() == 0 {
        Seq::empty()
    } else {
        be16_bytes(ps[0].len()) + ps[0] + entries_bytes(ps.drop_first())
    }
}

/// The NAL type tag held in the low five bits of a NAL header byte.
pub open spec fn nal_type(b: u8) -> u8 {
    b & 0x1f
}

/// Reads `n` size-prefixed entries from the front of `s`, left to right.
/// With `check_sps`, each payload must also begin with an SPS header byte.
/// Gives the payloads and the bytes after them, or the first fault met.
pub open spec fn walk_entries(s: Seq<u8>, n: nat, check_sps: bool) -> Result<
    (Seq<Seq<u8>>, Seq<u8>),
    MpegErrorValue,
>
    decreases n,
{
    if n == 0 {
        Ok((Seq::empty(), s))
    } else if s.len() < 2 {
        Err(MpegErrorValue::BytesReadError)
    } else {
        let size = be_value(s.take(2));
        let rest = s.skip(2);
        if rest.len() < size {
            Err(MpegErrorValue::BytesReadError)
        } else {
            let p = rest.take(size as int);
            if check_sps && p.len() == 0 {
                Err(MpegErrorValue::BytesReadError)
            } else if check_sps && nal_type(p[0]) != H264_NAL_SPS {
                Err(MpegErrorValue::SPSNalunitTypeNotCorrect)
            } else {
                match walk_entries(rest.skip(size as int), (n - 1) as nat, check_sps) {
                    Ok((es, r)) => Ok((seq![p] + es, r)),
                    Err(e) => Err(e),
                }
            }
        }
    }
}

/// The SPS payloads that a left-to-right read of `n` entries from `s` takes
/// in before its first fault (all of them when there is none).
pub open spec fn sps_before_fault(s: Seq<u8>, n: nat) -> Seq<Seq<u8>>
    decreases n,
{
    if n == 0 || s.len() < 2 {
        Seq::empty()
    } else {
        let size = be_value(s.take(2));
        let rest = s.skip(2);
        if rest.len() < size {
            Seq::empty()
        } else {
            let p = rest.take(size as int);
            if p.len() == 0 || nal_type(p[0]) != H264_NAL_SPS {
                Seq::empty()
            } else {
                seq![p] + sps_before_fault(rest.skip(size as int), (n - 1) as nat)
            }
        }
    }
}

/// The SPS payloads of the record in `b` that pass the layout checks before
/// its first fault: those that a decode hands to the resolution parser.
pub open spec fn record_sps_read(b: Seq<u8>) -> Seq<Seq<u8>> {
    if b.len() < 6 {
        Seq::empty()
    } else {
        sps_before_fault(b.skip(6), (b[5] & 0x1f) as nat)
    }
}

/// The parameter-set lists of a configuration record held in `b`, or the
/// fault that stops a left-to-right read of it. Bytes after the PPS list are
/// not looked at.
pub open spec fn record_layout(b: Seq<u8>) -> Result<(Seq<Seq<u8>>, Seq<Seq<u8>>), MpegErrorValue> {
    if b.len() < 6 {
        Err(MpegErrorValue::BytesReadError)
    } else {
        match walk_entries(b.skip(6), (b[5] & 0x1f) as nat, true) {
            Err(e) => Err(e),
            Ok((ss, r)) => if r.len() == 0 {
                Err(MpegErrorValue::BytesReadError)
            } else {
                match walk_entries(r.skip(1), r[0] as nat, false) {
                    Err(e) => Err(e),
                    Ok((ps, _)) => Ok((ss, ps)),
                }
            },
        }
    }
}

/// The count of PPS entries that a well-laid-out record `b` declares.
pub open spec fn record_pps_count(b: Seq<u8>) -> u8 {
    match walk_entries(b.skip(6), (b[5] & 0x1f) as nat, true) {
        Ok((_, r)) => r[0],
        Err(_) => 0,
    }
}

/// Splits a length-prefixed NAL stream into (type, payload) pairs, where the
/// type is read from the byte after each length field. `None` when a length
/// field, the type byte or a payload runs past the end.
pub open spec fn nal_walk(s: Seq<u8>, l: nat) -> Option<Seq<(u8, Seq<u8>)>>
    decreases s.len(),
{
    if s.len() == 0 {
        Some(Seq::empty())
    } else if l == 0 || s.len() < l {
        None
    } else {
        let size = be_value(s.take(l as int));
        let rest = s.skip(l as int);
        if rest.len() == 0 || rest.len() < size {
            None
        } else {
            match nal_walk(rest.skip(size as int), l) {
                Some(u) => Some(seq![(nal_type(rest[0]), rest.take(size as int))] + u),
                None => None,
            }
        }
    }
}

/// Start-code framing of the payloads of `units`.
pub open spec fn frames(units: Seq<(u8, Seq<u8>)>) -> Seq<u8>
    decreases units.len(),
{
    if units.len() == 0 {
        Seq::empty()
    } else {
        frames(units.drop_last()) + start_code() + units.last().1
    }
}

pub open spec fn is_ps_or_idr(t: u8) -> bool {
    t == H264_NAL_SPS || t == H264_NAL_PPS || t == H264_NAL_IDR
}

/// Some unit of `units` is an SPS, a PPS or an IDR slice.
pub open spec fn any_ps_or_idr(units: Seq<(u8, Seq<u8>)>) -> bool
    decreases units.len(),
{
    if units.len() == 0 {
        false
    } else {
        any_ps_or_idr(units.drop_last()) || is_ps_or_idr(units.last().0)
    }
}

/// The first unit of `units` that is an SPS, a PPS or an IDR slice is an IDR
/// slice: stored parameter sets must then be put in front of the output.
pub open spec fn injects(units: Seq<(u8, Seq<u8>)>) -> bool
    decreases units.len(),
{
    if units.len() == 0 {
        false
    } else {
        injects(units.drop_last()) || (units.last().0 == H264_NAL_IDR && !any_ps_or_idr(
            units.drop_last(),
        ))
    }
}

/// `done` followed by what `r` read, when it read without fault.
pub open spec fn prepend_entries(
    done: Seq<Seq<u8>>,
    r: Result<(Seq<Seq<u8>>, Seq<u8>), MpegErrorValue>,
) -> Result<(Seq<Seq<u8>>, Seq<u8>), MpegErrorValue> {
    match r {
        Ok((es, rest)) => Ok((done + es, rest)),
        Err(e) => Err(e),
    }
}

/// `done` followed by the units that `r` holds.
pub open spec fn prepend_units(
    done: Seq<(u8, Seq<u8>)>,
    r: Option<Seq<(u8, Seq<u8>)>>,
) -> Option<Seq<(u8, Seq<u8>)>> {
    match r {
        Some(u) => Some(done + u),
        None => None,
    }
}

/// Powers of 256.
pub open spec fn pow256(k: nat) -> nat
    decreases k,
{
    if k == 0 {
        1
    } else {
        256 * pow256((k - 1) as nat)
    }
}

/// One entry read off the front of `s` moves it from the unread rest to `done`.
pub proof fn lemma_walk_step(done: Seq<Seq<u8>>, s: Seq<u8>, n: nat, check_sps: bool)
    requires
        n > 0,
        s.len() >= 2,
        s.skip(2).len() >= be_value(s.take(2)),
        check_sps ==> s.skip(2).take(be_value(s.take(2)) as int).len() > 0 && nal_type(
            s.skip(2).take(be_value(s.take(2)) as int)[0],
        ) == H264_NAL_SPS,
    ensures
        ({
            let size = be_value(s.take(2)) as int;
            let p = s.skip(2).take(size);
            prepend_entries(done, walk_entries(s, n, check_sps)) == prepend_entries(
                done.push(p),
                walk_entries(s.skip(2).skip(size), (n - 1) as nat, check_sps),
            )
        }),
{
    let size = be_value(s.take(2)) as int;
    let p = s.skip(2).take(size);
    match walk_entries(s.skip(2).skip(size), (n - 1) as nat, check_sps) {
        Ok((es, r)) => {
            assert(done + (seq![p] + es) =~= done.push(p) + es);
        },
        Err(_) => {},
    }
}

/// A stream that puts parameter sets in front holds an SPS, a PPS or an IDR slice.
pub proof fn lemma_injects_any(units: Seq<(u8, Seq<u8>)>)
    ensures
        injects(units) ==> any_ps_or_idr(units),
    decreases units.len(),
{
    if units.len() > 0 {
        lemma_injects_any(units.drop_last());
    }
}

/// Two bytes most significant first give back the value they were made from.
pub proof fn lemma_be16(v: nat)
    requires
        v <= 0xffff,
    ensures
        be_value(be16_bytes(v)) == v,
{
    let s = be16_bytes(v);
    assert(s.drop_last().drop_last() =~= Seq::<u8>::empty());
    assert(s.drop_last() =~= seq![(v / 256) as u8]);
    reveal_with_fuel(be_value, 3);
    assert((v / 256) * 256 + v % 256 == v);
}

/// Entries encoded and followed by `t` read back as the same entries, leaving `t`.
pub proof fn lemma_walk_entries_bytes(ps: Seq<Seq<u8>>, t: Seq<u8>, check_sps: bool)
    requires
        forall|i: int| 0 <= i < ps.len() ==> #[trigger] ps[i].len() <= 0xffff,
        check_sps ==> forall|i: int|
            0 <= i < ps.len() ==> #[trigger] ps[i].len() > 0 && nal_type(ps[i][0])
                == H264_NAL_SPS,
    ensures
        walk_entries(entries_bytes(ps) + t, ps.len(), check_sps) == Ok::<
            (Seq<Seq<u8>>, Seq<u8>),
            MpegErrorValue,
        >((ps, t)),
    decreases ps.len(),
{
    if ps.len() == 0 {
        assert(entries_bytes(ps) + t =~= t);
        assert(ps =~= Seq::<Seq<u8>>::empty());
    } else {
        let p0 = ps[0];
        let tail = ps.drop_first();
        assert forall|i: int| 0 <= i < tail.len() implies #[trigger] tail[i].len() <= 0xffff by {
            assert(tail[i] == ps[i + 1]);
        }
        if check_sps {
            assert forall|i: int| 0 <= i < tail.len() implies #[trigger] tail[i].len() > 0
                && nal_type(tail[i][0]) == H264_NAL_SPS by {
                assert(tail[i] == ps[i + 1]);
            }
        }
        lemma_walk_entries_bytes(tail, t, check_sps);
        let s = entries_bytes(ps) + t;
        let rest_t = entries_bytes(tail) + t;
        assert(s =~= be16_bytes(p0.len()) + (p0 + rest_t));
        assert(s.take(2) =~= be16_bytes(p0.len()));
        lemma_be16(p0.len());
        assert(s.skip(2) =~= p0 + rest_t);
        assert(s.skip(2).take(p0.len() as int) =~= p0);
        assert(s.skip(2).skip(p0.len() as int) =~= rest_t);
        assert(seq![p0] + tail =~= ps);
        assert(p0.len() <= 0xffff);
        if check_sps {
            assert(p0.len() > 0 && nal_type(p0[0]) == H264_NAL_SPS);
        }
        assert((ps.len() - 1) as nat == tail.len());
    }
}

/// Encoding one more entry appends its size field and payload.
pub proof fn lemma_entries_push(ps: Seq<Seq<u8>>, p: Seq<u8>)
    ensures
        entries_bytes(ps.push(p)) == entries_bytes(ps) + be16_bytes(p.len()) + p,
    decreases ps.len(),
{
    if ps.len() == 0 {
        assert(ps.push(p).drop_first() =~= Seq::<Seq<u8>>::empty());
        assert(ps.push(p)[0] == p);
        assert(entries_bytes(Seq::<Seq<u8>>::empty()) == Seq::<u8>::empty());
        assert(entries_bytes(ps) == Seq::<u8>::empty());
        assert(entries_bytes(ps.push(p)) =~= entries_bytes(ps) + be16_bytes(p.len()) + p);
    } else {
        lemma_entries_push(ps.drop_first(), p);
        assert(ps.push(p).drop_first() =~= ps.drop_first().push(p));
        assert(ps.push(p)[0] == ps[0]);
        assert(entries_bytes(ps.push(p)) =~= entries_bytes(ps) + be16_bytes(p.len()) + p);
    }
}

/// A list whose first unit is an SPS, a PPS or an IDR slice holds one.
proof fn lemma_any_when_first(units: Seq<(u8, Seq<u8>)>)
    requires
        units.len() > 0,
        is_ps_or_idr(units[0].0),
    ensures
        any_ps_or_idr(units),
    decreases units.len(),
{
    if units.len() > 1 {
        assert(units.drop_last()[0] == units[0]);
        lemma_any_when_first(units.drop_last());
    } else {
        assert(units.drop_last().len() == 0);
        assert(!injects(units.drop_last()));
        assert(units.last() == units[0]);
    }
}

/// A stream that begins with its own SPS or PPS never gets the stored
/// parameter sets put in front: with the reframer's contract, its output is
/// each of its units once, in order, after what was already written.
pub proof fn lemma_no_injection_after_own_parameter_set(units: Seq<(u8, Seq<u8>)>)
    requires
        units.len() > 0,
        units[0].0 == H264_NAL_SPS || units[0].0 == H264_NAL_PPS,
    ensures
        !injects(units),
    decreases units.len(),
{
    if units.len() > 1 {
        assert(units.drop_last()[0] == units[0]);
        lemma_no_injection_after_own_parameter_set(units.drop_last());
        lemma_any_when_first(units.drop_last());
    } else {
        assert(units.drop_last().len() == 0);
        assert(!injects(units.drop_last()));
        assert(units.last() == units[0]);
    }
}

/// A stream that begins with an IDR slice gets the stored parameter sets put
/// in front: with the reframer's contract, its output is the SPS blob, then
/// the PPS blob, then what was already written, then its units.
pub proof fn lemma_injection_before_leading_idr(units: Seq<(u8, Seq<u8>)>)
    requires
        units.len() > 0,
        units[0].0 == H264_NAL_IDR,
    ensures
        injects(units),
    decreases units.len(),
{
    if units.len() > 1 {
        assert(units.drop_last()[0] == units[0]);
        lemma_injection_before_leading_idr(units.drop_last());
    } else {
        assert(units.drop_last().len() == 0);
    }
}

} // verus!
