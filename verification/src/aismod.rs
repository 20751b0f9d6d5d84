//! Decoding of AIS sentences: NMEA framing, checksum validation,
//! six-bit armor removal and message dispatch.
//!
//! A sentence is one trimmed text line, handed in as bytes. Lines opening
//! with `!` carry an AIS payload and are fully decoded; lines opening with
//! `$` are other NMEA traffic and yield [`Ais::AisUnknown`]; anything else
//! is rejected. Only single-fragment sentences are decoded; class-A
//! position reports (types 1-3) and base-station reports (type 4) produce
//! typed reports, all other types yield [`Ais::AisUnknown`].

use vstd::prelude::*;

verus! {

use vstd::string::StringSliceAdditionalSpecFns;
use vstd::arithmetic::power2::lemma2_to64;
use vstd::arithmetic::power2::lemma_pow2_strictly_increases;
use crate::bits::extract_spec;
use crate::bits::coord_spec;
use crate::bits::extractbit;
use crate::bits::extract_coord;
use crate::bits::lemma_extract_bound;

/// A decoded report. Coordinates are the raw signed wire values in units
/// of 1/600000 degree; speed over ground is in tenths of knots and course
/// over ground in tenths of degrees, exactly as transmitted.
#[derive(Clone, Copy, PartialEq, Eq, Structural, Debug)]
pub enum Ais {
    /// Class-A position report (message types 1-3).
    Ais1 { mmsi: u32, lon_raw: i32, lat_raw: i32, sog_raw: u32, cog_raw: u32 },
    /// Base-station report (message type 4).
    Ais4 { mmsi: u32, lon_raw: i32, lat_raw: i32 },
    /// Anything that is valid but not decoded: `$` sentences,
    /// multi-fragment sentences, unsupported message types.
    AisUnknown,
}

/// The structural parse errors; all are non-fatal to the caller.
#[derive(Clone, Copy, PartialEq, Eq, Structural, Debug)]
pub enum AisError {
    /// The line opens with neither `!` nor `$` (or is empty).
    NotRecognized,
    /// Fewer than seven comma-separated fields.
    MissingField,
    /// The checksum field has fewer than four characters.
    ChecksumTooShort,
    /// The transmitted checksum does not match the recomputed one.
    ChecksumMismatch,
    /// A payload character outside both armor ranges.
    SixBit,
    /// The payload is too short, or has the wrong length for its type.
    MsgLen,
}

/// Index of the first comma, or the length when there is none.
pub open spec fn first_comma(s: Seq<u8>) -> nat
    decreases s.len(),
{
    if s.len() == 0 {
        0
    } else if s[0] == 44u8 {
        0
    } else {
        (1 + first_comma(s.skip(1))) as nat
    }
}

/// The comma-separated fields of `s`, in order. Always at least one.
pub open spec fn split_at_commas(s: Seq<u8>) -> Seq<Seq<u8>>
    decreases s.len(),
{
    let i = first_comma(s);
    if i >= s.len() {
        seq![s]
    } else {
        seq![s.take(i as int)] + split_at_commas(s.skip(i as int + 1))
    }
}

proof fn lemma_split_nonempty(s: Seq<u8>)
    ensures
        split_at_commas(s).len() >= 1,
{
    let i = first_comma(s);
    if i >= s.len() {
    } else {
    }
}

/// A scan that saw no comma before position `j`, and a comma (or the end)
/// at `j`, has found the first comma.
proof fn lemma_first_comma_at(s: Seq<u8>, j: nat)
    requires
        j <= s.len(),
        forall|t: int| 0 <= t < j ==> s[t] != 44u8,
        j == s.len() || s[j as int] == 44u8,
    ensures
        first_comma(s) == j,
    decreases j,
{
    if j == 0 {
    } else {
        assert(s[0] != 44u8);
        assert forall|t: int| 0 <= t < j - 1 implies s.skip(1)[t] != 44u8 by {
            assert(s.skip(1)[t] == s[t + 1]);
        }
        lemma_first_comma_at(s.skip(1), (j - 1) as nat);
    }
}

/// The running exclusive-or of all bytes, the NMEA checksum.
pub open spec fn xor_seq(s: Seq<u8>) -> u8
    decreases s.len(),
{
    if s.len() == 0 {
        0
    } else {
        xor_seq(s.drop_last()) ^ s.last()
    }
}

/// Uppercase hexadecimal digit for a value below sixteen.
pub open spec fn hex_char(v: u8) -> u8 {
    if v < 10 {
        (0x30 + v) as u8
    } else {
        (0x37 + v) as u8
    }
}

/// The checksum a `!` line declares for itself: the exclusive-or of every
/// byte strictly between the leading `!` and the trailing `*`.
pub open spec fn line_checksum(b: Seq<u8>) -> u8 {
    xor_seq(b.subrange(1, b.len() - 3))
}

/// The transmitted checksum (characters 3-4 of the checksum field,
/// uppercase, case-sensitive) matches the recomputed one.
pub open spec fn checksum_ok(b: Seq<u8>, chk: Seq<u8>) -> bool {
    chk[2] == hex_char(line_checksum(b) / 16) && chk[3] == hex_char(line_checksum(b) % 16)
}

/// A byte lies in one of the two six-bit armor ranges.
pub open spec fn is_armor(c: u8) -> bool {
    (0x30 <= c && c <= 0x57) || (0x60 <= c && c <= 0x77)
}

/// The six-bit value of an armored character.
pub open spec fn unarmor(c: u8) -> u8 {
    if c < 0x60 {
        (c - 0x30) as u8
    } else {
        (c - 0x38) as u8
    }
}

/// Every payload character is a valid armored character.
pub open spec fn payload_ok(p: Seq<u8>) -> bool {
    forall|i: int| 0 <= i < p.len() ==> is_armor(#[trigger] p[i])
}

/// The un-armored payload: one six-bit value per character.
pub open spec fn unarmored(p: Seq<u8>) -> Seq<u8> {
    p.map_values(|c: u8| unarmor(c))
}

/// What decoding the armored payload `p` of a single-fragment sentence
/// yields.
pub open spec fn decode_payload(p: Seq<u8>) -> Result<Ais, AisError> {
    if !payload_ok(p) {
        Err(AisError::SixBit)
    } else {
        let m = unarmored(p);
        if m.len() <= 6 {
            Err(AisError::MsgLen)
        } else {
            let mmsi = extract_spec(m, 8, 30) as u32;
            let t = p[0];
            if 0x31 <= t && t <= 0x33 {
                if m.len() != 28 {
                    Err(AisError::MsgLen)
                } else {
                    Ok(Ais::Ais1 {
                        mmsi,
                        lon_raw: coord_spec(m, 61, 28) as i32,
                        lat_raw: coord_spec(m, 89, 27) as i32,
                        sog_raw: extract_spec(m, 50, 10) as u32,
                        cog_raw: extract_spec(m, 116, 12) as u32,
                    })
                }
            } else if t == 0x34 {
                if m.len() != 28 {
                    Err(AisError::MsgLen)
                } else {
                    Ok(Ais::Ais4 {
                        mmsi,
                        lon_raw: coord_spec(m, 79, 28) as i32,
                        lat_raw: coord_spec(m, 107, 27) as i32,
                    })
                }
            } else {
                Ok(Ais::AisUnknown)
            }
        }
    }
}

/// What decoding one line yields: the checks in the order the decoder
/// makes them.
pub open spec fn decode_spec(b: Seq<u8>) -> Result<Ais, AisError> {
    if b.len() == 0 {
        Err(AisError::NotRecognized)
    } else if b[0] == 0x24u8 {
        Ok(Ais::AisUnknown)
    } else if b[0] != 0x21u8 {
        Err(AisError::NotRecognized)
    } else {
        let f = split_at_commas(b);
        if f.len() < 7 {
            Err(AisError::MissingField)
        } else if f[6].len() < 4 {
            Err(AisError::ChecksumTooShort)
        } else if !checksum_ok(b, f[6]) {
            Err(AisError::ChecksumMismatch)
        } else if f[1] != seq![0x31u8] {
            Ok(Ais::AisUnknown)
        } else {
            decode_payload(f[5])
        }
    }
}

/// Scans for the next comma at or after `from`.
fn find_comma(b: &[u8], from: usize) -> (end: usize)
    requires
        from <= b@.len(),
    ensures
        from <= end <= b@.len(),
        forall|t: int| from <= t < end ==> b@[t] != 44u8,
        end == b@.len() || b@[end as int] == 44u8,
        first_comma(b@.skip(from as int)) == end - from,
{
    let mut i = from;
    while i < b.len()
        invariant
            from <= i <= b@.len(),
            forall|t: int| from <= t < i ==> b@[t] != 44u8,
        decreases b@.len() - i,
    {
        if b[i] == 44 {
            proof {
                assert forall|t: int| 0 <= t < i - from implies b@.skip(from as int)[t] != 44u8 by {
                    assert(b@.skip(from as int)[t] == b@[t + from]);
                }
                lemma_first_comma_at(b@.skip(from as int), (i - from) as nat);
            }
            return i;
        }
        i = i + 1;
    }
    proof {
        assert forall|t: int| 0 <= t < i - from implies b@.skip(from as int)[t] != 44u8 by {
            assert(b@.skip(from as int)[t] == b@[t + from]);
        }
        lemma_first_comma_at(b@.skip(from as int), (i - from) as nat);
    }
    i
}

/// The fields that a sequence of index ranges selects from `b`.
spec fn ranges_to_seqs(b: Seq<u8>, rs: Seq<(usize, usize)>) -> Seq<Seq<u8>> {
    rs.map_values(|r: (usize, usize)| b.subrange(r.0 as int, r.1 as int))
}

/// The running exclusive-or of all bytes of `data`.
pub fn nmea_checksum(data: &[u8]) -> (r: u8)
    ensures
        r == xor_seq(data@),
{
    let mut cs: u8 = 0;
    let mut i: usize = 0;
    proof {
        assert(data@.subrange(0, 0) =~= Seq::<u8>::empty());
    }
    while i < data.len()
        invariant
            0 <= i <= data@.len(),
            cs == xor_seq(data@.subrange(0, i as int)),
        decreases data@.len() - i,
    {
        cs = cs ^ data[i];
        proof {
            assert(data@.subrange(0, i + 1).drop_last() =~= data@.subrange(0, i as int));
            assert(data@.subrange(0, i + 1).last() == data@[i as int]);
        }
        i = i + 1;
    }
    proof {
        assert(data@.subrange(0, data@.len() as int) =~= data@);
    }
    cs
}

/// Decodes one trimmed line. Returns the typed report, or the structural
/// parse error, exactly as [`decode_spec`] describes for the line's bytes.
pub fn ais_decoder(ais: &str) -> (r: Result<Ais, AisError>)
    ensures
        r == decode_spec(ais.spec_bytes()),
{
    decode_line(ais.as_bytes())
}

/// Decodes one trimmed line given as bytes; see [`decode_spec`].
#[verifier::loop_isolation(false)]
#[verifier::rlimit(60)]
pub fn decode_line(ais: &[u8]) -> (r: Result<Ais, AisError>)
    ensures
        r == decode_spec(ais@),
{
    let ghost b = ais@;
    if ais.len() == 0 {
        return Err(AisError::NotRecognized);
    }
    let lead = ais[0];
    if lead == 0x24 {
        return Ok(Ais::AisUnknown);
    }
    if lead != 0x21 {
        return Err(AisError::NotRecognized);
    }

    // Scan the first six fields; each must end at a comma.
    let mut fs: Vec<(usize, usize)> = Vec::new();
    let mut pos: usize = 0;
    let mut k: usize = 0;
    proof {
        assert(fs@ =~= Seq::<(usize, usize)>::empty());
        assert(b.skip(0) =~= b);
        assert(ranges_to_seqs(b, fs@) =~~= Seq::<Seq<u8>>::empty());
        assert(split_at_commas(b) =~~= ranges_to_seqs(b, fs@) + split_at_commas(b.skip(0)));
    }
    while k < 6
        invariant
            b == ais@,
            b.len() > 0,
            b[0] == 0x21u8,
            k == fs@.len(),
            k <= 6,
            pos <= b.len(),
            k >= 1 ==> pos >= k + 1,
            split_at_commas(b) == ranges_to_seqs(b, fs@) + split_at_commas(b.skip(pos as int)),
            forall|j: int|
                0 <= j < k ==> ((#[trigger] fs@[j]).0 <= fs@[j].1 && fs@[j].1 <= b.len()),
        decreases 6 - k,
    {
        let ghost fs0 = fs@;
        let end = find_comma(ais, pos);
        let ghost rest = b.skip(pos as int);
        if end == ais.len() {
            proof {
                assert(first_comma(rest) == rest.len());
                assert(split_at_commas(rest) == seq![rest]);
                assert(split_at_commas(b).len() == k + 1);
            }
            return Err(AisError::MissingField);
        }
        fs.push((pos, end));
        proof {
            assert(first_comma(rest) == end - pos);
            assert(((end - pos) as int) < rest.len());
            assert(split_at_commas(rest) == seq![rest.take((end - pos) as int)]
                + split_at_commas(rest.skip((end - pos) as int + 1)));
            assert(rest.take((end - pos) as int) =~= b.subrange(pos as int, end as int));
            assert(rest.skip((end - pos) as int + 1) =~= b.skip(end as int + 1));
            assert(ranges_to_seqs(b, fs@) =~~= ranges_to_seqs(b, fs0)
                + seq![b.subrange(pos as int, end as int)]);
            assert(split_at_commas(b) =~~= ranges_to_seqs(b, fs@)
                + split_at_commas(b.skip(end as int + 1)));
        }
        if k == 0 {
            // the leading `!` is not a comma, so the first field is nonempty
            assert(end >= 1);
        }
        pos = end + 1;
        k = k + 1;
    }

    // The seventh field: everything up to the next comma or the end.
    let chk_end = find_comma(ais, pos);
    let ghost rest = b.skip(pos as int);
    proof {
        lemma_split_nonempty(rest);
        assert(split_at_commas(b).len() >= 7);
        if chk_end == ais.len() {
            assert(first_comma(rest) == rest.len());
            assert(split_at_commas(rest)[0] == rest);
            assert(rest =~= b.subrange(pos as int, chk_end as int));
        } else {
            assert(split_at_commas(rest)[0] == rest.take((chk_end - pos) as int));
            assert(rest.take((chk_end - pos) as int) =~= b.subrange(pos as int, chk_end as int));
        }
        assert(split_at_commas(b)[6] == b.subrange(pos as int, chk_end as int));
    }
    let ghost f6 = split_at_commas(b)[6];
    if chk_end - pos < 4 {
        return Err(AisError::ChecksumTooShort);
    }

    // Recompute the checksum over the bytes strictly between `!` and `*`.
    let end_cs = ais.len() - 3;
    let mut cs: u8 = 0;
    let mut i: usize = 1;
    proof {
        assert(b.subrange(1, 1) =~= Seq::<u8>::empty());
    }
    while i < end_cs
        invariant
            b == ais@,
            1 <= i <= end_cs,
            end_cs == b.len() - 3,
            b.len() >= 11,
            cs == xor_seq(b.subrange(1, i as int)),
        decreases end_cs - i,
    {
        cs = cs ^ ais[i];
        proof {
            assert(b.subrange(1, i + 1).drop_last() =~= b.subrange(1, i as int));
            assert(b.subrange(1, i + 1).last() == b[i as int]);
        }
        i = i + 1;
    }
    assert(cs == line_checksum(b));
    let hi: u8 = cs / 16;
    let lo: u8 = cs % 16;
    let hc: u8 = if hi < 10 { 0x30 + hi } else { 0x37 + hi };
    let lc: u8 = if lo < 10 { 0x30 + lo } else { 0x37 + lo };
    proof {
        assert(f6[2] == b[pos as int + 2]);
        assert(f6[3] == b[pos as int + 3]);
    }
    if !(ais[pos + 2] == hc && ais[pos + 3] == lc) {
        assert(!checksum_ok(b, f6));
        return Err(AisError::ChecksumMismatch);
    }
    assert(checksum_ok(b, f6));

    // Only single-fragment sentences (fragment count "1") carry on.
    let (s1, e1) = fs[1];
    let ghost f1 = split_at_commas(b)[1];
    proof {
        assert(f1 == b.subrange(s1 as int, e1 as int));
    }
    let pkt_one = e1 - s1 == 1 && ais[s1] == 0x31;
    proof {
        if pkt_one {
            assert(f1 =~= seq![0x31u8]);
        } else {
            if f1 == seq![0x31u8] {
                assert(f1.len() == 1);
                assert(f1[0] == 0x31u8);
                assert(false);
            }
        }
    }
    if !pkt_one {
        return Ok(Ais::AisUnknown);
    }

    // Un-armor the payload, one six-bit value per character.
    let (s5, e5) = fs[5];
    let ghost f5 = split_at_commas(b)[5];
    proof {
        assert(f5 == b.subrange(s5 as int, e5 as int));
    }
    let mut m: Vec<u8> = Vec::new();
    let mut i5 = s5;
    while i5 < e5
        invariant
            b == ais@,
            s5 <= i5 <= e5 <= b.len(),
            f5 == b.subrange(s5 as int, e5 as int),
            forall|t: int| s5 <= t < i5 ==> is_armor(#[trigger] b[t]),
            m@ == unarmored(b.subrange(s5 as int, i5 as int)),
        decreases e5 - i5,
    {
        let c = ais[i5];
        let v: u8;
        if 0x30 <= c && c <= 0x57 {
            v = c - 0x30;
        } else if 0x60 <= c && c <= 0x77 {
            v = c - 0x38;
        } else {
            proof {
                assert(f5[i5 - s5] == b[i5 as int]);
                assert(!is_armor(f5[i5 - s5]));
                assert(!payload_ok(f5));
            }
            return Err(AisError::SixBit);
        }
        m.push(v);
        proof {
            assert(v == unarmor(c));
            assert(b.subrange(s5 as int, i5 + 1) =~= b.subrange(s5 as int, i5 as int).push(c));
            assert(unarmored(b.subrange(s5 as int, i5 as int).push(c)) =~= unarmored(
                b.subrange(s5 as int, i5 as int)).push(unarmor(c)));
        }
        i5 = i5 + 1;
    }
    proof {
        assert(b.subrange(s5 as int, e5 as int) =~= f5);
        assert forall|t: int| 0 <= t < f5.len() implies is_armor(#[trigger] f5[t]) by {
            assert(f5[t] == b[s5 + t]);
        }
        assert(payload_ok(f5));
        assert(m@ == unarmored(f5));
    }

    if m.len() <= 6 {
        return Err(AisError::MsgLen);
    }

    // The vessel identifier: the 30-bit field at offset 8.
    let mmsi = extractbit(m.as_slice(), 8, 30);
    proof {
        lemma_extract_bound(m@, 8, 30);
        lemma_pow2_strictly_increases(30, 32);
        lemma2_to64();
    }

    // Dispatch on the original ASCII digit of the first payload character.
    let msgtype = ais[s5];
    proof {
        assert(f5[0] == b[s5 as int]);
    }
    if 0x31 <= msgtype && msgtype <= 0x33 {
        if m.len() != 28 {
            return Err(AisError::MsgLen);
        }
        let lon_raw = extract_coord(m.as_slice(), 61, 28);
        let lat_raw = extract_coord(m.as_slice(), 89, 27);
        let sog_raw = extractbit(m.as_slice(), 50, 10);
        let cog_raw = extractbit(m.as_slice(), 116, 12);
        Ok(Ais::Ais1 { mmsi, lon_raw, lat_raw, sog_raw, cog_raw })
    } else if msgtype == 0x34 {
        if m.len() != 28 {
            return Err(AisError::MsgLen);
        }
        let lon_raw = extract_coord(m.as_slice(), 79, 28);
        let lat_raw = extract_coord(m.as_slice(), 107, 27);
        Ok(Ais::Ais4 { mmsi, lon_raw, lat_raw })
    } else {
        Ok(Ais::AisUnknown)
    }
}

} // verus!
