//! Bounded replay from a stored capture file: splitting the classic capture
//! file format (a 24-byte global header, then length-prefixed records) into
//! the captured frames, in either byte order and with microsecond- or
//! nanosecond-timestamped records. Replay is deterministic and ends at the
//! first truncated record or at the end of the data.

use vstd::prelude::*;
use vstd::slice::{slice_subrange, slice_to_vec};

verus! {

/// A 32-bit little-endian integer read at offset `i`.
pub open spec fn u32_le_at(b: Seq<u8>, i: int) -> int {
    b[i] + 256 * (b[i + 1] + 256 * (b[i + 2] + 256 * b[i + 3]))
}

/// A 32-bit big-endian integer read at offset `i`.
pub open spec fn u32_be_at(b: Seq<u8>, i: int) -> int {
    b[i + 3] + 256 * (b[i + 2] + 256 * (b[i + 1] + 256 * b[i]))
}

/// The captured length of the record whose header starts at `pos`.
pub open spec fn record_len_at(b: Seq<u8>, pos: int, le: bool) -> int {
    if le {
        u32_le_at(b, pos + 8)
    } else {
        u32_be_at(b, pos + 8)
    }
}

/// The frames of the records from `pos` on: each record is a 16-byte header
/// whose captured length names the frame bytes that follow; a truncated
/// header or frame ends the sequence.
pub open spec fn records_from(b: Seq<u8>, pos: int, le: bool) -> Seq<Seq<u8>>
    decreases b.len() - pos,
{
    if pos < 0 || pos + 16 > b.len() {
        Seq::empty()
    } else {
        let l = record_len_at(b, pos, le);
        if pos + 16 + l > b.len() {
            Seq::empty()
        } else {
            seq![b.subrange(pos + 16, pos + 16 + l)] + records_from(b, pos + 16 + l, le)
        }
    }
}

/// The data opens with a little-endian capture-file magic: the microsecond
/// or the nanosecond timestamp form.
pub open spec fn magic_le(b: Seq<u8>) -> bool {
    b.len() >= 24 && ((b[0] == 0xd4u8 && b[1] == 0xc3u8) || (b[0] == 0x4du8 && b[1] == 0x3cu8))
        && b[2] == 0xb2u8 && b[3] == 0xa1u8
}

/// The data opens with a big-endian capture-file magic: the microsecond or
/// the nanosecond timestamp form.
pub open spec fn magic_be(b: Seq<u8>) -> bool {
    b.len() >= 24 && b[0] == 0xa1u8 && b[1] == 0xb2u8 && ((b[2] == 0xc3u8 && b[3] == 0xd4u8) || (
    b[2] == 0x3cu8 && b[3] == 0x4du8))
}

/// The frame sequence a capture file holds, or `None` if the data does not
/// open with a capture-file header.
pub open spec fn capture_frames(b: Seq<u8>) -> Option<Seq<Seq<u8>>> {
    if magic_le(b) {
        Some(records_from(b, 24, true))
    } else if magic_be(b) {
        Some(records_from(b, 24, false))
    } else {
        None
    }
}

/// Reads one 32-bit integer in the byte order the file's magic named.
fn read_u32(data: &[u8], i: usize, le: bool) -> (r: u32)
    requires
        i + 4 <= data@.len(),
    ensures
        r == if le {
            u32_le_at(data@, i as int)
        } else {
            u32_be_at(data@, i as int)
        },
{
    let b0 = data[i] as u32;
    let b1 = data[i + 1] as u32;
    let b2 = data[i + 2] as u32;
    let b3 = data[i + 3] as u32;
    if le {
        b0 + 256 * (b1 + 256 * (b2 + 256 * b3))
    } else {
        b3 + 256 * (b2 + 256 * (b1 + 256 * b0))
    }
}

/// Splits a stored capture file into its frames: `None` when the data does
/// not open with a capture-file header, and otherwise exactly the frames of
/// its well-formed record prefix, in file order.
pub fn parse_capture(data: &[u8]) -> (r: Option<Vec<Vec<u8>>>)
    ensures
        r is Some <==> capture_frames(data@) is Some,
        r is Some ==> r.unwrap().deep_view() == capture_frames(data@).unwrap(),
{
    if data.len() < 24 {
        return None;
    }
    let le = if (data[0] == 0xd4 && data[1] == 0xc3 || data[0] == 0x4d && data[1] == 0x3c)
        && data[2] == 0xb2 && data[3] == 0xa1 {
        true
    } else if data[0] == 0xa1 && data[1] == 0xb2 && (data[2] == 0xc3 && data[3] == 0xd4 || data[2]
        == 0x3c && data[3] == 0x4d) {
        false
    } else {
        return None;
    };
    let mut frames: Vec<Vec<u8>> = Vec::new();
    let mut pos: usize = 24;
    loop
        invariant
            24 <= pos <= data@.len(),
            records_from(data@, 24, le) == frames.deep_view() + records_from(
                data@,
                pos as int,
                le,
            ),
        ensures
            records_from(data@, 24, le) == frames.deep_view(),
        decreases data@.len() - pos,
    {
        if data.len() - pos < 16 {
            proof {
                assert(records_from(data@, pos as int, le) =~= Seq::<Seq<u8>>::empty());
                assert(frames.deep_view() + Seq::<Seq<u8>>::empty() =~= frames.deep_view());
            }
            break ;
        }
        let l = read_u32(data, pos + 8, le) as usize;
        if l > data.len() - (pos + 16) {
            proof {
                assert(records_from(data@, pos as int, le) =~= Seq::<Seq<u8>>::empty());
                assert(frames.deep_view() + Seq::<Seq<u8>>::empty() =~= frames.deep_view());
            }
            break ;
        }
        let frame = slice_to_vec(slice_subrange(data, pos + 16, pos + 16 + l));
        let ghost prev = frames.deep_view();
        frames.push(frame);
        proof {
            assert(frames.deep_view() =~~= prev.push(data@.subrange(
                pos + 16,
                pos + 16 + l,
            )));
            assert(records_from(data@, pos as int, le) =~= seq![
                data@.subrange(pos + 16, pos + 16 + l),
            ] + records_from(data@, pos + 16 + l, le));
            assert(prev + records_from(data@, pos as int, le) =~~= frames.deep_view()
                + records_from(data@, pos + 16 + l, le));
        }
        pos = pos + 16 + l;
    }
    Some(frames)
}

} // verus!
