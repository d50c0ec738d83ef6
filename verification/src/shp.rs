//! SHP (Tiberian Dawn / Red Alert) sprite files: a header, a table of frame
//! offsets, and frames of 8-bit indexed pixels compressed with Format80 (LCW),
//! some of them XOR-ed onto a previous or a reference frame.

use vstd::prelude::*;
use vstd::slice::slice_subrange;
use vstd::string::StringExecFns;
use crate::text::{decimal, push_decimal};

verus! {

/// A single sprite frame.
#[derive(Clone, Debug)]
pub struct SpriteFrame {
    pub width: u16,
    pub height: u16,
    /// 8-bit indexed pixel data, row-major.
    pub pixels: Vec<u8>,
}

/// A decoded SHP file containing multiple frames.
#[derive(Clone, Debug)]
pub struct ShpFile {
    pub frames: Vec<SpriteFrame>,
}

/// A frame as a value: width, height and pixels.
pub type FrameValue = (u16, u16, Seq<u8>);

impl View for SpriteFrame {
    type V = FrameValue;

    open spec fn view(&self) -> FrameValue {
        (self.width, self.height, self.pixels@)
    }
}

impl View for ShpFile {
    type V = Seq<FrameValue>;

    open spec fn view(&self) -> Seq<FrameValue> {
        self.frames@.map_values(|f: SpriteFrame| f@)
    }
}

/// Frame format: Format80 data XOR-ed onto the previous frame.
pub const FORMAT_XOR_PREV: u8 = 0x20;

/// Frame format: Format80 data XOR-ed onto the frame at the reference offset.
pub const FORMAT_XOR_BASE: u8 = 0x40;

/// Frame format: plain Format80 data.
pub const FORMAT_80: u8 = 0x80;

/// The little-endian 16-bit value at `o`.
pub open spec fn spec_u16(d: Seq<u8>, o: int) -> u16 {
    (d[o] as int + 256 * (d[o + 1] as int)) as u16
}

/// The little-endian 24-bit value at `o`.
pub open spec fn spec_u24(d: Seq<u8>, o: int) -> u32 {
    (d[o] as int + 256 * (d[o + 1] as int) + 65536 * (d[o + 2] as int)) as u32
}

/// Read a little-endian u16 at `offset`.
pub fn read_u16(data: &[u8], offset: usize) -> (r: u16)
    requires
        offset + 2 <= data@.len(),
    ensures
        r == spec_u16(data@, offset as int),
{
    let lo = data[offset];
    let hi = data[offset + 1];
    assert(((lo as u16) | ((hi as u16) << 8u16)) == lo as int + 256 * (hi as int)) by (bit_vector);
    (lo as u16) | ((hi as u16) << 8u16)
}

/// Read a little-endian 24-bit value at `offset`.
pub fn read_u24(data: &[u8], offset: usize) -> (r: u32)
    requires
        offset + 3 <= data@.len(),
    ensures
        r == spec_u24(data@, offset as int),
{
    let a = data[offset];
    let b = data[offset + 1];
    let c = data[offset + 2];
    assert((a as u32 | ((b as u32) << 8u32) | ((c as u32) << 16u32)) == a as int + 256 * (b as int)
        + 65536 * (c as int)) by (bit_vector);
    a as u32 | ((b as u32) << 8u32) | ((c as u32) << 16u32)
}

// ---------------------------------------------------------------------------
// Format80 (LCW)
// ---------------------------------------------------------------------------

/// Append `count` bytes copied from the output itself, starting at `pos` (a byte
/// not yet written reads as 0), stopping once the output holds `max` bytes.
/// The copy may overlap the bytes it writes.
pub open spec fn copy_back(dest: Seq<u8>, pos: int, count: nat, max: nat) -> Seq<u8>
    decreases count,
{
    if count == 0 || dest.len() >= max {
        dest
    } else {
        let b: u8 = if 0 <= pos < dest.len() { dest[pos] } else { 0 };
        copy_back(dest.push(b), pos + 1, (count - 1) as nat, max)
    }
}

/// Append up to `count` bytes of `src` from `i`, stopping at the end of `src` or once
/// the output holds `max` bytes; gives the position after the copied bytes and the output.
pub open spec fn copy_literal(src: Seq<u8>, i: int, dest: Seq<u8>, count: nat, max: nat) -> (int, Seq<u8>)
    decreases count,
{
    if count == 0 || dest.len() >= max || i < 0 || i >= src.len() {
        (i, dest)
    } else {
        copy_literal(src, i + 1, dest.push(src[i]), (count - 1) as nat, max)
    }
}

/// Append `count` copies of `value`, but no more than leaves the output at `max` bytes.
pub open spec fn fill(dest: Seq<u8>, value: u8, count: nat, max: nat) -> Seq<u8> {
    let room: int = max - dest.len();
    let n: int = if count <= room { count as int } else { room };
    if n <= 0 {
        dest
    } else {
        dest + Seq::new(n as nat, |_j: int| value)
    }
}

/// The Format80 command at `i`: `None` where decoding stops, otherwise the position
/// after the command and the output it leaves.
pub open spec fn f80_command(src: Seq<u8>, max: nat, i: int, dest: Seq<u8>) -> Option<(int, Seq<u8>)> {
    let cmd = src[i];
    let i = i + 1;
    if cmd == 0x80 {
        // end of data
        None
    } else if cmd == 0xFF {
        // long copy from the output: count (u16), position (u16)
        if i + 4 > src.len() {
            None
        } else {
            Some((i + 4, copy_back(dest, spec_u16(src, i + 2) as int, spec_u16(src, i) as nat, max)))
        }
    } else if cmd == 0xFE {
        // long fill: count (u16), value
        if i + 3 > src.len() {
            None
        } else {
            Some((i + 3, fill(dest, src[i + 2], spec_u16(src, i) as nat, max)))
        }
    } else if cmd >= 0xC0 {
        // short copy from the output: 11cccccc, position (u16), copies c + 3 bytes
        if i + 2 > src.len() {
            None
        } else {
            Some((i + 2, copy_back(dest, spec_u16(src, i) as int, (cmd % 64 + 3) as nat, max)))
        }
    } else if cmd > 0x80 {
        // relative copy from the output: 10cccccc, distance back; copies c bytes
        if i >= src.len() {
            None
        } else {
            let back = src[i] as int;
            let pos = if dest.len() >= back { dest.len() - back } else { 0 };
            Some((i + 1, copy_back(dest, pos, (cmd % 64) as nat, max)))
        }
    } else if cmd == 0 {
        None
    } else {
        // literal: 0ccccccc, copies c bytes of the input
        Some(copy_literal(src, i, dest, cmd as nat, max))
    }
}

/// Run Format80 commands from `i` until the input ends, the output holds `max`
/// bytes, or a command stops decoding.
pub open spec fn f80_run(src: Seq<u8>, max: nat, i: int, dest: Seq<u8>) -> Seq<u8>
    decreases src.len() - i,
{
    if i < 0 || i >= src.len() || dest.len() >= max {
        dest
    } else {
        match f80_command(src, max, i, dest) {
            None => dest,
            Some((j, d)) => if i < j <= src.len() {
                f80_run(src, max, j, d)
            } else {
                d
            },
        }
    }
}

/// `d` cut or padded with zeros to exactly `len` bytes.
pub open spec fn pad_to(d: Seq<u8>, len: nat) -> Seq<u8> {
    if d.len() >= len {
        d.take(len as int)
    } else {
        d + Seq::new((len - d.len()) as nat, |_j: int| 0u8)
    }
}

/// The Format80 decoding of `src` into exactly `max` bytes.
pub open spec fn spec_decode_format80(src: Seq<u8>, max: nat) -> Seq<u8> {
    pad_to(f80_run(src, max, 0, Seq::empty()), max)
}

/// The bytewise XOR of two buffers, as long as the shorter one.
pub open spec fn spec_xor(a: Seq<u8>, b: Seq<u8>) -> Seq<u8> {
    let n = if a.len() <= b.len() { a.len() } else { b.len() };
    Seq::new(n, |k: int| a[k] ^ b[k])
}

/// A delta frame applied to the previous frame: as long as the delta, each byte XOR-ed
/// with the previous frame's byte where the previous frame has one, kept as it is where not.
pub open spec fn spec_xor_onto(prev: Seq<u8>, delta: Seq<u8>) -> Seq<u8> {
    Seq::new(delta.len(), |k: int| if k < prev.len() { prev[k] ^ delta[k] } else { delta[k] })
}

proof fn lemma_copy_back_len(dest: Seq<u8>, pos: int, count: nat, max: nat)
    requires
        dest.len() <= max,
    ensures
        copy_back(dest, pos, count, max).len() <= max,
        copy_back(dest, pos, count, max).len() >= dest.len(),
    decreases count,
{
    if count > 0 && dest.len() < max {
        let b: u8 = if 0 <= pos < dest.len() { dest[pos] } else { 0 };
        lemma_copy_back_len(dest.push(b), pos + 1, (count - 1) as nat, max);
    }
}

fn copy_back_exec(dest: &mut Vec<u8>, pos: usize, count: usize, max: usize)
    requires
        old(dest)@.len() <= max,
    ensures
        final(dest)@ == copy_back(old(dest)@, pos as int, count as nat, max as nat),
        final(dest)@.len() <= max,
{
    proof {
        lemma_copy_back_len(dest@, pos as int, count as nat, max as nat);
    }
    let mut j: usize = 0;
    while j < count
        invariant
            j <= count,
            dest@.len() <= max,
            copy_back(dest@, pos + j, (count - j) as nat, max as nat) == copy_back(
                old(dest)@,
                pos as int,
                count as nat,
                max as nat,
            ),
        ensures
            dest@ == copy_back(old(dest)@, pos as int, count as nat, max as nat),
            dest@.len() <= max,
        decreases count - j,
    {
        if dest.len() >= max {
            break;
        }
        let b: u8 = if pos < dest.len() && j < dest.len() - pos {
            dest[pos + j]
        } else {
            0
        };
        dest.push(b);
        j += 1;
    }
}

fn fill_exec(dest: &mut Vec<u8>, value: u8, count: usize, max: usize)
    requires
        old(dest)@.len() <= max,
    ensures
        final(dest)@ == fill(old(dest)@, value, count as nat, max as nat),
        final(dest)@.len() <= max,
{
    let room = max - dest.len();
    let n = if count <= room { count } else { room };
    let ghost d0 = dest@;
    for k in 0..n
        invariant
            dest@ == d0 + Seq::new(k as nat, |_j: int| value),
            d0.len() + n <= max,
    {
        dest.push(value);
        assert(dest@ =~= d0 + Seq::new((k + 1) as nat, |_j: int| value));
    }
    assert(n == 0 ==> dest@ =~= d0);
}

proof fn lemma_copy_literal_range(src: Seq<u8>, i: int, dest: Seq<u8>, count: nat, max: nat)
    requires
        0 <= i <= src.len(),
        dest.len() <= max,
    ensures
        i <= copy_literal(src, i, dest, count, max).0 <= src.len(),
        copy_literal(src, i, dest, count, max).1.len() <= max,
    decreases count,
{
    if count > 0 && dest.len() < max && i < src.len() {
        lemma_copy_literal_range(src, i + 1, dest.push(src[i]), (count - 1) as nat, max);
    }
}

fn copy_literal_exec(src: &[u8], i: usize, dest: &mut Vec<u8>, count: usize, max: usize) -> (next: usize)
    requires
        i <= src@.len(),
        old(dest)@.len() <= max,
    ensures
        (next as int, final(dest)@) == copy_literal(src@, i as int, old(dest)@, count as nat, max as nat),
        i <= next <= src@.len(),
        final(dest)@.len() <= max,
{
    proof {
        lemma_copy_literal_range(src@, i as int, dest@, count as nat, max as nat);
    }
    let mut p = i;
    let mut k: usize = 0;
    while k < count
        invariant
            k <= count,
            i <= p <= src@.len(),
            dest@.len() <= max,
            copy_literal(src@, p as int, dest@, (count - k) as nat, max as nat) == copy_literal(
                src@,
                i as int,
                old(dest)@,
                count as nat,
                max as nat,
            ),
        ensures
            (p as int, dest@) == copy_literal(src@, i as int, old(dest)@, count as nat, max as nat),
            i <= p <= src@.len(),
            dest@.len() <= max,
        decreases count - k,
    {
        if dest.len() >= max || p >= src.len() {
            break;
        }
        dest.push(src[p]);
        p += 1;
        k += 1;
    }
    p
}

/// Run the Format80 command at `i`; `None` where decoding stops.
fn f80_command_exec(src: &[u8], i: usize, dest: &mut Vec<u8>, max: usize) -> (next: Option<usize>)
    requires
        i < src@.len(),
        old(dest)@.len() <= max,
    ensures
        match f80_command(src@, max as nat, i as int, old(dest)@) {
            None => next is None && final(dest)@ == old(dest)@,
            Some((j, d)) => next == Some(j as usize) && final(dest)@ == d && i < j <= src@.len(),
        },
        final(dest)@.len() <= max,
{
    let cmd = src[i];
    let i = i + 1;
    let rest = src.len() - i;
    if cmd == 0x80 {
        None
    } else if cmd == 0xFF {
        if rest < 4 {
            return None;
        }
        let count = read_u16(src, i) as usize;
        let src_pos = read_u16(src, i + 2) as usize;
        copy_back_exec(dest, src_pos, count, max);
        Some(i + 4)
    } else if cmd == 0xFE {
        if rest < 3 {
            return None;
        }
        let count = read_u16(src, i) as usize;
        let value = src[i + 2];
        fill_exec(dest, value, count, max);
        Some(i + 3)
    } else if cmd & 0x80 != 0 {
        assert(cmd & 0x80 != 0 <==> cmd >= 0x80) by (bit_vector);
        if cmd & 0x40 != 0 {
            assert(cmd >= 0x80 ==> (cmd & 0x40 != 0 <==> cmd >= 0xC0)) by (bit_vector);
            let count = ((cmd & 0x3F) as usize) + 3;
            assert((cmd & 0x3F) == cmd % 64) by (bit_vector);
            if rest < 2 {
                return None;
            }
            let src_pos = read_u16(src, i) as usize;
            copy_back_exec(dest, src_pos, count, max);
            Some(i + 2)
        } else {
            assert(cmd >= 0x80 ==> (cmd & 0x40 == 0 <==> cmd < 0xC0)) by (bit_vector);
            let count = (cmd & 0x3F) as usize;
            assert((cmd & 0x3F) == cmd % 64) by (bit_vector);
            if rest == 0 {
                return None;
            }
            let back = src[i] as usize;
            let src_pos = if dest.len() >= back {
                dest.len() - back
            } else {
                0
            };
            copy_back_exec(dest, src_pos, count, max);
            Some(i + 1)
        }
    } else {
        assert(cmd & 0x80 == 0 <==> cmd < 0x80) by (bit_vector);
        if cmd == 0 {
            return None;
        }
        let next = copy_literal_exec(src, i, dest, cmd as usize, max);
        Some(next)
    }
}

/// Decode Format80 (LCW) compressed data into exactly `max_output` bytes
/// (padded with zeros where the data ends early).
fn decode_format80(src: &[u8], max_output: usize) -> (r: Result<Vec<u8>, String>)
    ensures
        r matches Ok(v) && v@ == spec_decode_format80(src@, max_output as nat),
{
    let mut dest: Vec<u8> = Vec::with_capacity(max_output);
    let mut i: usize = 0;
    let ghost goal = f80_run(src@, max_output as nat, 0, Seq::empty());
    loop
        invariant
            i <= src@.len(),
            dest@.len() <= max_output,
            f80_run(src@, max_output as nat, i as int, dest@) == goal,
        ensures
            dest@ == goal,
            dest@.len() <= max_output,
        decreases src@.len() - i,
    {
        if i >= src.len() || dest.len() >= max_output {
            break;
        }
        match f80_command_exec(src, i, &mut dest, max_output) {
            None => {
                break;
            },
            Some(j) => {
                i = j;
            },
        }
    }
    let ghost before = dest@;
    while dest.len() < max_output
        invariant
            before.len() <= dest@.len() <= max_output,
            dest@ == before + Seq::new((dest@.len() - before.len()) as nat, |_j: int| 0u8),
        decreases max_output - dest@.len(),
    {
        let ghost len0 = dest@.len();
        dest.push(0);
        assert(dest@ =~= before + Seq::new((dest@.len() - before.len()) as nat, |_j: int| 0u8));
    }
    assert(dest@ =~= pad_to(before, max_output as nat));
    Ok(dest)
}

/// Apply a delta frame to the previous frame's pixels: the result is as long as the delta.
fn xor_onto_previous(prev: &[u8], delta: &[u8]) -> (r: Vec<u8>)
    ensures
        r@ == spec_xor_onto(prev@, delta@),
{
    let mut out: Vec<u8> = Vec::with_capacity(delta.len());
    for k in 0..delta.len()
        invariant
            out@.len() == k,
            forall|m: int| 0 <= m < k ==> #[trigger] out@[m] == spec_xor_onto(prev@, delta@)[m],
    {
        let b = if k < prev.len() { prev[k] ^ delta[k] } else { delta[k] };
        out.push(b);
    }
    assert(out@ =~= spec_xor_onto(prev@, delta@));
    out
}

/// XOR two buffers together, as far as the shorter one goes.
pub fn xor_buffers(base: &[u8], overlay: &[u8]) -> (r: Vec<u8>)
    ensures
        r@ == spec_xor(base@, overlay@),
{
    let n = if base.len() <= overlay.len() {
        base.len()
    } else {
        overlay.len()
    };
    let mut out: Vec<u8> = Vec::with_capacity(n);
    for k in 0..n
        invariant
            n <= base@.len(),
            n <= overlay@.len(),
            out@.len() == k,
            forall|m: int| 0 <= m < k ==> #[trigger] out@[m] == base@[m] ^ overlay@[m],
    {
        out.push(base[k] ^ overlay[k]);
    }
    assert(out@ =~= spec_xor(base@, overlay@));
    out
}


// ---------------------------------------------------------------------------
// SHP container
// ---------------------------------------------------------------------------

/// Offset of the frame data of frame `k`, from its entry in the offset table.
pub open spec fn entry_offset(data: Seq<u8>, k: int) -> int {
    spec_u24(data, 2 + 8 * k) as int
}

/// Format byte of frame `k`.
pub open spec fn entry_format(data: Seq<u8>, k: int) -> u8 {
    data[2 + 8 * k + 3]
}

/// Offset of the reference frame data of frame `k`.
pub open spec fn entry_ref_offset(data: Seq<u8>, k: int) -> int {
    spec_u24(data, 2 + 8 * k + 4) as int
}

/// The message for a frame whose data offset lies past the end of the file.
pub open spec fn frame_out_of_bounds_message(k: nat) -> Seq<char> {
    "Frame "@ + decimal(k) + " offset out of bounds"@
}

/// The message for a frame whose reference offset lies past the end of the file.
pub open spec fn ref_out_of_bounds_message(k: nat) -> Seq<char> {
    "Ref frame offset out of bounds for frame "@ + decimal(k)
}

/// Decode frame `k` of `data`, given the frames decoded before it.
pub open spec fn spec_decode_frame(data: Seq<u8>, k: int, prev: Seq<FrameValue>) -> Result<FrameValue, Seq<char>> {
    let start = entry_offset(data, k);
    if start + 4 > data.len() {
        Err(frame_out_of_bounds_message(k as nat))
    } else {
        let w = spec_u16(data, start);
        let h = spec_u16(data, start + 2);
        let count = (w * h) as nat;
        if count == 0 {
            Ok((w, h, Seq::empty()))
        } else {
            let body = spec_decode_format80(data.subrange(start + 4, data.len() as int), count);
            let format = entry_format(data, k);
            if format == FORMAT_80 {
                Ok((w, h, body))
            } else if format == FORMAT_XOR_PREV && k > 0 {
                Ok((w, h, spec_xor_onto(prev[k - 1].2, body)))
            } else if format == FORMAT_XOR_BASE {
                let r = entry_ref_offset(data, k);
                if r + 4 > data.len() {
                    Err(ref_out_of_bounds_message(k as nat))
                } else {
                    Ok((w, h, spec_xor(spec_decode_format80(data.subrange(r + 4, data.len() as int), count), body)))
                }
            } else {
                Ok((w, h, body))
            }
        }
    }
}

/// The first `k` frames of `data`, or the error met on the way.
pub open spec fn spec_decode_frames(data: Seq<u8>, k: nat) -> Result<Seq<FrameValue>, Seq<char>>
    decreases k,
{
    if k == 0 {
        Ok(Seq::empty())
    } else {
        match spec_decode_frames(data, (k - 1) as nat) {
            Err(e) => Err(e),
            Ok(fs) => match spec_decode_frame(data, k - 1, fs) {
                Err(e) => Err(e),
                Ok(f) => Ok(fs.push(f)),
            },
        }
    }
}

/// Number of frames announced by the header.
pub open spec fn spec_num_images(data: Seq<u8>) -> nat {
    spec_u16(data, 0) as nat
}

/// The frames of an SHP file, or the message of the error that rejects it.
pub open spec fn spec_decode(data: Seq<u8>) -> Result<Seq<FrameValue>, Seq<char>> {
    if data.len() < 14 {
        Err("SHP file too small"@)
    } else if spec_num_images(data) == 0 {
        Err("SHP file has zero frames"@)
    } else if data.len() < 2 + (spec_num_images(data) + 2) * 8 {
        Err("SHP file truncated in offset table"@)
    } else {
        spec_decode_frames(data, spec_num_images(data))
    }
}

proof fn lemma_frames_err_persists(data: Seq<u8>, k: nat, m: nat)
    requires
        k <= m,
        spec_decode_frames(data, k) is Err,
    ensures
        spec_decode_frames(data, m) == spec_decode_frames(data, k),
    decreases m - k,
{
    if k < m {
        lemma_frames_err_persists(data, k, (m - 1) as nat);
    }
}

proof fn lemma_frames_len(data: Seq<u8>, k: nat)
    ensures
        spec_decode_frames(data, k) matches Ok(fs) ==> fs.len() == k,
    decreases k,
{
    if k > 0 {
        lemma_frames_len(data, (k - 1) as nat);
    }
}

struct FrameHeader {
    offset: usize,
    format: u8,
    ref_offset: usize,
    #[allow(dead_code)]
    ref_format: u8,
}

fn frame_error(i: usize) -> (m: String)
    ensures
        m@ == frame_out_of_bounds_message(i as nat),
{
    let mut m = String::from_str("Frame ");
    push_decimal(&mut m, i as u64);
    m.append(" offset out of bounds");
    m
}

fn ref_error(i: usize) -> (m: String)
    ensures
        m@ == ref_out_of_bounds_message(i as nat),
{
    let mut m = String::from_str("Ref frame offset out of bounds for frame ");
    push_decimal(&mut m, i as u64);
    m
}

/// Decode an SHP TD format file from raw bytes.
pub fn decode(data: &[u8]) -> (r: Result<ShpFile, String>)
    ensures
        r matches Ok(f) ==> spec_decode(data@) == Ok::<Seq<FrameValue>, Seq<char>>(f@),
        r matches Err(m) ==> spec_decode(data@) == Err::<Seq<FrameValue>, Seq<char>>(m@),
{
    if data.len() < 14 {
        return Err(String::from_str("SHP file too small"));
    }
    let num_images = read_u16(data, 0) as usize;
    if num_images == 0 {
        return Err(String::from_str("SHP file has zero frames"));
    }
    let header_size: usize = 2;
    let offset_entry_size: usize = 8;
    if data.len() < header_size + (num_images + 2) * offset_entry_size {
        return Err(String::from_str("SHP file truncated in offset table"));
    }
    let mut offsets: Vec<FrameHeader> = Vec::with_capacity(num_images + 2);
    for i in 0..(num_images + 2)
        invariant
            header_size == 2,
            offset_entry_size == 8,
            num_images == spec_num_images(data@),
            data@.len() >= 2 + (num_images + 2) * 8,
            offsets@.len() == i,
            forall|k: int|
                0 <= k < i ==> {
                    &&& (#[trigger] offsets@[k]).offset == entry_offset(data@, k)
                    &&& offsets@[k].format == entry_format(data@, k)
                    &&& offsets@[k].ref_offset == entry_ref_offset(data@, k)
                },
    {
        let base = header_size + i * offset_entry_size;
        let offset = read_u24(data, base);
        let format = data[base + 3];
        let ref_offset = read_u24(data, base + 4);
        let ref_format = data[base + 7];
        offsets.push(FrameHeader { offset: offset as usize, format, ref_offset: ref_offset as usize, ref_format });
    }
    let mut frames: Vec<SpriteFrame> = Vec::with_capacity(num_images);
    assert(frames@.map_values(|f: SpriteFrame| f@) =~= Seq::<FrameValue>::empty());
    for i in 0..num_images
        invariant
            num_images == spec_num_images(data@),
            data@.len() >= 14,
            num_images > 0,
            data@.len() >= 2 + (num_images + 2) * 8,
            offsets@.len() == num_images + 2,
            forall|k: int|
                0 <= k < num_images + 2 ==> {
                    &&& (#[trigger] offsets@[k]).offset == entry_offset(data@, k)
                    &&& offsets@[k].format == entry_format(data@, k)
                    &&& offsets@[k].ref_offset == entry_ref_offset(data@, k)
                },
            frames@.len() == i,
            spec_decode_frames(data@, i as nat) == Ok::<Seq<FrameValue>, Seq<char>>(
                frames@.map_values(|f: SpriteFrame| f@),
            ),
    {
        let ghost prev = frames@.map_values(|f: SpriteFrame| f@);
        let frame_start = offsets[i].offset;
        assert(offsets@[i as int].offset == entry_offset(data@, i as int));
        if frame_start > data.len() || data.len() - frame_start < 4 {
            proof {
                assert(spec_decode_frame(data@, i as int, prev) == Err::<FrameValue, Seq<char>>(
                    frame_out_of_bounds_message(i as nat),
                ));
                assert(spec_decode_frames(data@, (i + 1) as nat) == Err::<Seq<FrameValue>, Seq<char>>(
                    frame_out_of_bounds_message(i as nat),
                ));
                lemma_frames_err_persists(data@, (i + 1) as nat, num_images as nat);
            }
            return Err(frame_error(i));
        }
        let width = read_u16(data, frame_start);
        let height = read_u16(data, frame_start + 2);
        assert(width as int * height as int <= 65535 * 65535) by (nonlinear_arith)
            requires
                width <= 65535,
                height <= 65535,
        ;
        let pixel_count = width as usize * height as usize;
        let pixels: Vec<u8> = if pixel_count == 0 {
            Vec::new()
        } else {
            let compressed_start = frame_start + 4;
            let compressed_data = slice_subrange(data, compressed_start, data.len());
            let format = offsets[i].format;
            if format == FORMAT_80 {
                decode_format80(compressed_data, pixel_count)?
            } else if format == FORMAT_XOR_PREV && i > 0 {
                let base_decoded = decode_format80(compressed_data, pixel_count)?;
                xor_onto_previous(frames[i - 1].pixels.as_slice(), base_decoded.as_slice())
            } else if format == FORMAT_XOR_BASE {
                let ref_start = offsets[i].ref_offset;
                assert(offsets@[i as int].ref_offset == entry_ref_offset(data@, i as int));
                if ref_start > data.len() || data.len() - ref_start < 4 {
                    proof {
                        assert(spec_decode_frame(data@, i as int, prev) == Err::<FrameValue, Seq<char>>(
                            ref_out_of_bounds_message(i as nat),
                        ));
                        assert(spec_decode_frames(data@, (i + 1) as nat) == Err::<Seq<FrameValue>, Seq<char>>(
                            ref_out_of_bounds_message(i as nat),
                        ));
                        lemma_frames_err_persists(data@, (i + 1) as nat, num_images as nat);
                    }
                    return Err(ref_error(i));
                }
                let ref_compressed = slice_subrange(data, ref_start + 4, data.len());
                let ref_decoded = decode_format80(ref_compressed, pixel_count)?;
                let base_decoded = decode_format80(compressed_data, pixel_count)?;
                xor_buffers(ref_decoded.as_slice(), base_decoded.as_slice())
            } else {
                decode_format80(compressed_data, pixel_count)?
            }
        };
        let frame = SpriteFrame { width, height, pixels };
        assert(spec_decode_frame(data@, i as int, prev) == Ok::<FrameValue, Seq<char>>(frame@));
        frames.push(frame);
        assert(frames@.map_values(|f: SpriteFrame| f@) =~= prev.push(frame@));
    }
    Ok(ShpFile { frames })
}


// ---------------------------------------------------------------------------
// Laws
// ---------------------------------------------------------------------------

/// Format80 decoding always yields exactly the requested number of bytes.
pub proof fn lemma_format80_output_len(src: Seq<u8>, max: nat)
    ensures
        spec_decode_format80(src, max).len() == max,
{
}

proof fn lemma_prefix_trans(a: Seq<u8>, b: Seq<u8>, c: Seq<u8>)
    requires
        a.is_prefix_of(b),
        b.is_prefix_of(c),
    ensures
        a.is_prefix_of(c),
{
    assert forall|k: int| 0 <= k < a.len() implies a[k] == c[k] by {
        assert(a[k] == b.subrange(0, a.len() as int)[k]);
        assert(b[k] == c.subrange(0, b.len() as int)[k]);
    }
    assert(a =~= c.subrange(0, a.len() as int));
}

proof fn lemma_push_prefix(d: Seq<u8>, b: u8)
    ensures
        d.is_prefix_of(d.push(b)),
{
    assert(d =~= d.push(b).subrange(0, d.len() as int));
}

proof fn lemma_copy_back_extends(d: Seq<u8>, pos: int, count: nat, max: nat)
    ensures
        d.is_prefix_of(copy_back(d, pos, count, max)),
    decreases count,
{
    if count == 0 || d.len() >= max {
        assert(d =~= d.subrange(0, d.len() as int));
    } else {
        let b: u8 = if 0 <= pos < d.len() { d[pos] } else { 0 };
        lemma_copy_back_extends(d.push(b), pos + 1, (count - 1) as nat, max);
        lemma_push_prefix(d, b);
        lemma_prefix_trans(d, d.push(b), copy_back(d, pos, count, max));
    }
}

proof fn lemma_copy_literal_extends(src: Seq<u8>, i: int, d: Seq<u8>, count: nat, max: nat)
    ensures
        d.is_prefix_of(copy_literal(src, i, d, count, max).1),
    decreases count,
{
    if count == 0 || d.len() >= max || i < 0 || i >= src.len() {
        assert(d =~= d.subrange(0, d.len() as int));
    } else {
        lemma_copy_literal_extends(src, i + 1, d.push(src[i]), (count - 1) as nat, max);
        lemma_push_prefix(d, src[i]);
        lemma_prefix_trans(d, d.push(src[i]), copy_literal(src, i, d, count, max).1);
    }
}

proof fn lemma_f80_command_extends(src: Seq<u8>, max: nat, i: int, d: Seq<u8>)
    requires
        0 <= i < src.len(),
    ensures
        f80_command(src, max, i, d) matches Some((j, d2)) ==> d.is_prefix_of(d2),
{
    let cmd = src[i];
    let k = i + 1;
    if cmd == 0xFF {
        lemma_copy_back_extends(d, spec_u16(src, k + 2) as int, spec_u16(src, k) as nat, max);
    } else if cmd == 0xFE {
        let room: int = max - d.len();
        let n: int = if spec_u16(src, k) <= room { spec_u16(src, k) as int } else { room };
        if n > 0 {
            assert(d =~= (d + Seq::new(n as nat, |_j: int| src[k + 2])).subrange(0, d.len() as int));
        } else {
            assert(d =~= d.subrange(0, d.len() as int));
        }
    } else if cmd >= 0xC0 {
        lemma_copy_back_extends(d, spec_u16(src, k) as int, (cmd % 64 + 3) as nat, max);
    } else if cmd > 0x80 {
        if k < src.len() {
            let back = src[k] as int;
            let pos = if d.len() >= back { d.len() - back } else { 0 };
            lemma_copy_back_extends(d, pos, (cmd % 64) as nat, max);
        }
    } else if cmd != 0x80 && cmd != 0 {
        lemma_copy_literal_extends(src, k, d, cmd as nat, max);
    }
}

proof fn lemma_f80_run_extends(src: Seq<u8>, max: nat, i: int, d: Seq<u8>)
    ensures
        d.is_prefix_of(f80_run(src, max, i, d)),
    decreases src.len() - i,
{
    if i < 0 || i >= src.len() || d.len() >= max {
        assert(d =~= d.subrange(0, d.len() as int));
    } else {
        lemma_f80_command_extends(src, max, i, d);
        match f80_command(src, max, i, d) {
            None => {
                assert(d =~= d.subrange(0, d.len() as int));
            },
            Some((j, d2)) => {
                if i < j <= src.len() {
                    lemma_f80_run_extends(src, max, j, d2);
                    lemma_prefix_trans(d, d2, f80_run(src, max, j, d2));
                }
            },
        }
    }
}

/// What the same step gives under a smaller output limit `m1` is a prefix of what it
/// gives under `m2`, and is all of it unless the smaller limit was reached.
pub open spec fn limited_prefix(r1: Seq<u8>, r2: Seq<u8>, m1: nat) -> bool {
    &&& r1.len() <= m1
    &&& r1.is_prefix_of(r2)
    &&& r1.len() < m1 ==> r1 == r2
}

proof fn lemma_copy_back_limits(d: Seq<u8>, pos: int, count: nat, m1: nat, m2: nat)
    requires
        d.len() <= m1 <= m2,
    ensures
        limited_prefix(copy_back(d, pos, count, m1), copy_back(d, pos, count, m2), m1),
    decreases count,
{
    if count == 0 {
        assert(d =~= d.subrange(0, d.len() as int));
    } else if d.len() >= m1 {
        lemma_copy_back_extends(d, pos, count, m2);
    } else {
        let b: u8 = if 0 <= pos < d.len() { d[pos] } else { 0 };
        lemma_copy_back_limits(d.push(b), pos + 1, (count - 1) as nat, m1, m2);
    }
}

proof fn lemma_copy_literal_limits(src: Seq<u8>, i: int, d: Seq<u8>, count: nat, m1: nat, m2: nat)
    requires
        d.len() <= m1 <= m2,
    ensures
        limited_prefix(copy_literal(src, i, d, count, m1).1, copy_literal(src, i, d, count, m2).1, m1),
        copy_literal(src, i, d, count, m1).1.len() < m1 ==> copy_literal(src, i, d, count, m1) == copy_literal(
            src,
            i,
            d,
            count,
            m2,
        ),
    decreases count,
{
    if count == 0 || i < 0 || i >= src.len() {
        assert(d =~= d.subrange(0, d.len() as int));
    } else if d.len() >= m1 {
        lemma_copy_literal_extends(src, i, d, count, m2);
    } else {
        lemma_copy_literal_limits(src, i + 1, d.push(src[i]), (count - 1) as nat, m1, m2);
    }
}

proof fn lemma_f80_command_limits(src: Seq<u8>, i: int, d: Seq<u8>, m1: nat, m2: nat)
    requires
        0 <= i < src.len(),
        d.len() < m1 <= m2,
    ensures
        f80_command(src, m1, i, d) is None <==> f80_command(src, m2, i, d) is None,
        f80_command(src, m1, i, d) matches Some((j1, d1)) ==> f80_command(src, m2, i, d) matches Some((j2, d2))
            && limited_prefix(d1, d2, m1) && (d1.len() < m1 ==> j1 == j2),
{
    let cmd = src[i];
    let k = i + 1;
    if cmd == 0xFF {
        lemma_copy_back_limits(d, spec_u16(src, k + 2) as int, spec_u16(src, k) as nat, m1, m2);
    } else if cmd == 0xFE {
        let c = spec_u16(src, k);
        let v = src[k + 2];
        let n1: int = if c <= m1 - d.len() { c as int } else { m1 - d.len() };
        let n2: int = if c <= m2 - d.len() { c as int } else { m2 - d.len() };
        if k + 3 <= src.len() && c == 0 {
            assert(d =~= d.subrange(0, d.len() as int));
        } else if k + 3 <= src.len() {
            let f1 = fill(d, v, c as nat, m1);
            let f2 = fill(d, v, c as nat, m2);
            assert(n1 > 0 && n2 >= n1);
            assert(f1 == d + Seq::new(n1 as nat, |_j: int| v));
            assert(f2 == d + Seq::new(n2 as nat, |_j: int| v));
            assert(f1 =~= f2.subrange(0, f1.len() as int));
            if f1.len() < m1 {
                assert(n1 == c && n2 == c);
                assert(f1 =~= f2);
            }
        }
    } else if cmd >= 0xC0 {
        lemma_copy_back_limits(d, spec_u16(src, k) as int, (cmd % 64 + 3) as nat, m1, m2);
    } else if cmd > 0x80 {
        if k < src.len() {
            let back = src[k] as int;
            let pos = if d.len() >= back { d.len() - back } else { 0 };
            lemma_copy_back_limits(d, pos, (cmd % 64) as nat, m1, m2);
        }
    } else if cmd != 0x80 && cmd != 0 {
        lemma_copy_literal_limits(src, k, d, cmd as nat, m1, m2);
    }
}

proof fn lemma_f80_run_limits(src: Seq<u8>, i: int, d: Seq<u8>, m1: nat, m2: nat)
    requires
        d.len() <= m1 <= m2,
    ensures
        limited_prefix(f80_run(src, m1, i, d), f80_run(src, m2, i, d), m1),
    decreases src.len() - i,
{
    if i < 0 || i >= src.len() {
        assert(d =~= d.subrange(0, d.len() as int));
    } else if d.len() >= m1 {
        lemma_f80_run_extends(src, m2, i, d);
    } else {
        lemma_f80_command_limits(src, i, d, m1, m2);
        lemma_f80_command_extends(src, m2, i, d);
        match f80_command(src, m1, i, d) {
            None => {
                assert(d =~= d.subrange(0, d.len() as int));
            },
            Some((j1, d1)) => {
                let (j2, d2) = f80_command(src, m2, i, d)->Some_0;
                if d1.len() < m1 {
                    if i < j1 <= src.len() {
                        lemma_f80_run_limits(src, j1, d1, m1, m2);
                    } else {
                        assert(d1 =~= d1.subrange(0, d1.len() as int));
                    }
                } else {
                    // The smaller limit is reached: the first run stops at `d1`.
                    assert(f80_run(src, m1, j1, d1) == d1);
                    assert(d1.len() <= m1);
                    if i < j2 <= src.len() {
                        lemma_f80_run_extends(src, m2, j2, d2);
                        lemma_prefix_trans(d1, d2, f80_run(src, m2, j2, d2));
                    }
                }
            },
        }
    }
}

/// Decoding the same Format80 data into fewer bytes gives a prefix of the longer output:
/// the first `m1` bytes do not depend on how many more are asked for.
pub proof fn lemma_format80_prefix(src: Seq<u8>, m1: nat, m2: nat)
    requires
        m1 <= m2,
    ensures
        spec_decode_format80(src, m1) == spec_decode_format80(src, m2).take(m1 as int),
{
    let e = Seq::<u8>::empty();
    lemma_f80_run_limits(src, 0, e, m1, m2);
    let r1 = f80_run(src, m1, 0, e);
    let r2 = f80_run(src, m2, 0, e);
    let p1 = spec_decode_format80(src, m1);
    let p2 = spec_decode_format80(src, m2);
    assert(p1.len() == m1 && p2.len() == m2);
    assert forall|k: int| 0 <= k < m1 implies p1[k] == p2[k] by {
        if k < r1.len() {
            assert(r1[k] == r2.subrange(0, r1.len() as int)[k]);
        }
    }
    assert(p1 =~= p2.take(m1 as int));
}

/// XOR-ing an overlay twice onto the same base gives the overlay back:
/// applying a delta frame is undone by applying it again.
pub proof fn lemma_xor_involution(a: Seq<u8>, b: Seq<u8>)
    requires
        b.len() <= a.len(),
    ensures
        spec_xor(a, spec_xor(a, b)) == b,
{
    let x = spec_xor(a, b);
    assert forall|k: int| 0 <= k < b.len() implies #[trigger] spec_xor(a, x)[k] == b[k] by {
        let p = a[k];
        let q = b[k];
        assert(p ^ (p ^ q) == q) by (bit_vector);
    }
    assert(spec_xor(a, x) =~= b);
}

/// The low 16 bits of a 24-bit little-endian value are the 16-bit value at the same offset.
pub proof fn lemma_u24_low_bits(d: Seq<u8>, o: int)
    requires
        0 <= o,
        o + 3 <= d.len(),
    ensures
        spec_u24(d, o) % 65536 == spec_u16(d, o),
{
}

/// Frame `k` of a decoded file has the width and height written at its data offset,
/// and exactly width * height pixels, whatever its format.
pub open spec fn frame_shape_ok(data: Seq<u8>, fs: Seq<FrameValue>, k: int) -> bool {
    &&& fs[k].0 == spec_u16(data, entry_offset(data, k))
    &&& fs[k].1 == spec_u16(data, entry_offset(data, k) + 2)
    &&& fs[k].2.len() == fs[k].0 as int * fs[k].1 as int
}

proof fn lemma_frames_shape(data: Seq<u8>, n: nat)
    ensures
        spec_decode_frames(data, n) matches Ok(fs) ==> {
            &&& fs.len() == n
            &&& forall|k: int| 0 <= k < n ==> #[trigger] frame_shape_ok(data, fs, k)
        },
    decreases n,
{
    if n > 0 {
        lemma_frames_shape(data, (n - 1) as nat);
        if let Ok(fs) = spec_decode_frames(data, n) {
            let prev = spec_decode_frames(data, (n - 1) as nat)->Ok_0;
            assert(fs == prev.push(spec_decode_frame(data, n - 1, prev)->Ok_0));
            assert forall|k: int| 0 <= k < n implies #[trigger] frame_shape_ok(data, fs, k) by {
                if k < n - 1 {
                    assert(frame_shape_ok(data, prev, k));
                    assert(fs[k] == prev[k]);
                    assert(k > 0 ==> fs[k - 1] == prev[k - 1]);
                } else {
                    let start = entry_offset(data, k);
                    let w = spec_u16(data, start);
                    let h = spec_u16(data, start + 2);
                    let count = (w * h) as nat;
                    lemma_format80_output_len(data.subrange(start + 4, data.len() as int), count);
                    lemma_format80_output_len(data.subrange(entry_ref_offset(data, k) + 4, data.len() as int), count);
                    assert(k > 0 ==> fs[k - 1] == prev[k - 1]);
                }
            }
        }
    }
}

/// A file that decodes has as many frames as its header announces, each with exactly
/// width * height pixels.
pub proof fn lemma_decoded_shape(data: Seq<u8>)
    ensures
        spec_decode(data) matches Ok(fs) ==> {
            &&& fs.len() == spec_num_images(data)
            &&& forall|k: int| 0 <= k < fs.len() ==> #[trigger] frame_shape_ok(data, fs, k)
        },
{
    lemma_frames_shape(data, spec_num_images(data));
}


proof fn lemma_frames_prefix(data: Seq<u8>, n: nat, k: int)
    requires
        0 <= k < n,
        spec_decode_frames(data, n) is Ok,
    ensures
        spec_decode_frames(data, (k + 1) as nat) is Ok,
        spec_decode_frames(data, (k + 1) as nat)->Ok_0 == spec_decode_frames(data, n)->Ok_0.take(k + 1),
    decreases n,
{
    lemma_frames_len(data, n);
    lemma_frames_len(data, (n - 1) as nat);
    if k == n - 1 {
        assert(spec_decode_frames(data, n)->Ok_0.take(k + 1) =~= spec_decode_frames(data, n)->Ok_0);
    } else {
        lemma_frames_prefix(data, (n - 1) as nat, k);
        let prev = spec_decode_frames(data, (n - 1) as nat)->Ok_0;
        assert(spec_decode_frames(data, n)->Ok_0 == prev.push(spec_decode_frame(data, n - 1, prev)->Ok_0));
        assert(prev.take(k + 1) =~= spec_decode_frames(data, n)->Ok_0.take(k + 1));
    }
}

/// The pixels of every frame of a decoded file, from the file's bytes: each frame's data
/// starts 4 bytes past its offset and is Format80-decoded into width * height bytes. A
/// frame of format 0x80 (or of an unknown format, or 0x20 as the first frame) is that
/// decoding; a frame of format 0x20 is it XOR-ed onto the previous frame; a frame of
/// format 0x40 is it XOR-ed with the Format80 decoding of the data 4 bytes past its own
/// reference offset, whatever the previous frames hold.
pub proof fn lemma_decoded_frame_pixels(data: Seq<u8>, k: int)
    requires
        spec_decode(data) is Ok,
        0 <= k < spec_decode(data)->Ok_0.len(),
    ensures
        ({
            let fs = spec_decode(data)->Ok_0;
            let start = entry_offset(data, k);
            let count = (fs[k].0 * fs[k].1) as nat;
            let own = spec_decode_format80(data.subrange(start + 4, data.len() as int), count);
            let format = entry_format(data, k);
            let r = entry_ref_offset(data, k);
            &&& count == 0 ==> fs[k].2 == Seq::<u8>::empty()
            &&& count > 0 && format == 0x40u8 ==> fs[k].2 == spec_xor(
                spec_decode_format80(data.subrange(r + 4, data.len() as int), count),
                own,
            )
            &&& count > 0 && format == 0x20u8 && k > 0 ==> fs[k].2 == spec_xor_onto(fs[k - 1].2, own)
            &&& count > 0 && format != 0x40u8 && !(format == 0x20u8 && k > 0) ==> fs[k].2 == own
        }),
{
    let n = spec_num_images(data);
    lemma_frames_len(data, n);
    lemma_frames_prefix(data, n, k);
    lemma_frames_len(data, k as nat);
    let fs = spec_decode(data)->Ok_0;
    let prev = spec_decode_frames(data, k as nat)->Ok_0;
    let upto = spec_decode_frames(data, (k + 1) as nat)->Ok_0;
    assert(upto == prev.push(spec_decode_frame(data, k, prev)->Ok_0));
    assert(upto[k] == fs[k]);
    if k > 0 {
        assert(prev[k - 1] == upto[k - 1]);
        assert(upto[k - 1] == fs[k - 1]);
    }
}


proof fn lemma_first_command_prefix(src: Seq<u8>, max: nat)
    requires
        src.len() > 0,
        max > 0,
        f80_command(src, max, 0, Seq::empty()) is Some,
    ensures
        f80_command(src, max, 0, Seq::empty())->Some_0.1.is_prefix_of(spec_decode_format80(src, max)),
{
    let e = Seq::<u8>::empty();
    let (j, d) = f80_command(src, max, 0, e)->Some_0;
    let run = f80_run(src, max, 0, e);
    lemma_f80_run_limits(src, 0, e, max, max);
    if 0 < j <= src.len() {
        lemma_f80_run_extends(src, max, j, d);
    } else {
        assert(d =~= d.subrange(0, d.len() as int));
    }
    assert(d.is_prefix_of(run));
    let out = spec_decode_format80(src, max);
    assert(run.len() <= max);
    assert(out == run + Seq::new((max - run.len()) as nat, |_j: int| 0u8)) by {
        if run.len() == max {
            assert(run.take(max as int) =~= run + Seq::new(0, |_j: int| 0u8));
        }
    }
    assert forall|n: int| 0 <= n < d.len() implies d[n] == out[n] by {
        assert(d[n] == run.subrange(0, d.len() as int)[n]);
    }
    assert(d =~= out.subrange(0, d.len() as int));
}

proof fn lemma_copy_literal_content(src: Seq<u8>, i: int, d: Seq<u8>, count: nat, max: nat)
    requires
        0 <= i <= src.len(),
        d.len() <= max,
    ensures
        ({
            let r = copy_literal(src, i, d, count, max).1;
            let m = if count <= src.len() - i { count as int } else { src.len() - i };
            let n = if m <= max - d.len() { m } else { max - d.len() };
            &&& r.len() == d.len() + n
            &&& r.subrange(0, d.len() as int) == d
            &&& forall|k: int| 0 <= k < n ==> #[trigger] r[d.len() + k] == src[i + k]
        }),
    decreases count,
{
    if count > 0 && d.len() < max && i < src.len() {
        lemma_copy_literal_content(src, i + 1, d.push(src[i]), (count - 1) as nat, max);
        let r = copy_literal(src, i, d, count, max).1;
        assert(r.subrange(0, d.len() + 1int) == d.push(src[i]));
        assert(r.subrange(0, d.len() as int) =~= d.push(src[i]).subrange(0, d.len() as int));
        let m = if count <= src.len() - i { count as int } else { src.len() - i };
        let n = if m <= max - d.len() { m } else { max - d.len() };
        assert forall|k: int| 0 <= k < n implies #[trigger] r[d.len() + k] == src[i + k] by {
            if k == 0 {
                assert(r[d.len() as int] == r.subrange(0, d.len() + 1int)[d.len() as int]);
            } else {
                assert(r[(d.len() + 1) + (k - 1)] == src[(i + 1) + (k - 1)]);
            }
        }
    } else {
        assert(d.subrange(0, d.len() as int) =~= d);
    }
}

/// Format80 data that ends at once (no data, the end command 0x80, or a zero literal
/// count) decodes to all zeros.
pub proof fn lemma_format80_empty(src: Seq<u8>, max: nat)
    requires
        src.len() == 0 || src[0] == 0x80u8 || src[0] == 0u8,
    ensures
        spec_decode_format80(src, max) == Seq::new(max, |_j: int| 0u8),
{
    assert(f80_run(src, max, 0, Seq::empty()) == Seq::<u8>::empty());
    assert(spec_decode_format80(src, max) =~= Seq::new(max, |_j: int| 0u8));
}

/// A long fill (0xFE, a 16-bit count, a value) at the start of Format80 data writes that
/// value as the first `count` bytes of the output (as far as the output goes).
pub proof fn lemma_format80_fill(src: Seq<u8>, max: nat)
    requires
        src.len() >= 4,
        src[0] == 0xFEu8,
    ensures
        forall|n: int|
            0 <= n < max && n < src[1] as int + 256 * (src[2] as int) ==> #[trigger] spec_decode_format80(src, max)[n]
                == src[3],
{
    if max > 0 {
        lemma_first_command_prefix(src, max);
        let c = spec_u16(src, 1);
        assert(c == src[1] as int + 256 * (src[2] as int));
        let d = f80_command(src, max, 0, Seq::empty())->Some_0.1;
        let out = spec_decode_format80(src, max);
        assert forall|n: int| 0 <= n < max && n < src[1] as int + 256 * (src[2] as int) implies #[trigger] out[n]
            == src[3] by {
            assert(d[n] == src[3]);
            assert(d[n] == out.subrange(0, d.len() as int)[n]);
        }
    }
}

/// A literal (a command 1 to 127 giving a count) at the start of Format80 data copies
/// the next `count` bytes of the data to the start of the output (as far as the data and
/// the output go).
pub proof fn lemma_format80_literal(src: Seq<u8>, max: nat)
    requires
        src.len() >= 1,
        0 < src[0] < 0x80u8,
    ensures
        forall|n: int|
            0 <= n < max && n < src[0] && 1 + n < src.len() ==> #[trigger] spec_decode_format80(src, max)[n] == src[1
                + n],
{
    if max > 0 {
        lemma_first_command_prefix(src, max);
        let e = Seq::<u8>::empty();
        lemma_copy_literal_content(src, 1, e, src[0] as nat, max);
        let d = f80_command(src, max, 0, e)->Some_0.1;
        assert(d == copy_literal(src, 1, e, src[0] as nat, max).1);
        let out = spec_decode_format80(src, max);
        assert forall|n: int| 0 <= n < max && n < src[0] && 1 + n < src.len() implies #[trigger] out[n] == src[1
            + n] by {
            assert(d[0 + n] == src[1 + n]);
            assert(d[n] == out.subrange(0, d.len() as int)[n]);
        }
    }
}

} // verus!
