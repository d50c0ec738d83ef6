//! Palette files (.pal): 256 entries of three bytes (R, G, B).

use vstd::prelude::*;
use vstd::string::StringExecFns;
use crate::text::{decimal, push_decimal};

verus! {

/// Number of bytes in a palette file: 256 entries of R, G, B.
pub const PALETTE_FILE_LEN: usize = 768;

/// Standard RA player color remap range (palette indices 80-95).
pub const REMAP_START: u8 = 80;

/// Last index of the standard RA player color remap range.
pub const REMAP_END: u8 = 95;

/// Standard player colors for RA (approximate): yellow, cyan, green, orange,
/// grey, red, blue, purple.
pub const PLAYER_COLORS: [[u8; 3]; 8] = [
    [255, 255, 0],
    [0, 255, 255],
    [0, 255, 0],
    [255, 128, 0],
    [128, 128, 128],
    [255, 0, 0],
    [0, 0, 255],
    [255, 0, 255],
];

/// A 256-color palette.
#[derive(Clone, Debug)]
pub struct Palette {
    /// 256 RGB entries. Each entry is [R, G, B].
    pub colors: [[u8; 3]; 256],
}

/// The 8-bit value a 6-bit palette component stands for: the value times four,
/// with its two top bits repeated as the two low bits. The two high bits of
/// the input are ignored.
pub open spec fn spec_scale_6bit(val: u8) -> u8 {
    let v = val % 64;
    (4 * v + v / 16) as u8
}

/// The message of the error returned for a palette file of `len` bytes.
pub open spec fn too_small_message(len: nat) -> Seq<char> {
    "Palette file too small: "@ + decimal(len) + " bytes (expected 768)"@
}

/// `p` holds the colors of `data` read as 6-bit components.
pub open spec fn decodes_6bit(p: Palette, data: Seq<u8>) -> bool {
    forall|i: int, c: int|
        0 <= i < 256 && 0 <= c < 3 ==> #[trigger] p.colors@[i]@[c] == spec_scale_6bit(data[3 * i + c])
}

/// `p` holds the colors of `data` read as 8-bit components.
pub open spec fn decodes_8bit(p: Palette, data: Seq<u8>) -> bool {
    forall|i: int, c: int| 0 <= i < 256 && 0 <= c < 3 ==> #[trigger] p.colors@[i]@[c] == data[3 * i + c]
}

/// Scale a 6-bit palette value (0-63) to 8-bit (0-255).
pub fn scale_6bit(val: u8) -> (r: u8)
    ensures
        r == spec_scale_6bit(val),
{
    let v = val & 0x3F;
    assert((val & 0x3F) == val % 64) by (bit_vector);
    assert(v < 64 ==> ((v << 2) | (v >> 4)) == 4 * v + v / 16) by (bit_vector);
    (v << 2) | (v >> 4)
}

fn too_small_error(len: usize) -> (m: String)
    ensures
        m@ == too_small_message(len as nat),
{
    let mut m = String::from_str("Palette file too small: ");
    push_decimal(&mut m, len as u64);
    m.append(" bytes (expected 768)");
    m
}

impl Palette {
    /// Parse a .pal file (768 bytes: 256 * 3 RGB) whose components are 6-bit values.
    pub fn from_bytes(data: &[u8]) -> (r: Result<Self, String>)
        ensures
            r is Err <==> data@.len() < 768,
            r matches Err(m) ==> m@ == too_small_message(data@.len()),
            r matches Ok(p) ==> decodes_6bit(p, data@),
    {
        if data.len() < PALETTE_FILE_LEN {
            return Err(too_small_error(data.len()));
        }
        let mut colors = [[0u8; 3]; 256];
        for i in 0..256usize
            invariant
                data@.len() >= 768,
                forall|j: int, c: int|
                    0 <= j < i && 0 <= c < 3 ==> #[trigger] colors@[j]@[c] == spec_scale_6bit(data@[3 * j + c]),
        {
            let base = i * 3;
            let entry = [scale_6bit(data[base]), scale_6bit(data[base + 1]), scale_6bit(data[base + 2])];
            colors[i] = entry;
            assert(colors@[i as int] == entry);
        }
        Ok(Palette { colors })
    }

    /// Parse a .pal file whose components are already 8-bit values.
    pub fn from_bytes_8bit(data: &[u8]) -> (r: Result<Self, String>)
        ensures
            r is Err <==> data@.len() < 768,
            r matches Err(m) ==> m@ == too_small_message(data@.len()),
            r matches Ok(p) ==> decodes_8bit(p, data@),
    {
        if data.len() < PALETTE_FILE_LEN {
            return Err(too_small_error(data.len()));
        }
        let mut colors = [[0u8; 3]; 256];
        for i in 0..256usize
            invariant
                data@.len() >= 768,
                forall|j: int, c: int| 0 <= j < i && 0 <= c < 3 ==> #[trigger] colors@[j]@[c] == data@[3 * j + c],
        {
            let base = i * 3;
            let entry = [data[base], data[base + 1], data[base + 2]];
            colors[i] = entry;
            assert(colors@[i as int] == entry);
        }
        Ok(Palette { colors })
    }

    /// Get an RGBA color (with alpha = 255, except index 0 which is transparent).
    pub fn rgba(&self, index: u8) -> (r: [u8; 4])
        ensures
            index == 0 ==> r@ == seq![0u8, 0u8, 0u8, 0u8],
            index != 0 ==> r@ == seq![
                self.colors@[index as int]@[0],
                self.colors@[index as int]@[1],
                self.colors@[index as int]@[2],
                255u8,
            ],
    {
        if index == 0 {
            let r = [0u8, 0, 0, 0];
            assert(r@ =~= seq![0u8, 0u8, 0u8, 0u8]);
            r
        } else {
            let c = self.colors[index as usize];
            let r = [c[0], c[1], c[2], 255u8];
            assert(r@ =~= seq![c@[0], c@[1], c@[2], 255u8]);
            r
        }
    }

    /// Apply a player color remap to a range of palette indices.
    /// Returns a new palette in which the entries from `remap_start` on are replaced
    /// by `player_colors`, as many as both the range and `player_colors` hold.
    pub fn with_remap(&self, remap_start: u8, remap_end: u8, player_colors: &[[u8; 3]]) -> (r: Self)
        requires
            remap_start <= remap_end,
            remap_end - remap_start < 255,
        ensures
            forall|i: int|
                0 <= i < 256 ==> #[trigger] r.colors@[i] == (if remap_start <= i < remap_start
                    + remap_end - remap_start + 1 && i - remap_start < player_colors@.len() {
                    player_colors@[i - remap_start]
                } else {
                    self.colors@[i]
                }),
    {
        let mut colors = self.colors;
        let range_len = (remap_end - remap_start + 1) as usize;
        let n = if player_colors.len() < range_len { player_colors.len() } else { range_len };
        for i in 0..n
            invariant
                n <= range_len,
                n <= player_colors@.len(),
                range_len == remap_end - remap_start + 1,
                remap_end < 256,
                forall|k: int|
                    0 <= k < 256 ==> #[trigger] colors@[k] == (if remap_start <= k < remap_start + i {
                        player_colors@[k - remap_start]
                    } else {
                        self.colors@[k]
                    }),
        {
            colors[remap_start as usize + i] = player_colors[i];
        }
        Palette { colors }
    }
}

/// Scaling 6-bit components keeps their order strictly: a darker component stays
/// darker, and distinct components stay distinct.
pub proof fn lemma_scale_6bit_monotonic(a: u8, b: u8)
    requires
        a < 64,
        b < 64,
        a <= b,
    ensures
        spec_scale_6bit(a) <= spec_scale_6bit(b),
        a < b ==> spec_scale_6bit(a) < spec_scale_6bit(b),
{
}

/// Scaling loses nothing: the top six bits of a scaled component give back the 6-bit value,
/// and the scale maps the full 6-bit range onto the full 8-bit range.
pub proof fn lemma_scale_6bit_exact(a: u8)
    requires
        a < 64,
    ensures
        spec_scale_6bit(a) / 4 == a,
        spec_scale_6bit(0) == 0,
        spec_scale_6bit(63) == 255,
{
}

/// A palette read with 6-bit scaling is the same file read as 8-bit values, each scaled.
pub proof fn lemma_6bit_is_scaled_8bit(p6: Palette, p8: Palette, data: Seq<u8>)
    requires
        decodes_6bit(p6, data),
        decodes_8bit(p8, data),
    ensures
        forall|i: int, c: int|
            0 <= i < 256 && 0 <= c < 3 ==> #[trigger] p6.colors@[i]@[c] == spec_scale_6bit(p8.colors@[i]@[c]),
{
    assert forall|i: int, c: int| 0 <= i < 256 && 0 <= c < 3 implies #[trigger] p6.colors@[i]@[c]
        == spec_scale_6bit(p8.colors@[i]@[c]) by {
        assert(p6.colors@[i]@[c] == spec_scale_6bit(data[3 * i + c]));
        assert(p8.colors@[i]@[c] == data[3 * i + c]);
    }
}

} // verus!
