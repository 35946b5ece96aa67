//! SCI0 picture resources: a stream of drawing commands, decoded into drawing
//! operations on the 320 x 190 picture viewport.

use crate::bits::{bit_at, read_bit};
use crate::graphics::{ega_colour, Colour, DrawOp};
use vstd::prelude::*;

verus! {

/// Width of the picture viewport.
pub const VIEWPORT_WIDTH: i32 = 320;

/// Height of the picture viewport.
pub const VIEWPORT_HEIGHT: i32 = 190;

/// Number of entries of one palette.
pub const PALETTE_SIZE: usize = 40;

/// A position on the picture.
#[derive(Clone, Copy, Debug, PartialEq, Eq, Structural)]
pub struct Point {
    pub x: i32,
    pub y: i32,
}

impl Point {
    /// The point moved by (`x`, `y`).
    pub fn offset(&self, x: i32, y: i32) -> (p: Point)
        requires
            i32::MIN <= self.x + x <= i32::MAX,
            i32::MIN <= self.y + y <= i32::MAX,
        ensures
            p.x == self.x + x,
            p.y == self.y + y,
    {
        Point { x: self.x + x, y: self.y + y }
    }
}

/// Two EGA colours drawn as a dither pattern.
#[derive(Clone, Copy, Debug, PartialEq, Eq, Structural)]
pub struct DitheredColour {
    pub c1: Colour,
    pub c2: Colour,
}

/// The dithered colour of EGA colours `c1` and `c2`.
pub open spec fn dithered(c1: int, c2: int) -> DitheredColour {
    DitheredColour { c1: ega_colour(c1), c2: ega_colour(c2) }
}

/// The average of the two colours of a dither, channel by channel, rounded down.
pub open spec fn spec_blend(d: DitheredColour) -> Colour {
    Colour {
        r: ((d.c1.r + d.c2.r) / 2) as u8,
        g: ((d.c1.g + d.c2.g) / 2) as u8,
        b: ((d.c1.b + d.c2.b) / 2) as u8,
    }
}

/// The EGA colour pairs of the default palette.
pub open spec fn default_palette_pairs() -> Seq<(u8, u8)> {
    seq![
        (0x0, 0x0), (0x1, 0x1), (0x2, 0x2), (0x3, 0x3), (0x4, 0x4), (0x5, 0x5), (0x6, 0x6),
        (0x7, 0x7), (0x8, 0x8), (0x9, 0x9), (0xa, 0xa), (0xb, 0xb), (0xc, 0xc), (0xd, 0xd),
        (0xe, 0xe), (0x8, 0x8), (0x8, 0x8), (0x0, 0x1), (0x0, 0x2), (0x0, 0x3), (0x0, 0x4),
        (0x0, 0x5), (0x0, 0x6), (0x8, 0x8), (0x8, 0x8), (0xf, 0x9), (0xf, 0xa), (0xf, 0xb),
        (0xf, 0xc), (0xf, 0xd), (0xf, 0xe), (0xf, 0xf), (0x0, 0x8), (0x9, 0x1), (0x2, 0xa),
        (0x3, 0xb), (0x4, 0xc), (0x5, 0xd), (0x6, 0xe), (0x8, 0x8),
    ]
}

/// The default palette.
pub open spec fn spec_default_palette() -> Seq<DitheredColour> {
    Seq::new(
        40,
        |i: int| dithered(default_palette_pairs()[i].0 as int, default_palette_pairs()[i].1 as int),
    )
}

impl DitheredColour {
    /// The average of the two colours, channel by channel, rounded down.
    pub fn blend(&self) -> (c: Colour)
        ensures
            c == spec_blend(*self),
    {
        Colour {
            r: ((self.c1.r as u16 + self.c2.r as u16) / 2) as u8,
            g: ((self.c1.g as u16 + self.c2.g as u16) / 2) as u8,
            b: ((self.c1.b as u16 + self.c2.b as u16) / 2) as u8,
        }
    }

    /// The dither of EGA colours `c1` and `c2`.
    pub fn from_ega(c1: u8, c2: u8) -> (d: DitheredColour)
        requires
            c1 < 16,
            c2 < 16,
        ensures
            d == dithered(c1 as int, c2 as int),
    {
        DitheredColour { c1: Colour::from_ega(c1), c2: Colour::from_ega(c2) }
    }

    /// The 40 entries of the default palette: the 15 plain EGA colours but white, then
    /// dark grey, dithers of black with the first colours, and of white and dark grey
    /// with the bright ones.
    pub fn default_palette() -> (p: Vec<DitheredColour>)
        ensures
            p@ == spec_default_palette(),
    {
        let pairs: Vec<(u8, u8)> = vec![
            (0x0, 0x0), (0x1, 0x1), (0x2, 0x2), (0x3, 0x3), (0x4, 0x4), (0x5, 0x5), (0x6, 0x6),
            (0x7, 0x7), (0x8, 0x8), (0x9, 0x9), (0xa, 0xa), (0xb, 0xb), (0xc, 0xc), (0xd, 0xd),
            (0xe, 0xe), (0x8, 0x8), (0x8, 0x8), (0x0, 0x1), (0x0, 0x2), (0x0, 0x3), (0x0, 0x4),
            (0x0, 0x5), (0x0, 0x6), (0x8, 0x8), (0x8, 0x8), (0xf, 0x9), (0xf, 0xa), (0xf, 0xb),
            (0xf, 0xc), (0xf, 0xd), (0xf, 0xe), (0xf, 0xf), (0x0, 0x8), (0x9, 0x1), (0x2, 0xa),
            (0x3, 0xb), (0x4, 0xc), (0x5, 0xd), (0x6, 0xe), (0x8, 0x8),
        ];
        assert(pairs@ == default_palette_pairs());
        let mut p: Vec<DitheredColour> = Vec::new();
        let mut i: usize = 0;
        while i < pairs.len()
            invariant
                pairs@ == default_palette_pairs(),
                i <= pairs@.len(),
                p@ == spec_default_palette().subrange(0, i as int),
            decreases pairs@.len() - i,
        {
            let (c1, c2) = pairs[i];
            p.push(DitheredColour::from_ega(c1, c2));
            i = i + 1;
            assert(p@ =~= spec_default_palette().subrange(0, i as int));
        }
        assert(p@ =~= spec_default_palette());
        p
    }
}

/// The dither that colour-pair byte `c` names: high nibble, then low nibble.
pub open spec fn colour_pair(c: u8) -> DitheredColour {
    dithered((c / 16) as int, (c % 16) as int)
}

/// Shapes of the pattern brush.
#[derive(Clone, Copy, Debug, PartialEq, Eq, Structural)]
pub enum BrushShape {
    Circle,
    Rectangle,
}

/// The brush that pattern commands draw with.
#[derive(Clone, Copy, Debug, PartialEq, Eq, Structural)]
pub struct PatternBrush {
    pub size: i32,
    pub shape: BrushShape,
    pub use_texture: bool,
}

/// The brush that pattern byte `p` describes: bit 4 rectangle, bit 5 textured, the
/// low 3 bits the size.
pub open spec fn spec_brush(p: u8) -> PatternBrush {
    PatternBrush {
        size: (p % 8) as i32,
        shape: if (p / 16) % 2 == 1 {
            BrushShape::Rectangle
        } else {
            BrushShape::Circle
        },
        use_texture: (p / 32) % 2 == 1,
    }
}

/// The coordinates that the three bytes at `pos` give: the high nibbles of x and y
/// in the first byte, their low bytes in the next two.
pub open spec fn spec_coordinates(data: Seq<u8>, pos: int) -> (int, int) {
    ((data[pos] / 16) * 256 + data[pos + 1], (data[pos] % 16) * 256 + data[pos + 2])
}

/// The (x, y) offset that the two bytes at `pos` give: first y (values from 128 on
/// counting down from 0 as 128 - value), then x (two's complement).
pub open spec fn spec_relative_offset(data: Seq<u8>, pos: int) -> (int, int) {
    let vy = data[pos] as int;
    let vx = data[pos + 1] as int;
    (if vx >= 128 { vx - 256 } else { vx }, if vy >= 128 { 128 - vy } else { vy })
}

/// The (x, y) offset that byte `v` gives: a sign bit and 3 bits for x in the high
/// nibble, the same for y in the low nibble.
pub open spec fn spec_short_offset(v: u8) -> (int, int) {
    let x = (v / 16) as int;
    let y = (v % 16) as int;
    (if x >= 8 { -(x - 8) } else { x }, if y >= 8 { -(y - 8) } else { y })
}

/// A short offset byte holds x in its high nibble and y in its low nibble, each as
/// a sign bit over a 3-bit magnitude: the magnitude of x is bits 4 to 6 and x is
/// negative only where bit 7 is set; the magnitude of y is bits 0 to 2 and y is
/// negative only where bit 3 is set.
pub proof fn lemma_short_offset(v: u8)
    ensures
        ({
            let (ox, oy) = spec_short_offset(v);
            &&& abs_diff(ox, 0) == ((v >> 4u8) & 7u8) as int
            &&& abs_diff(oy, 0) == (v & 7u8) as int
            &&& (v & 0x80u8 == 0 ==> ox >= 0) && (ox < 0 ==> v & 0x80u8 != 0)
            &&& (v & 0x08u8 == 0 ==> oy >= 0) && (oy < 0 ==> v & 0x08u8 != 0)
            &&& ((v & 0x80u8) != 0 ==> ox <= 0) && ((v & 0x08u8) != 0 ==> oy <= 0)
        }),
{
    assert(((v >> 4u8) & 7u8) == (v / 16) % 8 && (v & 7u8) == (v % 16) % 8) by (bit_vector);
    assert((v & 0x80u8 == 0) == (v / 16 < 8) && (v & 0x08u8 == 0) == (v % 16 < 8)) by (bit_vector);
}

/// A relative offset is two bytes, y first: x is the second byte read as a signed
/// (two's complement) byte, and y is the first byte's low 7 bits, negated where its
/// top bit is set.
pub proof fn lemma_relative_offset(data: Seq<u8>, pos: int)
    requires
        0 <= pos,
        pos + 2 <= data.len(),
    ensures
        ({
            let (ox, oy) = spec_relative_offset(data, pos);
            &&& ox == (#[verifier::truncate] (data[pos + 1] as i8)) as int
            &&& oy == if data[pos] & 0x80u8 != 0 {
                -((data[pos] & 0x7fu8) as int)
            } else {
                data[pos] as int
            }
        }),
{
    let vy = data[pos];
    let vx = data[pos + 1];
    assert((vy & 0x80u8 != 0) == (vy >= 128) && (vy >= 128 ==> (vy & 0x7fu8) == vy - 128)) by (bit_vector);
    assert(vx >= 128u8 ==> ((#[verifier::truncate] (vx as i8)) as i16) == (vx as i16) - 256i16) by (bit_vector);
    assert(vx < 128u8 ==> ((#[verifier::truncate] (vx as i8)) as i16) == vx as i16) by (bit_vector);
}

/// A colour-pair byte gives the first EGA colour of the dither in its high nibble
/// and the second in its low nibble.
pub proof fn lemma_colour_pair(c: u8)
    ensures
        colour_pair(c) == dithered((c >> 4u8) as int, (c & 0x0fu8) as int),
{
    assert((c >> 4u8) == c / 16 && (c & 0x0fu8) == c % 16) by (bit_vector);
}

/// Reads the picture data from the front.
pub struct Deserializer<'a> {
    pub index: usize,
    pub data: &'a [u8],
}

impl<'a> Deserializer<'a> {
    /// A reader at the start of `data`.
    pub fn new(data: &'a [u8]) -> (d: Deserializer<'a>)
        ensures
            d.index == 0,
            d.data@ == data@,
    {
        Deserializer { index: 0, data }
    }

    /// The next byte; `None` at the end of the data.
    pub fn read_byte(&mut self) -> (v: Option<u8>)
        ensures
            final(self).data@ == old(self).data@,
            old(self).index < old(self).data@.len() ==> v == Some(
                old(self).data@[old(self).index as int],
            ) && final(self).index == old(self).index + 1,
            old(self).index >= old(self).data@.len() ==> v is None && final(self).index
                == old(self).index,
    {
        if self.index < self.data.len() {
            let v = self.data[self.index];
            self.index = self.index + 1;
            Some(v)
        } else {
            None
        }
    }

    /// Whether the next byte is a command (0xf0 or above); `None` at the end of the data.
    pub fn next_is_command(&self) -> (b: Option<bool>)
        ensures
            self.index < self.data@.len() ==> b == Some(self.data@[self.index as int] >= 0xf0),
            self.index >= self.data@.len() ==> b is None,
    {
        if self.index < self.data.len() {
            Some(self.data[self.index] >= 0xf0)
        } else {
            None
        }
    }

    /// The next byte, a texture number.
    pub fn read_texture(&mut self) -> (v: Option<u8>)
        ensures
            final(self).data@ == old(self).data@,
            old(self).index < old(self).data@.len() ==> v == Some(
                old(self).data@[old(self).index as int],
            ) && final(self).index == old(self).index + 1,
            old(self).index >= old(self).data@.len() ==> v is None && final(self).index
                == old(self).index,
    {
        self.read_byte()
    }

    /// The brush that the next byte describes.
    pub fn read_pattern_brush(&mut self) -> (b: Option<PatternBrush>)
        ensures
            final(self).data@ == old(self).data@,
            old(self).index < old(self).data@.len() ==> b == Some(
                spec_brush(old(self).data@[old(self).index as int]),
            ) && final(self).index == old(self).index + 1,
            old(self).index >= old(self).data@.len() ==> b is None,
    {
        match self.read_byte() {
            Some(p) => Some(
                PatternBrush {
                    shape: if (p / 16) % 2 == 1 {
                        BrushShape::Rectangle
                    } else {
                        BrushShape::Circle
                    },
                    use_texture: (p / 32) % 2 == 1,
                    size: (p % 8) as i32,
                },
            ),
            None => None,
        }
    }

    /// The palette number and the index in that palette that the next byte names.
    pub fn read_palette_entry(&mut self) -> (e: Option<(usize, usize)>)
        ensures
            final(self).data@ == old(self).data@,
            old(self).index < old(self).data@.len() ==> e == Some(
                (
                    (old(self).data@[old(self).index as int] / 40) as usize,
                    (old(self).data@[old(self).index as int] % 40) as usize,
                ),
            ) && final(self).index == old(self).index + 1,
            old(self).index >= old(self).data@.len() ==> e is None,
    {
        match self.read_byte() {
            Some(v) => Some((v as usize / PALETTE_SIZE, v as usize % PALETTE_SIZE)),
            None => None,
        }
    }

    /// The dithered colour that the next byte names.
    pub fn read_colour_pair(&mut self) -> (c: Option<DitheredColour>)
        ensures
            final(self).data@ == old(self).data@,
            old(self).index < old(self).data@.len() ==> c == Some(
                colour_pair(old(self).data@[old(self).index as int]),
            ) && final(self).index == old(self).index + 1,
            old(self).index >= old(self).data@.len() ==> c is None,
    {
        match self.read_byte() {
            Some(c) => Some(DitheredColour::from_ega(c / 16, c % 16)),
            None => None,
        }
    }

    /// The coordinates that the next three bytes give.
    pub fn read_coordinates(&mut self) -> (p: Option<Point>)
        ensures
            final(self).data@ == old(self).data@,
            old(self).index + 3 <= old(self).data@.len() ==> {
                let (x, y) = spec_coordinates(old(self).data@, old(self).index as int);
                &&& p matches Some(p) && p.x == x && p.y == y
                &&& final(self).index == old(self).index + 3
            },
            old(self).index + 3 > old(self).data@.len() ==> p is None,
    {
        if self.index >= self.data.len() || self.data.len() - self.index < 3 {
            return None;
        }
        let upper = self.data[self.index] as i32;
        let lower_x = self.data[self.index + 1] as i32;
        let lower_y = self.data[self.index + 2] as i32;
        self.index = self.index + 3;
        Some(Point { x: (upper / 16) * 256 + lower_x, y: (upper % 16) * 256 + lower_y })
    }

    /// The offset that the next two bytes give.
    pub fn read_relative_offset(&mut self) -> (o: Option<(i32, i32)>)
        ensures
            final(self).data@ == old(self).data@,
            old(self).index + 2 <= old(self).data@.len() ==> {
                let (x, y) = spec_relative_offset(old(self).data@, old(self).index as int);
                &&& o matches Some(o) && o.0 == x && o.1 == y
                &&& final(self).index == old(self).index + 2
            },
            old(self).index + 2 > old(self).data@.len() ==> o is None,
    {
        if self.index >= self.data.len() || self.data.len() - self.index < 2 {
            return None;
        }
        let value_y = self.data[self.index] as i32;
        let value_x = self.data[self.index + 1] as i32;
        self.index = self.index + 2;
        let offset_y = if value_y >= 128 {
            128 - value_y
        } else {
            value_y
        };
        let offset_x = if value_x >= 128 {
            value_x - 256
        } else {
            value_x
        };
        Some((offset_x, offset_y))
    }

    /// The offset that the next byte gives.
    pub fn read_short_relative_offset(&mut self) -> (o: Option<(i32, i32)>)
        ensures
            final(self).data@ == old(self).data@,
            old(self).index < old(self).data@.len() ==> {
                let (x, y) = spec_short_offset(old(self).data@[old(self).index as int]);
                &&& o matches Some(o) && o.0 == x && o.1 == y
                &&& final(self).index == old(self).index + 1
            },
            old(self).index >= old(self).data@.len() ==> o is None,
    {
        match self.read_byte() {
            Some(v) => {
                let x = (v / 16) as i32;
                let y = (v % 16) as i32;
                let offset_x = if x >= 8 {
                    -(x - 8)
                } else {
                    x
                };
                let offset_y = if y >= 8 {
                    -(y - 8)
                } else {
                    y
                };
                Some((offset_x, offset_y))
            },
            None => None,
        }
    }

    /// Moves past `num` bytes without reading them.
    pub fn skip(&mut self, num: usize)
        requires
            old(self).index + num <= usize::MAX,
        ensures
            final(self).data@ == old(self).data@,
            final(self).index == old(self).index + num,
    {
        self.index = self.index + num;
    }
}

// ---------------------------------------------------------------------------
// Commands.

/// The picture commands, numbered 0xf0 to 0xff in this order.
#[derive(Clone, Copy, Debug, PartialEq, Eq, Structural)]
pub enum PictureCommand {
    SetVisualColour,
    DisableVisual,
    SetPriorityColour,
    DisablePriority,
    DrawShortRelativePatterns,
    DrawRelativeLines,
    DrawAbsoluteLines,
    DrawShortRelativeLines,
    FloodFill,
    SetPattern,
    DrawAbsolutePatterns,
    SetControlColour,
    DisableControl,
    DrawRelativePatterns,
    ExtendedCommand,
    Finish,
}

/// The command that byte `v` names.
pub open spec fn spec_command(v: u8) -> Option<PictureCommand> {
    if v == 0xf0 { Some(PictureCommand::SetVisualColour) }
    else if v == 0xf1 { Some(PictureCommand::DisableVisual) }
    else if v == 0xf2 { Some(PictureCommand::SetPriorityColour) }
    else if v == 0xf3 { Some(PictureCommand::DisablePriority) }
    else if v == 0xf4 { Some(PictureCommand::DrawShortRelativePatterns) }
    else if v == 0xf5 { Some(PictureCommand::DrawRelativeLines) }
    else if v == 0xf6 { Some(PictureCommand::DrawAbsoluteLines) }
    else if v == 0xf7 { Some(PictureCommand::DrawShortRelativeLines) }
    else if v == 0xf8 { Some(PictureCommand::FloodFill) }
    else if v == 0xf9 { Some(PictureCommand::SetPattern) }
    else if v == 0xfa { Some(PictureCommand::DrawAbsolutePatterns) }
    else if v == 0xfb { Some(PictureCommand::SetControlColour) }
    else if v == 0xfc { Some(PictureCommand::DisableControl) }
    else if v == 0xfd { Some(PictureCommand::DrawRelativePatterns) }
    else if v == 0xfe { Some(PictureCommand::ExtendedCommand) }
    else if v == 0xff { Some(PictureCommand::Finish) }
    else { None }
}

impl PictureCommand {
    /// The command with byte `v`; `None` below 0xf0.
    pub fn from_u8(v: u8) -> (c: Option<PictureCommand>)
        ensures
            c == spec_command(v),
    {
        match v {
            0xf0 => Some(PictureCommand::SetVisualColour),
            0xf1 => Some(PictureCommand::DisableVisual),
            0xf2 => Some(PictureCommand::SetPriorityColour),
            0xf3 => Some(PictureCommand::DisablePriority),
            0xf4 => Some(PictureCommand::DrawShortRelativePatterns),
            0xf5 => Some(PictureCommand::DrawRelativeLines),
            0xf6 => Some(PictureCommand::DrawAbsoluteLines),
            0xf7 => Some(PictureCommand::DrawShortRelativeLines),
            0xf8 => Some(PictureCommand::FloodFill),
            0xf9 => Some(PictureCommand::SetPattern),
            0xfa => Some(PictureCommand::DrawAbsolutePatterns),
            0xfb => Some(PictureCommand::SetControlColour),
            0xfc => Some(PictureCommand::DisableControl),
            0xfd => Some(PictureCommand::DrawRelativePatterns),
            0xfe => Some(PictureCommand::ExtendedCommand),
            0xff => Some(PictureCommand::Finish),
            _ => None,
        }
    }
}

/// The extended picture commands, numbered 0 to 6 in this order.
#[derive(Clone, Copy, Debug, PartialEq, Eq, Structural)]
pub enum ExtendedCommand {
    SetPaletteEntry,
    SetPalette,
    SetMonoPalette,
    SetVisualMono,
    DisableVisualMono,
    SetDirectMonoVisual,
    DisableDirectMonoVisual,
}

/// The extended command that byte `v` names.
pub open spec fn spec_extended_command(v: u8) -> Option<ExtendedCommand> {
    if v == 0 { Some(ExtendedCommand::SetPaletteEntry) }
    else if v == 1 { Some(ExtendedCommand::SetPalette) }
    else if v == 2 { Some(ExtendedCommand::SetMonoPalette) }
    else if v == 3 { Some(ExtendedCommand::SetVisualMono) }
    else if v == 4 { Some(ExtendedCommand::DisableVisualMono) }
    else if v == 5 { Some(ExtendedCommand::SetDirectMonoVisual) }
    else if v == 6 { Some(ExtendedCommand::DisableDirectMonoVisual) }
    else { None }
}

impl ExtendedCommand {
    /// The extended command with byte `v`; `None` past 6.
    pub fn from_u8(v: u8) -> (c: Option<ExtendedCommand>)
        ensures
            c == spec_extended_command(v),
    {
        match v {
            0 => Some(ExtendedCommand::SetPaletteEntry),
            1 => Some(ExtendedCommand::SetPalette),
            2 => Some(ExtendedCommand::SetMonoPalette),
            3 => Some(ExtendedCommand::SetVisualMono),
            4 => Some(ExtendedCommand::DisableVisualMono),
            5 => Some(ExtendedCommand::SetDirectMonoVisual),
            6 => Some(ExtendedCommand::DisableDirectMonoVisual),
            _ => None,
        }
    }
}

impl<'a> Deserializer<'a> {
    /// The next command; `None` at the end of the data or for a byte below 0xf0.
    pub fn read_command(&mut self) -> (c: Option<PictureCommand>)
        ensures
            final(self).data@ == old(self).data@,
            old(self).index < old(self).data@.len() ==> final(self).index == old(self).index + 1
                && c == spec_command(old(self).data@[old(self).index as int]),
            old(self).index >= old(self).data@.len() ==> c is None,
    {
        match self.read_byte() {
            Some(v) => PictureCommand::from_u8(v),
            None => None,
        }
    }

    /// The next extended command; `None` at the end of the data or past 6.
    pub fn read_extended_command(&mut self) -> (c: Option<ExtendedCommand>)
        ensures
            final(self).data@ == old(self).data@,
            old(self).index < old(self).data@.len() ==> final(self).index == old(self).index + 1
                && c == spec_extended_command(old(self).data@[old(self).index as int]),
            old(self).index >= old(self).data@.len() ==> c is None,
    {
        match self.read_byte() {
            Some(v) => ExtendedCommand::from_u8(v),
            None => None,
        }
    }
}

// ---------------------------------------------------------------------------
// Pattern brushes.

/// The bits that textured patterns are drawn with.
pub open spec fn texture_data() -> Seq<u8> {
    seq![
        0x20u8, 0x94, 0x02, 0x24, 0x90, 0x82, 0xa4, 0xa2, 0x82, 0x09, 0x0a, 0x22, 0x12, 0x10,
        0x42, 0x14, 0x91, 0x4a, 0x91, 0x11, 0x08, 0x12, 0x25, 0x10, 0x22, 0xa8, 0x14, 0x24,
        0x00, 0x50, 0x24, 0x04,
    ]
}

/// The bit at which each texture number (halved) starts reading the texture bits.
pub open spec fn pattern_mapping() -> Seq<u32> {
    seq![
        0x00u32, 0x18, 0x30, 0xc4, 0xdc, 0x65, 0xeb, 0x48, 0x60, 0xbd, 0x89, 0x04, 0x0a, 0xf4,
        0x7d, 0x6d, 0x85, 0xb0, 0x8e, 0x95, 0x1f, 0x22, 0x0d, 0xdf, 0x2a, 0x78, 0xd5, 0x73,
        0x1c, 0xb4, 0x40, 0xa1, 0xb9, 0x3c, 0xca, 0x58, 0x92, 0x34, 0xcc, 0xce, 0xd7, 0x42,
        0x90, 0x0f, 0x8b, 0x7f, 0x32, 0xed, 0x5c, 0x9d, 0xc8, 0x99, 0xad, 0x4e, 0x56, 0xa6,
        0xf7, 0x68, 0xb7, 0x25, 0x82, 0x37, 0x3a, 0x51, 0x69, 0x26, 0x38, 0x52, 0x9e, 0x9a,
        0x4f, 0xa7, 0x43, 0x10, 0x80, 0xee, 0x3d, 0x59, 0x35, 0xcf, 0x79, 0x74, 0xb5, 0xa2,
        0xb1, 0x96, 0x23, 0xe0, 0xbe, 0x05, 0xf5, 0x6e, 0x19, 0xc5, 0x66, 0x49, 0xf0, 0xd1,
        0x54, 0xa9, 0x70, 0x4b, 0xa4, 0xe2, 0xe6, 0xe5, 0xab, 0xe4, 0xd2, 0xaa, 0x4c, 0xe3,
        0x06, 0x6f, 0xc6, 0x4a, 0x75, 0xa3, 0x97, 0xe1,
    ]
}

/// The half-widths of the rows of the circle brush of each size.
pub open spec fn pattern_widths() -> Seq<Seq<i32>> {
    seq![
        seq![0i32, 0, 0, 0, 0, 0, 0, 0, 0, 0, 0, 0, 0, 0, 0],
        seq![0i32, 1, 0, 0, 0, 0, 0, 0, 0, 0, 0, 0, 0, 0, 0],
        seq![1i32, 2, 2, 2, 1, 0, 0, 0, 0, 0, 0, 0, 0, 0, 0],
        seq![1i32, 2, 3, 3, 3, 2, 1, 0, 0, 0, 0, 0, 0, 0, 0],
        seq![1i32, 3, 4, 4, 4, 4, 4, 3, 1, 0, 0, 0, 0, 0, 0],
        seq![1i32, 3, 4, 4, 5, 5, 5, 4, 4, 3, 2, 0, 0, 0, 0],
        seq![2i32, 4, 5, 5, 6, 6, 6, 6, 6, 5, 5, 4, 2, 0, 0],
        seq![2i32, 4, 5, 6, 6, 7, 7, 7, 7, 7, 6, 6, 5, 4, 2],
    ]
}

/// The texture bits as bytes.
fn texture_bytes() -> (t: Vec<u8>)
    ensures
        t@ == texture_data(),
{
    let t: Vec<u8> = vec![
        0x20u8, 0x94, 0x02, 0x24, 0x90, 0x82, 0xa4, 0xa2, 0x82, 0x09, 0x0a, 0x22, 0x12, 0x10,
        0x42, 0x14, 0x91, 0x4a, 0x91, 0x11, 0x08, 0x12, 0x25, 0x10, 0x22, 0xa8, 0x14, 0x24,
        0x00, 0x50, 0x24, 0x04,
    ];
    assert(t@ == texture_data());
    t
}

/// Entry `i` of the texture start table.
fn pattern_mapping_at(i: usize) -> (v: u32)
    requires
        i < 120,
    ensures
        v == pattern_mapping()[i as int],
        v < 255,
{
    let m: Vec<u32> = vec![
        0x00u32, 0x18, 0x30, 0xc4, 0xdc, 0x65, 0xeb, 0x48, 0x60, 0xbd, 0x89, 0x04, 0x0a, 0xf4,
        0x7d, 0x6d, 0x85, 0xb0, 0x8e, 0x95, 0x1f, 0x22, 0x0d, 0xdf, 0x2a, 0x78, 0xd5, 0x73,
        0x1c, 0xb4, 0x40, 0xa1, 0xb9, 0x3c, 0xca, 0x58, 0x92, 0x34, 0xcc, 0xce, 0xd7, 0x42,
        0x90, 0x0f, 0x8b, 0x7f, 0x32, 0xed, 0x5c, 0x9d, 0xc8, 0x99, 0xad, 0x4e, 0x56, 0xa6,
        0xf7, 0x68, 0xb7, 0x25, 0x82, 0x37, 0x3a, 0x51, 0x69, 0x26, 0x38, 0x52, 0x9e, 0x9a,
        0x4f, 0xa7, 0x43, 0x10, 0x80, 0xee, 0x3d, 0x59, 0x35, 0xcf, 0x79, 0x74, 0xb5, 0xa2,
        0xb1, 0x96, 0x23, 0xe0, 0xbe, 0x05, 0xf5, 0x6e, 0x19, 0xc5, 0x66, 0x49, 0xf0, 0xd1,
        0x54, 0xa9, 0x70, 0x4b, 0xa4, 0xe2, 0xe6, 0xe5, 0xab, 0xe4, 0xd2, 0xaa, 0x4c, 0xe3,
        0x06, 0x6f, 0xc6, 0x4a, 0x75, 0xa3, 0x97, 0xe1,
    ];
    assert(m@ == pattern_mapping());
    m[i]
}

/// The half-widths of the rows of the circle brush of size `size`.
fn circle_widths(size: usize) -> (w: Vec<i32>)
    requires
        size < 8,
    ensures
        w@ == pattern_widths()[size as int],
{
    let w: Vec<i32> = match size {
        0 => vec![0i32, 0, 0, 0, 0, 0, 0, 0, 0, 0, 0, 0, 0, 0, 0],
        1 => vec![0i32, 1, 0, 0, 0, 0, 0, 0, 0, 0, 0, 0, 0, 0, 0],
        2 => vec![1i32, 2, 2, 2, 1, 0, 0, 0, 0, 0, 0, 0, 0, 0, 0],
        3 => vec![1i32, 2, 3, 3, 3, 2, 1, 0, 0, 0, 0, 0, 0, 0, 0],
        4 => vec![1i32, 3, 4, 4, 4, 4, 4, 3, 1, 0, 0, 0, 0, 0, 0],
        5 => vec![1i32, 3, 4, 4, 5, 5, 5, 4, 4, 3, 2, 0, 0, 0, 0],
        6 => vec![2i32, 4, 5, 5, 6, 6, 6, 6, 6, 5, 5, 4, 2, 0, 0],
        _ => vec![2i32, 4, 5, 6, 6, 7, 7, 7, 7, 7, 6, 6, 5, 4, 2],
    };
    assert(w@ == pattern_widths()[size as int]);
    w
}

/// Where the `k`-th texture bit of a pattern is read: reading starts at `start` and
/// wraps from bit 255 back to bit 0.
pub open spec fn texture_bit(start: int, k: int) -> bool {
    bit_at(texture_data(), (start + k) % 255)
}

/// The bit at which a pattern with texture `texture` starts reading.
pub open spec fn texture_start(texture: Option<u8>) -> int {
    match texture {
        Some(t) => pattern_mapping()[(t / 2) as int] as int,
        None => 0,
    }
}

/// The `k`-th cell that a pattern visits is drawn.
pub open spec fn cell_drawn(brush: PatternBrush, start: int, k: int) -> bool {
    !brush.use_texture || texture_bit(start, k)
}

/// The points of row `row` of a circle pattern from column `xo` to `w`, the first
/// being the `k`-th cell visited.
pub open spec fn circle_row_ops(
    cx: int,
    cy: int,
    brush: PatternBrush,
    start: int,
    row: int,
    xo: int,
    w: int,
    k: int,
) -> Seq<DrawOp>
    decreases w + 1 - xo,
{
    if xo > w {
        Seq::empty()
    } else {
        (if cell_drawn(brush, start, k) {
            seq![DrawOp::Point((cx + xo) as i32, (cy + row - brush.size) as i32)]
        } else {
            Seq::empty()
        }) + circle_row_ops(cx, cy, brush, start, row, xo + 1, w, k + 1)
    }
}

/// The points of the rows of a circle pattern from `row` on.
pub open spec fn circle_rows_ops(
    cx: int,
    cy: int,
    brush: PatternBrush,
    start: int,
    row: int,
    k: int,
) -> Seq<DrawOp>
    decreases 2 * brush.size + 1 - row,
{
    if row < 0 || row > 2 * brush.size || brush.size >= 8 || brush.size < 0 {
        Seq::empty()
    } else {
        let w = pattern_widths()[brush.size as int][row] as int;
        circle_row_ops(cx, cy, brush, start, row, -w, w, k) + circle_rows_ops(
            cx,
            cy,
            brush,
            start,
            row + 1,
            k + 2 * w + 1,
        )
    }
}

/// The points of row `dy` of a rectangle pattern from column `dx` on.
pub open spec fn rect_row_ops(
    cx: int,
    cy: int,
    brush: PatternBrush,
    start: int,
    dy: int,
    dx: int,
    k: int,
) -> Seq<DrawOp>
    decreases brush.size + 2 - dx,
{
    if dx > brush.size + 1 {
        Seq::empty()
    } else {
        (if cell_drawn(brush, start, k) {
            seq![DrawOp::Point((cx + dx) as i32, (cy + dy) as i32)]
        } else {
            Seq::empty()
        }) + rect_row_ops(cx, cy, brush, start, dy, dx + 1, k + 1)
    }
}

/// The points of the rows of a rectangle pattern from row `dy` on.
pub open spec fn rect_rows_ops(cx: int, cy: int, brush: PatternBrush, start: int, dy: int, k: int) -> Seq<
    DrawOp,
>
    decreases brush.size + 1 - dy,
{
    if dy > brush.size {
        Seq::empty()
    } else {
        rect_row_ops(cx, cy, brush, start, dy, -brush.size, k) + rect_rows_ops(
            cx,
            cy,
            brush,
            start,
            dy + 1,
            k + 2 * brush.size + 2,
        )
    }
}

/// `v` kept within `lo ..= hi`, as `v.max(lo).min(hi)`.
pub open spec fn clamp(v: int, lo: int, hi: int) -> int {
    let m = if v > lo { v } else { lo };
    if m < hi { m } else { hi }
}

/// The points that a pattern at (`x`, `y`) draws: the brush is moved inside the
/// viewport, and with a texture only the cells whose texture bit is set are drawn.
/// `None` for a texture number past the start table.
pub open spec fn spec_pattern_ops(x: int, y: int, brush: PatternBrush, texture: Option<u8>) -> Option<
    Seq<DrawOp>,
> {
    if texture matches Some(t) && t / 2 >= 120 {
        None
    } else {
        let size = brush.size as int;
        let cx = clamp(x, size, VIEWPORT_WIDTH - size - 1);
        let cy = clamp(y, size, VIEWPORT_HEIGHT - size - 1);
        let start = texture_start(texture);
        Some(
            match brush.shape {
                BrushShape::Rectangle => rect_rows_ops(cx, cy, brush, start, -size, 0),
                BrushShape::Circle => circle_rows_ops(cx, cy, brush, start, 0, 0),
            },
        )
    }
}

/// A reader of the texture bits that wraps from bit 255 back to bit 0.
pub struct TextureReader {
    pub data: Vec<u8>,
    pub position: u32,
}

impl TextureReader {
    /// A reader positioned at the start bit of texture `texture` (bit 0 without one);
    /// `None` for a texture number past the start table.
    pub fn new(texture: Option<u8>) -> (r: Option<TextureReader>)
        ensures
            r is Some <==> !(texture matches Some(t) && t / 2 >= 120),
            r matches Some(r) ==> r.data@ == texture_data() && r.position == texture_start(texture)
                && r.position < 255,
    {
        let data = texture_bytes();
        match texture {
            Some(texture_number) => {
                let mapping_idx = texture_number / 2;
                if mapping_idx >= 120 {
                    return None;
                }
                let offset = pattern_mapping_at(mapping_idx as usize);
                Some(TextureReader { data, position: offset })
            },
            None => Some(TextureReader { data, position: 0 }),
        }
    }

    /// Goes back to bit 0 when at bit 255.
    pub fn wrap(&mut self)
        ensures
            final(self).data@ == old(self).data@,
            final(self).position == if old(self).position == 255 {
                0
            } else {
                old(self).position
            },
    {
        if self.position == 255 {
            self.position = 0;
        }
    }

    /// The bit at the current position, moving past it.
    pub fn read_bit(&mut self) -> (b: bool)
        requires
            old(self).data@ == texture_data(),
            old(self).position < 255,
        ensures
            final(self).data@ == old(self).data@,
            final(self).position == old(self).position + 1,
            b == bit_at(texture_data(), old(self).position as int),
    {
        let b = read_bit(self.data.as_slice(), (self.position / 8) as usize, (self.position % 8) as u8);
        self.position = self.position + 1;
        b
    }
}

/// Where the texture reader stands before the `k`-th cell of a pattern: it moves
/// only when the brush is textured, and after bit 254 it stands at 255.
pub open spec fn reader_position(brush: PatternBrush, start: int, k: int) -> int {
    if !brush.use_texture || k == 0 {
        start
    } else {
        (start + k - 1) % 255 + 1
    }
}

proof fn lemma_texture_wrap(start: int, k: int)
    requires
        0 <= start < 255,
        0 <= k,
    ensures
        ({
            let p = if k == 0 { start } else { (start + k - 1) % 255 + 1 };
            &&& 0 <= p <= 255
            &&& (if p == 255 { 0 } else { p }) == (start + k) % 255
        }),
{
    if k > 0 {
        let a = start + k - 1;
        let q = a / 255;
        let r = a % 255;
        vstd::arithmetic::div_mod::lemma_fundamental_div_mod(a, 255);
        if r + 1 < 255 {
            vstd::arithmetic::div_mod::lemma_fundamental_div_mod_converse(a + 1, 255, q, r + 1);
        } else {
            vstd::arithmetic::div_mod::lemma_fundamental_div_mod_converse(a + 1, 255, q + 1, 0);
        }
    } else {
        vstd::arithmetic::div_mod::lemma_small_mod(start as nat, 255);
    }
}

/// Visits one cell: moves the reader back to bit 0 when at bit 255, then, for a
/// textured brush, reads whether the cell is drawn.
fn visit_cell(reader: &mut TextureReader, brush: &PatternBrush, Ghost(start): Ghost<int>, Ghost(k): Ghost<int>) -> (drawn: bool)
    requires
        old(reader).data@ == texture_data(),
        0 <= start < 255,
        0 <= k,
        old(reader).position == reader_position(*brush, start, k),
    ensures
        final(reader).data@ == texture_data(),
        final(reader).position == reader_position(*brush, start, k + 1),
        drawn == cell_drawn(*brush, start, k),
{
    proof {
        lemma_texture_wrap(start, k);
    }
    reader.wrap();
    if brush.use_texture {
        reader.read_bit()
    } else {
        true
    }
}

/// Draws a circle pattern centred on (`x`, `y`).
fn draw_pattern_circle(
    ops: &mut Vec<DrawOp>,
    x: i32,
    y: i32,
    brush: &PatternBrush,
    reader: &mut TextureReader,
    Ghost(start): Ghost<int>,
)
    requires
        0 <= brush.size < 8,
        0 <= x <= VIEWPORT_WIDTH,
        0 <= y <= VIEWPORT_HEIGHT,
        old(reader).data@ == texture_data(),
        0 <= start < 255,
        old(reader).position == start,
    ensures
        final(ops)@ == old(ops)@ + circle_rows_ops(x as int, y as int, *brush, start, 0, 0),
{
    let ghost total = old(ops)@ + circle_rows_ops(x as int, y as int, *brush, start, 0, 0);
    let size = brush.size;
    let widths = circle_widths(size as usize);
    let mut y_idx: i32 = 0;
    let ghost mut k: int = 0;
    assert(old(ops)@ == ops@);
    while y_idx <= size * 2
        invariant
            0 <= brush.size < 8,
            size == brush.size,
            widths@ == pattern_widths()[size as int],
            0 <= x <= VIEWPORT_WIDTH,
            0 <= y <= VIEWPORT_HEIGHT,
            0 <= y_idx <= size * 2 + 1,
            0 <= k,
            0 <= start < 255,
            reader.data@ == texture_data(),
            reader.position == reader_position(*brush, start, k),
            total == ops@ + circle_rows_ops(x as int, y as int, *brush, start, y_idx as int, k),
        decreases size * 2 + 1 - y_idx,
    {
        let w = widths[y_idx as usize];
        assert(0 <= w <= 7) by {
            assert(forall|s: int, r: int| 0 <= s < 8 && 0 <= r < 15 ==> 0 <= #[trigger] pattern_widths()[s][r] <= 7);
        }
        let ghost k_row = k;
        let mut x_offset: i32 = -w;
        while x_offset <= w
            invariant
                0 <= brush.size < 8,
                size == brush.size,
                0 <= x <= VIEWPORT_WIDTH,
                0 <= y <= VIEWPORT_HEIGHT,
                0 <= y_idx <= size * 2,
                0 <= w <= 7,
                -w <= x_offset <= w + 1,
                k == k_row + x_offset + w,
                0 <= k_row,
                0 <= start < 255,
                reader.data@ == texture_data(),
                reader.position == reader_position(*brush, start, k),
                total == ops@ + circle_row_ops(x as int, y as int, *brush, start, y_idx as int, x_offset as int, w as int, k)
                    + circle_rows_ops(x as int, y as int, *brush, start, y_idx + 1, k_row + 2 * w + 1),
            decreases w + 1 - x_offset,
        {
            let ghost before = ops@;
            let drawn = visit_cell(reader, brush, Ghost(start), Ghost(k));
            if drawn {
                ops.push(DrawOp::Point(x + x_offset, y + y_idx - size));
            }
            proof {
                let rest = circle_row_ops(x as int, y as int, *brush, start, y_idx as int, x_offset + 1, w as int, k + 1);
                let tail = circle_rows_ops(x as int, y as int, *brush, start, y_idx + 1, k_row + 2 * w + 1);
                if drawn {
                    assert(before + (seq![DrawOp::Point((x + x_offset) as i32, (y + y_idx - size) as i32)] + rest) + tail
                        =~= ops@ + rest + tail);
                } else {
                    assert(before + (Seq::<DrawOp>::empty() + rest) + tail =~= ops@ + rest + tail);
                }
                k = k + 1;
            }
            x_offset = x_offset + 1;
        }
        proof {
            let tail = circle_rows_ops(x as int, y as int, *brush, start, y_idx + 1, k_row + 2 * w + 1);
            assert(ops@ + Seq::<DrawOp>::empty() + tail =~= ops@ + tail);
        }
        y_idx = y_idx + 1;
    }
    proof {
        assert(ops@ + Seq::<DrawOp>::empty() =~= ops@);
    }
}

/// Draws a rectangle pattern centred on (`x`, `y`), one column wider on the right.
fn draw_pattern_rect(
    ops: &mut Vec<DrawOp>,
    x: i32,
    y: i32,
    brush: &PatternBrush,
    reader: &mut TextureReader,
    Ghost(start): Ghost<int>,
)
    requires
        0 <= brush.size < 8,
        0 <= x <= VIEWPORT_WIDTH,
        0 <= y <= VIEWPORT_HEIGHT,
        old(reader).data@ == texture_data(),
        0 <= start < 255,
        old(reader).position == start,
    ensures
        final(ops)@ == old(ops)@ + rect_rows_ops(x as int, y as int, *brush, start, -brush.size, 0),
{
    let ghost total = old(ops)@ + rect_rows_ops(x as int, y as int, *brush, start, -brush.size, 0);
    let size = brush.size;
    let mut dy: i32 = -size;
    let ghost mut k: int = 0;
    assert(old(ops)@ == ops@);
    while dy <= size
        invariant
            0 <= brush.size < 8,
            size == brush.size,
            0 <= x <= VIEWPORT_WIDTH,
            0 <= y <= VIEWPORT_HEIGHT,
            -size <= dy <= size + 1,
            0 <= k,
            0 <= start < 255,
            reader.data@ == texture_data(),
            reader.position == reader_position(*brush, start, k),
            total == ops@ + rect_rows_ops(x as int, y as int, *brush, start, dy as int, k),
        decreases size + 1 - dy,
    {
        let ghost k_row = k;
        let mut dx: i32 = -size;
        while dx <= size + 1
            invariant
                0 <= brush.size < 8,
                size == brush.size,
                0 <= x <= VIEWPORT_WIDTH,
                0 <= y <= VIEWPORT_HEIGHT,
                -size <= dy <= size,
                -size <= dx <= size + 2,
                k == k_row + dx + size,
                0 <= k_row,
                0 <= start < 255,
                reader.data@ == texture_data(),
                reader.position == reader_position(*brush, start, k),
                total == ops@ + rect_row_ops(x as int, y as int, *brush, start, dy as int, dx as int, k)
                    + rect_rows_ops(x as int, y as int, *brush, start, dy + 1, k_row + 2 * size + 2),
            decreases size + 2 - dx,
        {
            let ghost before = ops@;
            let drawn = visit_cell(reader, brush, Ghost(start), Ghost(k));
            if drawn {
                ops.push(DrawOp::Point(x + dx, y + dy));
            }
            proof {
                let rest = rect_row_ops(x as int, y as int, *brush, start, dy as int, dx + 1, k + 1);
                let tail = rect_rows_ops(x as int, y as int, *brush, start, dy + 1, k_row + 2 * size + 2);
                if drawn {
                    assert(before + (seq![DrawOp::Point((x + dx) as i32, (y + dy) as i32)] + rest) + tail
                        =~= ops@ + rest + tail);
                } else {
                    assert(before + (Seq::<DrawOp>::empty() + rest) + tail =~= ops@ + rest + tail);
                }
                k = k + 1;
            }
            dx = dx + 1;
        }
        proof {
            let tail = rect_rows_ops(x as int, y as int, *brush, start, dy + 1, k_row + 2 * size + 2);
            assert(ops@ + Seq::<DrawOp>::empty() + tail =~= ops@ + tail);
        }
        dy = dy + 1;
    }
    proof {
        assert(ops@ + Seq::<DrawOp>::empty() =~= ops@);
    }
}

/// Draws the pattern brush at `p`, moving the brush inside the viewport rather than
/// clipping it; `false`, drawing nothing, for a texture number past the start table.
pub fn draw_pattern(ops: &mut Vec<DrawOp>, p: &Point, pattern_brush: &PatternBrush, texture: Option<u8>) -> (ok: bool)
    requires
        0 <= pattern_brush.size < 8,
    ensures
        match spec_pattern_ops(p.x as int, p.y as int, *pattern_brush, texture) {
            Some(s) => ok && final(ops)@ == old(ops)@ + s,
            None => !ok && final(ops)@ == old(ops)@,
        },
{
    let size = pattern_brush.size;
    let mx = if p.x > size { p.x } else { size };
    let x = if mx < VIEWPORT_WIDTH - size - 1 { mx } else { VIEWPORT_WIDTH - size - 1 };
    let my = if p.y > size { p.y } else { size };
    let y = if my < VIEWPORT_HEIGHT - size - 1 { my } else { VIEWPORT_HEIGHT - size - 1 };
    let mut reader = match TextureReader::new(texture) {
        Some(r) => r,
        None => return false,
    };
    let ghost start = texture_start(texture);
    match pattern_brush.shape {
        BrushShape::Rectangle => draw_pattern_rect(ops, x, y, pattern_brush, &mut reader, Ghost(start)),
        BrushShape::Circle => draw_pattern_circle(ops, x, y, pattern_brush, &mut reader, Ghost(start)),
    }
    true
}

// ---------------------------------------------------------------------------
// Lines.

/// The points of a Bresenham line from (`x`, `y`), with error term `err`, towards
/// (`ex`, `ey`), stepping by `sx`, `sy`, for distances `a` across and `b` down, at
/// most `fuel` points.
pub open spec fn bres_points(
    x: int,
    y: int,
    err: int,
    ex: int,
    ey: int,
    sx: int,
    sy: int,
    a: int,
    b: int,
    fuel: nat,
) -> Seq<(int, int)>
    decreases fuel,
{
    if fuel == 0 {
        Seq::empty()
    } else if x == ex && y == ey {
        seq![(x, y)]
    } else {
        let e2 = 2 * err;
        let x1 = if e2 >= -b { x + sx } else { x };
        let err1 = if e2 >= -b { err - b } else { err };
        let y1 = if e2 <= a { y + sy } else { y };
        let err2 = if e2 <= a { err1 + a } else { err1 };
        seq![(x, y)] + bres_points(x1, y1, err2, ex, ey, sx, sy, a, b, (fuel - 1) as nat)
    }
}

/// The distance between two integers.
pub open spec fn abs_diff(u: int, v: int) -> int {
    if u < v { v - u } else { u - v }
}

/// The points of the Bresenham line from (`x0`, `y0`) to (`x1`, `y1`).
pub open spec fn spec_bresenham(x0: int, y0: int, x1: int, y1: int) -> Seq<(int, int)> {
    let a = abs_diff(x0, x1);
    let b = abs_diff(y0, y1);
    let sx = if x0 < x1 { 1int } else { -1int };
    let sy = if y0 < y1 { 1int } else { -1int };
    bres_points(x0, y0, a - b, x1, y1, sx, sy, a, b, (a + b + 1) as nat)
}

/// The state of a Bresenham walk after `kx` steps across and `ky` steps down.
pub open spec fn bres_inv(
    x0: int,
    y0: int,
    x: int,
    y: int,
    err: int,
    sx: int,
    sy: int,
    a: int,
    b: int,
    kx: int,
    ky: int,
) -> bool {
    &&& 0 <= kx <= a
    &&& 0 <= ky <= b
    &&& sx == 1 || sx == -1
    &&& sy == 1 || sy == -1
    &&& x == x0 + sx * kx
    &&& y == y0 + sy * ky
    &&& err == a * (1 + ky) - b * (1 + kx)
}

/// One step of the walk keeps its state, never passes the end, and moves at least
/// one way.
proof fn lemma_bres_step(
    x0: int,
    y0: int,
    x: int,
    y: int,
    err: int,
    sx: int,
    sy: int,
    a: int,
    b: int,
    kx: int,
    ky: int,
)
    requires
        bres_inv(x0, y0, x, y, err, sx, sy, a, b, kx, ky),
        !(kx == a && ky == b),
    ensures
        ({
            let e2 = 2 * err;
            let kx1 = if e2 >= -b { kx + 1 } else { kx };
            let ky1 = if e2 <= a { ky + 1 } else { ky };
            let x1 = if e2 >= -b { x + sx } else { x };
            let err1 = if e2 >= -b { err - b } else { err };
            let y1 = if e2 <= a { y + sy } else { y };
            let err2 = if e2 <= a { err1 + a } else { err1 };
            &&& bres_inv(x0, y0, x1, y1, err2, sx, sy, a, b, kx1, ky1)
            &&& kx1 + ky1 > kx + ky
        }),
{
    let e2 = 2 * err;
    if kx == a {
        assert(2 * (a * (1 + ky) - b * (1 + a)) < -b) by (nonlinear_arith)
            requires
                ky < b,
                0 <= ky,
                0 <= a,
        ;
    }
    if ky == b {
        assert(2 * (a * (1 + b) - b * (1 + kx)) > a) by (nonlinear_arith)
            requires
                kx < a,
                0 <= kx,
                0 <= b,
        ;
    }
    assert(a * (1 + ky) - b * (1 + kx) - b == a * (1 + ky) - b * (1 + (kx + 1))) by (nonlinear_arith);
    assert(a * (1 + ky) - b * (1 + kx) + a == a * (1 + (ky + 1)) - b * (1 + kx)) by (nonlinear_arith);
    assert(a * (1 + ky) - b * (1 + kx) - b + a == a * (1 + (ky + 1)) - b * (1 + (kx + 1))) by (nonlinear_arith);
    assert(x + sx == x0 + sx * (kx + 1)) by (nonlinear_arith)
        requires
            x == x0 + sx * kx,
    ;
    assert(y + sy == y0 + sy * (ky + 1)) by (nonlinear_arith)
        requires
            y == y0 + sy * ky,
    ;
}

/// The walk is at the end exactly when both step counts are complete.
proof fn lemma_bres_at_end(
    x0: int,
    y0: int,
    x: int,
    y: int,
    err: int,
    sx: int,
    sy: int,
    a: int,
    b: int,
    kx: int,
    ky: int,
    ex: int,
    ey: int,
)
    requires
        bres_inv(x0, y0, x, y, err, sx, sy, a, b, kx, ky),
        ex == x0 + sx * a,
        ey == y0 + sy * b,
    ensures
        (x == ex && y == ey) <==> (kx == a && ky == b),
{
    assert(x == ex <==> kx == a) by (nonlinear_arith)
        requires
            x == x0 + sx * kx,
            ex == x0 + sx * a,
            sx == 1 || sx == -1,
    ;
    assert(y == ey <==> ky == b) by (nonlinear_arith)
        requires
            y == y0 + sy * ky,
            ey == y0 + sy * b,
            sy == 1 || sy == -1,
    ;
}

/// Every adjacent pair of points in `s` is one step apart in each direction at most,
/// and not the same point.
pub open spec fn steps_adjacent(s: Seq<(int, int)>) -> bool {
    forall|i: int|
        0 <= i < s.len() - 1 ==> {
            &&& abs_diff(#[trigger] s[i].0, s[i + 1].0) <= 1
            &&& abs_diff(s[i].1, s[i + 1].1) <= 1
            &&& s[i] != s[i + 1]
        }
}

proof fn lemma_bres_walk(
    x0: int,
    y0: int,
    x: int,
    y: int,
    err: int,
    ex: int,
    ey: int,
    sx: int,
    sy: int,
    a: int,
    b: int,
    kx: int,
    ky: int,
    fuel: nat,
)
    requires
        bres_inv(x0, y0, x, y, err, sx, sy, a, b, kx, ky),
        ex == x0 + sx * a,
        ey == y0 + sy * b,
        fuel >= (a - kx) + (b - ky) + 1,
    ensures
        ({
            let s = bres_points(x, y, err, ex, ey, sx, sy, a, b, fuel);
            &&& s.len() >= 1
            &&& s[0] == (x, y)
            &&& s.last() == (ex, ey)
            &&& steps_adjacent(s)
        }),
    decreases fuel,
{
    lemma_bres_at_end(x0, y0, x, y, err, sx, sy, a, b, kx, ky, ex, ey);
    if !(x == ex && y == ey) {
        lemma_bres_step(x0, y0, x, y, err, sx, sy, a, b, kx, ky);
        let e2 = 2 * err;
        let kx1 = if e2 >= -b { kx + 1 } else { kx };
        let ky1 = if e2 <= a { ky + 1 } else { ky };
        let x1 = if e2 >= -b { x + sx } else { x };
        let err1 = if e2 >= -b { err - b } else { err };
        let y1 = if e2 <= a { y + sy } else { y };
        let err2 = if e2 <= a { err1 + a } else { err1 };
        lemma_bres_walk(x0, y0, x1, y1, err2, ex, ey, sx, sy, a, b, kx1, ky1, (fuel - 1) as nat);
        let rest = bres_points(x1, y1, err2, ex, ey, sx, sy, a, b, (fuel - 1) as nat);
        let s = bres_points(x, y, err, ex, ey, sx, sy, a, b, fuel);
        assert(s == seq![(x, y)] + rest);
        assert forall|i: int| 0 <= i < s.len() - 1 implies {
            &&& abs_diff(#[trigger] s[i].0, s[i + 1].0) <= 1
            &&& abs_diff(s[i].1, s[i + 1].1) <= 1
            &&& s[i] != s[i + 1]
        } by {
            if i > 0 {
                assert(s[i] == rest[i - 1]);
                assert(s[i + 1] == rest[i]);
                assert(abs_diff(rest[i - 1].0, rest[i].0) <= 1);
            } else {
                assert(s[1] == rest[0]);
                assert(rest[0] == (x1, y1));
                assert(x1 != x || y1 != y);
            }
        }
    }
}

/// Along the walk the axis with the larger distance moves at every step, so the
/// walk has one point more than that distance, and each step moves each way by
/// nothing or one step toward the end.
proof fn lemma_bres_shape(
    x0: int,
    y0: int,
    x: int,
    y: int,
    err: int,
    ex: int,
    ey: int,
    sx: int,
    sy: int,
    a: int,
    b: int,
    kx: int,
    ky: int,
    fuel: nat,
)
    requires
        bres_inv(x0, y0, x, y, err, sx, sy, a, b, kx, ky),
        ex == x0 + sx * a,
        ey == y0 + sy * b,
        fuel >= (a - kx) + (b - ky) + 1,
        a >= b ==> 2 * err >= -b,
        a < b ==> 2 * err <= a,
    ensures
        ({
            let s = bres_points(x, y, err, ex, ey, sx, sy, a, b, fuel);
            &&& s.len() == (if a >= b { a - kx } else { b - ky }) + 1
            &&& forall|i: int| 0 <= i < s.len() && a >= b ==> #[trigger] s[i].0 == x + sx * i
            &&& forall|i: int| 0 <= i < s.len() && a < b ==> #[trigger] s[i].1 == y + sy * i
            &&& forall|i: int|
                0 <= i < s.len() - 1 ==> (#[trigger] s[i + 1].0 - s[i].0 == 0 || s[i + 1].0 - s[i].0 == sx) && (
                s[i + 1].1 - s[i].1 == 0 || s[i + 1].1 - s[i].1 == sy)
        }),
    decreases fuel,
{
    lemma_bres_at_end(x0, y0, x, y, err, sx, sy, a, b, kx, ky, ex, ey);
    let s = bres_points(x, y, err, ex, ey, sx, sy, a, b, fuel);
    if x == ex && y == ey {
        assert(s == seq![(x, y)]);
        assert(s[0].0 == x + sx * 0);
        assert(s[0].1 == y + sy * 0);
    } else {
        if kx == a {
            assert(2 * (a * (1 + ky) - b * (1 + a)) < -b) by (nonlinear_arith)
                requires
                    ky < b,
                    0 <= ky,
                    0 <= a,
            ;
        }
        if ky == b {
            assert(2 * (a * (1 + b) - b * (1 + kx)) > a) by (nonlinear_arith)
                requires
                    kx < a,
                    0 <= kx,
                    0 <= b,
            ;
        }
        lemma_bres_step(x0, y0, x, y, err, sx, sy, a, b, kx, ky);
        let e2 = 2 * err;
        let kx1 = if e2 >= -b { kx + 1 } else { kx };
        let ky1 = if e2 <= a { ky + 1 } else { ky };
        let x1 = if e2 >= -b { x + sx } else { x };
        let err1 = if e2 >= -b { err - b } else { err };
        let y1 = if e2 <= a { y + sy } else { y };
        let err2 = if e2 <= a { err1 + a } else { err1 };
        if a >= b {
            assert(2 * err2 >= -b);
        } else {
            assert(2 * err2 <= a);
        }
        lemma_bres_shape(x0, y0, x1, y1, err2, ex, ey, sx, sy, a, b, kx1, ky1, (fuel - 1) as nat);
        let rest = bres_points(x1, y1, err2, ex, ey, sx, sy, a, b, (fuel - 1) as nat);
        assert(s == seq![(x, y)] + rest);
        assert(s.len() == rest.len() + 1);
        if a >= b {
            assert(kx1 == kx + 1 && x1 == x + sx);
            assert(s.len() == a - kx + 1);
            assert forall|i: int| 0 <= i < s.len() && a >= b implies #[trigger] s[i].0 == x + sx * i by {
                if i == 0 {
                    assert(s[0] == (x, y));
                } else {
                    assert(s[i] == rest[i - 1]);
                    assert(rest[i - 1].0 == x1 + sx * (i - 1));
                    assert(sx + sx * (i - 1) == sx * i) by (nonlinear_arith);
                }
            }
        } else {
            assert(ky1 == ky + 1 && y1 == y + sy);
            assert(s.len() == b - ky + 1);
            assert forall|i: int| 0 <= i < s.len() && a < b implies #[trigger] s[i].1 == y + sy * i by {
                if i == 0 {
                    assert(s[0] == (x, y));
                } else {
                    assert(s[i] == rest[i - 1]);
                    assert(rest[i - 1].1 == y1 + sy * (i - 1));
                    assert(sy + sy * (i - 1) == sy * i) by (nonlinear_arith);
                }
            }
        }
        assert forall|i: int| 0 <= i < s.len() - 1 implies (#[trigger] s[i + 1].0 - s[i].0 == 0 || s[i + 1].0
            - s[i].0 == sx) && (s[i + 1].1 - s[i].1 == 0 || s[i + 1].1 - s[i].1 == sy) by {
            if i == 0 {
                assert(s[1] == rest[0]);
                assert(rest[0] == (x1, y1));
            } else {
                assert(s[i] == rest[i - 1]);
                assert(s[i + 1] == rest[i]);
                assert(rest[(i - 1) + 1].0 - rest[i - 1].0 == 0 || rest[(i - 1) + 1].0 - rest[i - 1].0 == sx);
            }
        }
    }
}

proof fn lemma_walk_distinct(s: Seq<(int, int)>, c0: int, step: int, across: bool)
    requires
        step == 1 || step == -1,
        across ==> forall|i: int| 0 <= i < s.len() ==> #[trigger] s[i].0 == c0 + step * i,
        !across ==> forall|i: int| 0 <= i < s.len() ==> #[trigger] s[i].1 == c0 + step * i,
    ensures
        forall|i: int, j: int| 0 <= i < j < s.len() ==> s[i] != s[j],
{
    assert forall|i: int, j: int| 0 <= i < j < s.len() implies s[i] != s[j] by {
        assert(step * i != step * j) by (nonlinear_arith)
            requires
                i < j,
                step == 1 || step == -1,
        ;
        if across {
            assert(s[i].0 == c0 + step * i);
            assert(s[j].0 == c0 + step * j);
        } else {
            assert(s[i].1 == c0 + step * i);
            assert(s[j].1 == c0 + step * j);
        }
    }
}

/// A Bresenham line starts at its start point, ends at its end point, and each point
/// is a neighbour (one step across, down or diagonally, toward the end) of the one
/// before; it has one point more than the larger of its two distances, and no point
/// twice.
pub proof fn lemma_bresenham_line(x0: int, y0: int, x1: int, y1: int)
    ensures
        ({
            let s = spec_bresenham(x0, y0, x1, y1);
            &&& s.len() >= 1
            &&& s[0] == (x0, y0)
            &&& s.last() == (x1, y1)
            &&& steps_adjacent(s)
            &&& s.len() == (if abs_diff(x0, x1) >= abs_diff(y0, y1) {
                abs_diff(x0, x1)
            } else {
                abs_diff(y0, y1)
            }) + 1
            &&& forall|i: int|
                0 <= i < s.len() - 1 ==> (#[trigger] s[i + 1].0 - s[i].0 == 0 || s[i + 1].0 - s[i].0 == (if x0
                    < x1 { 1int } else { -1int })) && (s[i + 1].1 - s[i].1 == 0 || s[i + 1].1 - s[i].1 == (if y0
                    < y1 { 1int } else { -1int }))
            &&& forall|i: int, j: int| 0 <= i < j < s.len() ==> s[i] != s[j]
        }),
{
    let a = abs_diff(x0, x1);
    let b = abs_diff(y0, y1);
    let sx = if x0 < x1 { 1int } else { -1int };
    let sy = if y0 < y1 { 1int } else { -1int };
    assert(a * (1 + 0) - b * (1 + 0) == a - b) by (nonlinear_arith);
    assert(x1 == x0 + sx * a) by (nonlinear_arith)
        requires
            a == abs_diff(x0, x1),
            sx == if x0 < x1 { 1int } else { -1int },
    ;
    assert(y1 == y0 + sy * b) by (nonlinear_arith)
        requires
            b == abs_diff(y0, y1),
            sy == if y0 < y1 { 1int } else { -1int },
    ;
    lemma_bres_walk(x0, y0, x0, y0, a - b, x1, y1, sx, sy, a, b, 0, 0, (a + b + 1) as nat);
    lemma_bres_shape(x0, y0, x0, y0, a - b, x1, y1, sx, sy, a, b, 0, 0, (a + b + 1) as nat);
    let s = spec_bresenham(x0, y0, x1, y1);
    if a >= b {
        lemma_walk_distinct(s, x0, sx, true);
    } else {
        lemma_walk_distinct(s, y0, sy, false);
    }
}

/// The points of the line from `start` to `end`, in order, each a neighbour of the
/// one before.
pub fn bresenham(start: &Point, end: &Point) -> (points: Vec<(i32, i32)>)
    requires
        -0x20000000 <= start.x <= 0x20000000,
        -0x20000000 <= start.y <= 0x20000000,
        -0x20000000 <= end.x <= 0x20000000,
        -0x20000000 <= end.y <= 0x20000000,
    ensures
        points@.len() == spec_bresenham(start.x as int, start.y as int, end.x as int, end.y as int).len(),
        forall|i: int| 0 <= i < points@.len() ==> {
            let p = #[trigger] spec_bresenham(start.x as int, start.y as int, end.x as int, end.y as int)[i];
            points@[i].0 == p.0 && points@[i].1 == p.1
        },
        points@.len() == (if abs_diff(start.x as int, end.x as int) >= abs_diff(start.y as int, end.y as int) {
            abs_diff(start.x as int, end.x as int)
        } else {
            abs_diff(start.y as int, end.y as int)
        }) + 1,
        points@[0] == (start.x, start.y),
        points@.last() == (end.x, end.y),
{
    proof {
        lemma_bresenham_line(start.x as int, start.y as int, end.x as int, end.y as int);
    }
    let dx: i64 = if start.x < end.x { end.x as i64 - start.x as i64 } else { start.x as i64 - end.x as i64 };
    let step_x: i64 = if start.x < end.x { 1 } else { -1 };
    let dy: i64 = if start.y < end.y { start.y as i64 - end.y as i64 } else { end.y as i64 - start.y as i64 };
    let step_y: i64 = if start.y < end.y { 1 } else { -1 };
    let ghost a = dx as int;
    let ghost b = -dy as int;
    let ghost x0 = start.x as int;
    let ghost y0 = start.y as int;
    let ghost ex = end.x as int;
    let ghost ey = end.y as int;
    let ghost full = spec_bresenham(x0, y0, ex, ey);
    let mut err: i64 = dx + dy;
    let mut x: i64 = start.x as i64;
    let mut y: i64 = start.y as i64;
    let ghost mut kx: int = 0;
    let ghost mut ky: int = 0;
    let ghost mut fuel: nat = (a + b + 1) as nat;
    let mut points: Vec<(i32, i32)> = Vec::new();
    assert(a * (1 + 0) - b * (1 + 0) == a - b) by (nonlinear_arith);
    assert(ex == x0 + step_x * a) by (nonlinear_arith)
        requires
            a == abs_diff(x0, ex),
            step_x == if x0 < ex { 1int } else { -1int },
    ;
    assert(ey == y0 + step_y * b) by (nonlinear_arith)
        requires
            b == abs_diff(y0, ey),
            step_y == if y0 < ey { 1int } else { -1int },
    ;
    loop
        invariant_except_break
            0 <= a <= 0x40000000,
            0 <= b <= 0x40000000,
            dx == a,
            dy == -b,
            ex == end.x,
            ey == end.y,
            -0x20000000 <= x0 <= 0x20000000,
            -0x20000000 <= y0 <= 0x20000000,
            -0x20000000 <= ex <= 0x20000000,
            -0x20000000 <= ey <= 0x20000000,
            ex == x0 + step_x * a,
            ey == y0 + step_y * b,
            bres_inv(x0, y0, x as int, y as int, err as int, step_x as int, step_y as int, a, b, kx, ky),
            fuel >= (a - kx) + (b - ky) + 1,
            full == spec_bresenham(x0, y0, ex, ey),
            points@.len() + bres_points(x as int, y as int, err as int, ex, ey, step_x as int, step_y as int, a, b, fuel).len() == full.len(),
            forall|i: int| 0 <= i < points@.len() ==> {
                let p = #[trigger] full[i];
                points@[i].0 == p.0 && points@[i].1 == p.1
            },
            forall|i: int| 0 <= i < bres_points(x as int, y as int, err as int, ex, ey, step_x as int, step_y as int, a, b, fuel).len() ==>
                #[trigger] bres_points(x as int, y as int, err as int, ex, ey, step_x as int, step_y as int, a, b, fuel)[i] == full[points@.len() + i],
        ensures
            full == spec_bresenham(x0, y0, ex, ey),
            points@.len() == full.len(),
            forall|i: int| 0 <= i < points@.len() ==> {
                let p = #[trigger] full[i];
                points@[i].0 == p.0 && points@[i].1 == p.1
            },
        decreases fuel,
    {
        let ghost s = bres_points(x as int, y as int, err as int, ex, ey, step_x as int, step_y as int, a, b, fuel);
        proof {
            lemma_bres_at_end(x0, y0, x as int, y as int, err as int, step_x as int, step_y as int, a, b, kx, ky, ex, ey);
            assert(-0x40000000 <= x <= 0x40000000) by (nonlinear_arith)
                requires
                    x == x0 + step_x * kx,
                    0 <= kx <= a,
                    step_x == 1 || step_x == -1,
                    -0x20000000 <= x0 <= 0x20000000,
                    ex == x0 + step_x * a,
                    -0x20000000 <= ex <= 0x20000000,
            ;
            assert(-0x40000000 <= y <= 0x40000000) by (nonlinear_arith)
                requires
                    y == y0 + step_y * ky,
                    0 <= ky <= b,
                    step_y == 1 || step_y == -1,
                    -0x20000000 <= y0 <= 0x20000000,
                    ey == y0 + step_y * b,
                    -0x20000000 <= ey <= 0x20000000,
            ;
            assert(-0x2000000000000000 <= err <= 0x2000000000000000) by (nonlinear_arith)
                requires
                    err == a * (1 + ky) - b * (1 + kx),
                    0 <= kx <= a,
                    0 <= ky <= b,
                    0 <= a <= 0x40000000,
                    0 <= b <= 0x40000000,
            ;
            assert(s[0] == (x as int, y as int));
        }
        points.push((x as i32, y as i32));
        if x == end.x as i64 && y == end.y as i64 {
            proof {
                assert(s.len() == 1);
            }
            break;
        }
        let ghost old_err = err as int;
        let e2 = err * 2;
        let ghost stepped_x = e2 >= dy;
        let ghost stepped_y = e2 <= dx;
        if e2 >= dy {
            err = err + dy;
            x = x + step_x;
        }
        if e2 <= dx {
            err = err + dx;
            y = y + step_y;
        }
        proof {
            lemma_bres_step(x0, y0, (x - if stepped_x { step_x } else { 0 }) as int,
                (y - if stepped_y { step_y } else { 0 }) as int, old_err, step_x as int,
                step_y as int, a, b, kx, ky);
            if stepped_x {
                kx = kx + 1;
            }
            if stepped_y {
                ky = ky + 1;
            }
            let rest = bres_points(x as int, y as int, err as int, ex, ey, step_x as int, step_y as int, a, b, (fuel - 1) as nat);
            assert(s == seq![s[0]] + rest);
            assert forall|i: int| 0 <= i < rest.len() implies #[trigger] rest[i] == full[points@.len() + i] by {
                assert(rest[i] == s[i + 1]);
            }
            fuel = (fuel - 1) as nat;
        }
    }
        points
}

/// The points of the line from (`x0`, `y0`) to (`x1`, `y1`) as drawing operations.
pub open spec fn line_ops(x0: int, y0: int, x1: int, y1: int) -> Seq<DrawOp> {
    spec_bresenham(x0, y0, x1, y1).map_values(|p: (int, int)| DrawOp::Point(p.0 as i32, p.1 as i32))
}

/// Draws the line from `start` to `end`.
pub fn draw_line(ops: &mut Vec<DrawOp>, start: &Point, end: &Point)
    requires
        -0x20000000 <= start.x <= 0x20000000,
        -0x20000000 <= start.y <= 0x20000000,
        -0x20000000 <= end.x <= 0x20000000,
        -0x20000000 <= end.y <= 0x20000000,
    ensures
        final(ops)@ == old(ops)@ + line_ops(start.x as int, start.y as int, end.x as int, end.y as int),
{
    let ghost full = line_ops(start.x as int, start.y as int, end.x as int, end.y as int);
    let ghost before = ops@;
    let points = bresenham(start, end);
    let mut i: usize = 0;
    while i < points.len()
        invariant
            i <= points@.len(),
            points@.len() == full.len(),
            full == line_ops(start.x as int, start.y as int, end.x as int, end.y as int),
            forall|j: int| 0 <= j < points@.len() ==> {
                let p = #[trigger] spec_bresenham(start.x as int, start.y as int, end.x as int, end.y as int)[j];
                points@[j].0 == p.0 && points@[j].1 == p.1
            },
            ops@ == before + full.subrange(0, i as int),
        decreases points@.len() - i,
    {
        let (x, y) = points[i];
        ops.push(DrawOp::Point(x, y));
        i = i + 1;
        proof {
            let p = spec_bresenham(start.x as int, start.y as int, end.x as int, end.y as int)[i - 1];
            assert(full[i - 1] == DrawOp::Point(p.0 as i32, p.1 as i32));
            assert(ops@ =~= before + full.subrange(0, i as int));
        }
    }
    assert(full.subrange(0, i as int) =~= full);
}

// ---------------------------------------------------------------------------
// The picture.

/// The drawing state of a picture.
pub struct PictureState {
    pub visual: bool,
    /// The four palettes of 40 entries each, one after the other.
    pub palettes: Seq<DitheredColour>,
    pub brush: PatternBrush,
}

/// What the decoder is doing: reading commands, or repeating the operands of one.
pub enum PictureMode {
    Commands,
    ShortRelativePatterns(int, int),
    RelativePatterns(int, int),
    AbsolutePatterns,
    RelativeLines(int, int),
    AbsoluteLines(int, int),
    ShortRelativeLines(int, int),
    Fill,
    PaletteEntries,
}

/// The state at the start of a picture: visual drawing on, four default palettes, a
/// circle brush of size 0 without texture.
pub open spec fn initial_state() -> PictureState {
    PictureState {
        visual: true,
        palettes: Seq::new(160, |i: int| spec_default_palette()[i % 40]),
        brush: PatternBrush { size: 0, shape: BrushShape::Circle, use_texture: false },
    }
}

/// `ops` before the operations of `rest`.
pub open spec fn prefixed(ops: Seq<DrawOp>, rest: Option<Seq<DrawOp>>) -> Option<Seq<DrawOp>> {
    match rest {
        Some(r) => Some(ops + r),
        None => None,
    }
}

/// The texture byte that a textured brush reads before each pattern, and the position
/// after it.
pub open spec fn read_texture_at(data: Seq<u8>, pos: int, brush: PatternBrush) -> Option<(int, Option<u8>)> {
    if brush.use_texture {
        if 0 <= pos < data.len() {
            Some((pos + 1, Some(data[pos])))
        } else {
            None
        }
    } else {
        Some((pos, None))
    }
}

/// Palette `num` replaced by the 40 colour pairs from byte `at` on.
pub open spec fn set_palette(palettes: Seq<DitheredColour>, num: int, data: Seq<u8>, at: int) -> Seq<DitheredColour> {
    Seq::new(
        palettes.len(),
        |i: int|
            if num * 40 <= i < num * 40 + 40 {
                colour_pair(data[at + i - num * 40])
            } else {
                palettes[i]
            },
    )
}

/// The state with visual drawing on or off.
pub open spec fn with_visual(st: PictureState, visual: bool) -> PictureState {
    PictureState { visual, palettes: st.palettes, brush: st.brush }
}

/// The state with other palettes.
pub open spec fn with_palettes(st: PictureState, palettes: Seq<DitheredColour>) -> PictureState {
    PictureState { visual: st.visual, palettes, brush: st.brush }
}

/// The state with another brush.
pub open spec fn with_brush(st: PictureState, brush: PatternBrush) -> PictureState {
    PictureState { visual: st.visual, palettes: st.palettes, brush }
}

/// The pattern at (`x`, `y`) if visual drawing is on (or `always`).
pub open spec fn pattern_if(always: bool, st: PictureState, x: int, y: int, texture: Option<u8>) -> Option<Seq<DrawOp>> {
    if always || st.visual {
        spec_pattern_ops(x, y, st.brush, texture)
    } else {
        Some(Seq::empty())
    }
}

/// `h` (unless it failed) before the operations of `rest`.
pub open spec fn then_rest(h: Option<Seq<DrawOp>>, rest: Option<Seq<DrawOp>>) -> Option<Seq<DrawOp>> {
    match h {
        Some(h) => prefixed(h, rest),
        None => None,
    }
}

/// The measure that decoding decreases: each step reads at least one byte, except
/// going back from an operand list to the commands.
pub open spec fn picture_measure(len: int, pos: int, mode: PictureMode) -> int {
    2 * (len + 64 - pos) + if mode is Commands { 0int } else { 1int }
}

/// The drawing operations that the picture data from byte `pos` on produces, in
/// state `st` and mode `mode`, up to the finish command. `None` on malformed
/// data: data that ends before the finish command, an unknown
/// command, a palette past the fourth, or a texture past the start table.
pub open spec fn spec_picture(data: Seq<u8>, pos: int, st: PictureState, mode: PictureMode) -> Option<Seq<DrawOp>>
    decreases picture_measure(data.len() as int, pos, mode),
{
    if pos < 0 || pos >= data.len() {
        None
    } else {
        match mode {
            PictureMode::Commands => {
                match spec_command(data[pos]) {
                    None => None,
                    Some(PictureCommand::SetVisualColour) => if pos + 1 >= data.len() || data[pos + 1] >= 160 {
                        None
                    } else {
                        prefixed(
                            seq![DrawOp::SetColour(spec_blend(st.palettes[data[pos + 1] as int]))],
                            spec_picture(data, pos + 2, with_visual(st, true), PictureMode::Commands),
                        )
                    },
                    Some(PictureCommand::DisableVisual) => spec_picture(data, pos + 1, with_visual(st, false), PictureMode::Commands),
                    Some(PictureCommand::SetPriorityColour) => spec_picture(data, pos + 2, st, PictureMode::Commands),
                    Some(PictureCommand::DisablePriority) => spec_picture(data, pos + 1, st, PictureMode::Commands),
                    Some(PictureCommand::DrawShortRelativePatterns) => match read_texture_at(data, pos + 1, st.brush) {
                        None => None,
                        Some((p2, tex)) => if p2 + 3 > data.len() {
                            None
                        } else {
                            let (x, y) = spec_coordinates(data, p2);
                            then_rest(pattern_if(false, st, x, y, tex), spec_picture(data, p2 + 3, st, PictureMode::ShortRelativePatterns(x, y)))
                        },
                    },
                    Some(PictureCommand::DrawRelativeLines) => if pos + 4 > data.len() {
                        None
                    } else {
                        let (x, y) = spec_coordinates(data, pos + 1);
                        spec_picture(data, pos + 4, st, PictureMode::RelativeLines(x, y))
                    },
                    Some(PictureCommand::DrawAbsoluteLines) => if pos + 4 > data.len() {
                        None
                    } else {
                        let (x, y) = spec_coordinates(data, pos + 1);
                        spec_picture(data, pos + 4, st, PictureMode::AbsoluteLines(x, y))
                    },
                    Some(PictureCommand::DrawShortRelativeLines) => if pos + 4 > data.len() {
                        None
                    } else {
                        let (x, y) = spec_coordinates(data, pos + 1);
                        spec_picture(data, pos + 4, st, PictureMode::ShortRelativeLines(x, y))
                    },
                    Some(PictureCommand::FloodFill) => spec_picture(data, pos + 1, st, PictureMode::Fill),
                    Some(PictureCommand::SetPattern) => if pos + 1 >= data.len() {
                        None
                    } else {
                        spec_picture(data, pos + 2, with_brush(st, spec_brush(data[pos + 1])), PictureMode::Commands)
                    },
                    Some(PictureCommand::DrawAbsolutePatterns) => spec_picture(data, pos + 1, st, PictureMode::AbsolutePatterns),
                    Some(PictureCommand::SetControlColour) => spec_picture(data, pos + 2, st, PictureMode::Commands),
                    Some(PictureCommand::DisableControl) => spec_picture(data, pos + 1, st, PictureMode::Commands),
                    Some(PictureCommand::DrawRelativePatterns) => match read_texture_at(data, pos + 1, st.brush) {
                        None => None,
                        Some((p2, tex)) => if p2 + 3 > data.len() {
                            None
                        } else {
                            let (x, y) = spec_coordinates(data, p2);
                            then_rest(pattern_if(false, st, x, y, tex), spec_picture(data, p2 + 3, st, PictureMode::RelativePatterns(x, y)))
                        },
                    },
                    Some(PictureCommand::ExtendedCommand) => if pos + 1 >= data.len() {
                        None
                    } else {
                        match spec_extended_command(data[pos + 1]) {
                            None => None,
                            Some(ExtendedCommand::SetPaletteEntry) => spec_picture(data, pos + 2, st, PictureMode::PaletteEntries),
                            Some(ExtendedCommand::SetPalette) => if pos + 2 >= data.len() || data[pos + 2] % 40 >= 4 || pos + 43 > data.len() {
                                None
                            } else {
                                spec_picture(
                                    data,
                                    pos + 43,
                                    with_palettes(st, set_palette(st.palettes, (data[pos + 2] % 40) as int, data, pos + 3)),
                                    PictureMode::Commands,
                                )
                            },
                            Some(ExtendedCommand::SetMonoPalette) => spec_picture(data, pos + 43, st, PictureMode::Commands),
                            Some(ExtendedCommand::SetVisualMono) => spec_picture(data, pos + 3, st, PictureMode::Commands),
                            Some(ExtendedCommand::DisableVisualMono) => spec_picture(data, pos + 2, st, PictureMode::Commands),
                            Some(ExtendedCommand::SetDirectMonoVisual) => spec_picture(data, pos + 3, st, PictureMode::Commands),
                            Some(ExtendedCommand::DisableDirectMonoVisual) => spec_picture(data, pos + 2, st, PictureMode::Commands),
                        }
                    },
                    Some(PictureCommand::Finish) => Some(Seq::empty()),
                }
            },
            _ => if data[pos] >= 0xf0 {
                spec_picture(data, pos, st, PictureMode::Commands)
            } else {
                match mode {
                    PictureMode::ShortRelativePatterns(px, py) => match read_texture_at(data, pos, st.brush) {
                        None => None,
                        Some((p2, tex)) => if p2 >= data.len() {
                            None
                        } else {
                            let (ox, oy) = spec_short_offset(data[p2]);
                            then_rest(
                                pattern_if(false, st, px + ox, py + oy, tex),
                                spec_picture(data, p2 + 1, st, PictureMode::ShortRelativePatterns(px + ox, py + oy)),
                            )
                        },
                    },
                    PictureMode::RelativePatterns(px, py) => match read_texture_at(data, pos, st.brush) {
                        None => None,
                        Some((p2, tex)) => if p2 + 2 > data.len() {
                            None
                        } else {
                            let (ox, oy) = spec_relative_offset(data, p2);
                            then_rest(
                                pattern_if(true, st, px + ox, py + oy, tex),
                                spec_picture(data, p2 + 2, st, PictureMode::RelativePatterns(px + ox, py + oy)),
                            )
                        },
                    },
                    PictureMode::AbsolutePatterns => match read_texture_at(data, pos, st.brush) {
                        None => None,
                        Some((p2, tex)) => if p2 + 3 > data.len() {
                            None
                        } else {
                            let (x, y) = spec_coordinates(data, p2);
                            then_rest(pattern_if(false, st, x, y, tex), spec_picture(data, p2 + 3, st, PictureMode::AbsolutePatterns))
                        },
                    },
                    PictureMode::RelativeLines(sx, sy) => if pos + 2 > data.len() {
                        None
                    } else {
                        let (ox, oy) = spec_relative_offset(data, pos);
                        prefixed(
                            if st.visual { line_ops(sx, sy, sx + ox, sy + oy) } else { Seq::empty() },
                            spec_picture(data, pos + 2, st, PictureMode::RelativeLines(sx + ox, sy + oy)),
                        )
                    },
                    PictureMode::AbsoluteLines(sx, sy) => if pos + 3 > data.len() {
                        None
                    } else {
                        let (ex, ey) = spec_coordinates(data, pos);
                        prefixed(
                            if st.visual { line_ops(sx, sy, ex, ey) } else { Seq::empty() },
                            spec_picture(data, pos + 3, st, PictureMode::AbsoluteLines(ex, ey)),
                        )
                    },
                    PictureMode::ShortRelativeLines(sx, sy) => {
                        let (ox, oy) = spec_short_offset(data[pos]);
                        prefixed(
                            if st.visual { line_ops(sx, sy, sx + ox, sy + oy) } else { Seq::empty() },
                            spec_picture(data, pos + 1, st, PictureMode::ShortRelativeLines(sx + ox, sy + oy)),
                        )
                    },
                    PictureMode::Fill => if pos + 3 > data.len() {
                        None
                    } else {
                        let (x, y) = spec_coordinates(data, pos);
                        prefixed(
                            if st.visual { seq![DrawOp::FloodFill(x as i32, y as i32)] } else { Seq::empty() },
                            spec_picture(data, pos + 3, st, PictureMode::Fill),
                        )
                    },
                    PictureMode::PaletteEntries => if pos + 1 >= data.len() || data[pos] >= 160 {
                        None
                    } else {
                        spec_picture(
                            data,
                            pos + 2,
                            with_palettes(st, st.palettes.update(data[pos] as int, colour_pair(data[pos + 1]))),
                            PictureMode::PaletteEntries,
                        )
                    },
                    PictureMode::Commands => None,
                }
            },
        }
    }
}

/// The drawing operations that a picture resource's data describes.
pub open spec fn spec_draw_picture(data: Seq<u8>) -> Option<Seq<DrawOp>> {
    spec_picture(data, 0, initial_state(), PictureMode::Commands)
}

/// The three bytes (`u`, `lx`, `ly`) of an absolute point give x from the high
/// nibble of `u` above the bits of `lx`, and y from the low nibble of `u` above the
/// bits of `ly`: x = ((u & 0xf0) << 4) | lx, y = ((u & 0x0f) << 8) | ly.
pub proof fn lemma_absolute_point(u: u8, lx: u8, ly: u8)
    ensures
        spec_coordinates(seq![u, lx, ly], 0) == (
            (((u as u16 & 0xf0) << 4u16) | lx as u16) as int,
            (((u as u16 & 0x0f) << 8u16) | ly as u16) as int,
        ),
{
    let x = ((u as u16 & 0xf0) << 4u16) | lx as u16;
    let y = ((u as u16 & 0x0f) << 8u16) | ly as u16;
    assert(x == (u / 16) as u16 * 256 + lx as u16 && x < 0x1000) by (bit_vector)
        requires
            x == ((u as u16 & 0xf0) << 4u16) | lx as u16,
    ;
    assert(y == (u % 16) as u16 * 256 + ly as u16 && y < 0x1000) by (bit_vector)
        requires
            y == ((u as u16 & 0x0f) << 8u16) | ly as u16,
    ;
    assert(spec_coordinates(seq![u, lx, ly], 0) == ((u / 16) as int * 256 + lx, (u % 16) as int * 256 + ly));
}

/// A picture that fills from the absolute point (`u`, `lx`, `ly`) and finishes draws
/// exactly that fill, at x = ((u & 0xf0) << 4) | lx and y = ((u & 0x0f) << 8) | ly.
pub proof fn lemma_fill_at_absolute_point(u: u8, lx: u8, ly: u8)
    requires
        u < 0xf0,
    ensures
        spec_draw_picture(seq![0xf8u8, u, lx, ly, 0xffu8]) == Some(
            seq![
                DrawOp::FloodFill(
                    (((u as u16 & 0xf0) << 4u16) | lx as u16) as i32,
                    (((u as u16 & 0x0f) << 8u16) | ly as u16) as i32,
                ),
            ],
        ),
{
    lemma_absolute_point(u, lx, ly);
    let x = ((u as u16 & 0xf0) << 4u16) | lx as u16;
    let y = ((u as u16 & 0x0f) << 8u16) | ly as u16;
    let d = seq![0xf8u8, u, lx, ly, 0xffu8];
    let st = initial_state();
    assert(spec_coordinates(d, 1) == spec_coordinates(seq![u, lx, ly], 0));
    assert(spec_picture(d, 4, st, PictureMode::Commands) == Some(Seq::<DrawOp>::empty()));
    assert(spec_picture(d, 4, st, PictureMode::Fill) == spec_picture(d, 4, st, PictureMode::Commands));
    assert(spec_picture(d, 1, st, PictureMode::Fill) == prefixed(
        seq![DrawOp::FloodFill(x as i32, y as i32)],
        spec_picture(d, 4, st, PictureMode::Fill),
    ));
    assert(spec_picture(d, 0, st, PictureMode::Commands) == spec_picture(d, 1, st, PictureMode::Fill));
    assert(seq![DrawOp::FloodFill(x as i32, y as i32)] + Seq::<DrawOp>::empty() =~= seq![
        DrawOp::FloodFill(x as i32, y as i32),
    ]);
}

/// The decoder's state as a `PictureState`.
pub open spec fn state_of(visual: bool, palettes: Seq<DitheredColour>, brush: PatternBrush) -> PictureState {
    PictureState { visual, palettes, brush }
}

/// How far a point of an operand list can be from the origin, once `pos` bytes
/// have been read.
pub open spec fn point_bound(pos: int) -> int {
    4096 + 128 * pos
}

/// Keeps the decoding invariant across operations `h`.
proof fn lemma_emit(
    total: Option<Seq<DrawOp>>,
    before: Seq<DrawOp>,
    h: Seq<DrawOp>,
    after: Seq<DrawOp>,
    rest: Option<Seq<DrawOp>>,
)
    requires
        after == before + h,
        match prefixed(h, rest) {
            Some(r) => total == Some(before + r),
            None => total is None,
        },
    ensures
        match rest {
            Some(r) => total == Some(after + r),
            None => total is None,
        },
{
    if let Some(r) = rest {
        assert(before + (h + r) =~= after + r);
    }
}

/// Reads the texture byte before a pattern when the brush is textured.
fn read_texture_for(d: &mut Deserializer, brush: &PatternBrush) -> (r: Option<Option<u8>>)
    ensures
        final(d).data@ == old(d).data@,
        match read_texture_at(old(d).data@, old(d).index as int, *brush) {
            Some((p2, tex)) => r == Some(tex) && final(d).index == p2,
            None => r is None,
        },
{
    if brush.use_texture {
        match d.read_texture() {
            Some(t) => Some(Some(t)),
            None => None,
        }
    } else {
        Some(None)
    }
}

/// The decoder's drawing state.
pub struct DrawingState {
    pub visual: bool,
    /// The four palettes of 40 entries each, one after the other.
    pub palette: Vec<DitheredColour>,
    pub pattern_brush: PatternBrush,
}

impl DrawingState {
    /// This state as a `PictureState`.
    pub open spec fn spec_state(&self) -> PictureState {
        state_of(self.visual, self.palette@, self.pattern_brush)
    }

    /// The state is one the decoder can be in.
    pub open spec fn wf(&self) -> bool {
        &&& self.palette@.len() == 160
        &&& 0 <= self.pattern_brush.size < 8
    }
}

/// Decoding is on track: from byte `pos` in mode `mode`, the rest of the picture
/// appended to `ops` gives `total` (or `total` fails, as the rest does).
pub open spec fn on_track(
    total: Option<Seq<DrawOp>>,
    data: Seq<u8>,
    pos: int,
    st: PictureState,
    mode: PictureMode,
    ops: Seq<DrawOp>,
) -> bool {
    match spec_picture(data, pos, st, mode) {
        Some(rest) => total == Some(ops + rest),
        None => total is None,
    }
}

/// Draws lines, each ending at an offset from the end of the one before.
fn relative_lines(
    d: &mut Deserializer,
    st: &DrawingState,
    ops: &mut Vec<DrawOp>,
    Ghost(data): Ghost<Seq<u8>>,
    Ghost(total): Ghost<Option<Seq<DrawOp>>>,
    Ghost(pos): Ghost<int>,
) -> (ok: bool)
    requires
        old(d).data@ == data,
        data.len() <= 0xffff,
        st.wf(),
        0 <= pos < data.len(),
        old(d).index == pos + 1,
        on_track(total, data, pos, st.spec_state(), PictureMode::Commands, old(ops)@),
        data[pos] == 0xf5,
    ensures
        final(d).data@ == data,
        ok ==> final(d).index <= data.len() && final(d).index > pos,
        ok ==> on_track(total, data, final(d).index as int, st.spec_state(), PictureMode::Commands, final(ops)@),
        !ok ==> total is None,
{
    let ghost sst = st.spec_state();
    let ghost before = ops@;
    let mut start = match d.read_coordinates() {
        Some(p) => p,
        None => {
            assert(spec_picture(data, pos, sst, PictureMode::Commands) is None);
            return false;
        },
    };
    assert(spec_picture(data, pos, sst, PictureMode::Commands) == spec_picture(data, d.index as int, sst, PictureMode::RelativeLines(start.x as int, start.y as int)));
    loop
        invariant_except_break
            d.data@ == data,
            data.len() <= 0xffff,
            st.wf(),
            sst == st.spec_state(),
            pos < d.index <= data.len(),
            -point_bound(d.index as int) <= start.x <= point_bound(d.index as int),
            -point_bound(d.index as int) <= start.y <= point_bound(d.index as int),
            on_track(total, data, d.index as int, sst, PictureMode::RelativeLines(start.x as int, start.y as int), ops@),
        ensures
            d.data@ == data,
            pos < d.index <= data.len(),
            on_track(total, data, d.index as int, sst, PictureMode::Commands, ops@),
        decreases data.len() - d.index,
    {
        let ghost ipos = d.index as int;
        let ghost ibefore = ops@;
        let is_command = match d.next_is_command() {
            Some(b) => b,
            None => {
                assert(spec_picture(data, ipos, sst, PictureMode::RelativeLines(start.x as int, start.y as int)) is None);
                return false;
            },
        };
        if is_command {
            assert(spec_picture(data, ipos, sst, PictureMode::RelativeLines(start.x as int, start.y as int)) == spec_picture(data, ipos, sst, PictureMode::Commands));
            break;
        }
        let (offset_x, offset_y) = match d.read_relative_offset() {
            Some(o) => o,
            None => {
                assert(spec_picture(data, ipos, sst, PictureMode::RelativeLines(start.x as int, start.y as int)) is None);
                return false;
            },
        };
        let end = start.offset(offset_x, offset_y);
        if st.visual {
            draw_line(ops, &start, &end);
        }
        proof {
            let h = if st.visual { line_ops(start.x as int, start.y as int, end.x as int, end.y as int) } else { Seq::empty() };
            assert(ops@ =~= ibefore + h);
            assert(spec_picture(data, ipos, sst, PictureMode::RelativeLines(start.x as int, start.y as int)) == prefixed(h,
                spec_picture(data, ipos + 2, sst, PictureMode::RelativeLines(end.x as int, end.y as int))));
            lemma_emit(total, ibefore, h, ops@,
                spec_picture(data, ipos + 2, sst, PictureMode::RelativeLines(end.x as int, end.y as int)));
        }
        start = end;
    }
    true
}

/// Draws lines, each ending at given coordinates.
fn absolute_lines(
    d: &mut Deserializer,
    st: &DrawingState,
    ops: &mut Vec<DrawOp>,
    Ghost(data): Ghost<Seq<u8>>,
    Ghost(total): Ghost<Option<Seq<DrawOp>>>,
    Ghost(pos): Ghost<int>,
) -> (ok: bool)
    requires
        old(d).data@ == data,
        data.len() <= 0xffff,
        st.wf(),
        0 <= pos < data.len(),
        old(d).index == pos + 1,
        on_track(total, data, pos, st.spec_state(), PictureMode::Commands, old(ops)@),
        data[pos] == 0xf6,
    ensures
        final(d).data@ == data,
        ok ==> final(d).index <= data.len() && final(d).index > pos,
        ok ==> on_track(total, data, final(d).index as int, st.spec_state(), PictureMode::Commands, final(ops)@),
        !ok ==> total is None,
{
    let ghost sst = st.spec_state();
    let ghost before = ops@;
    let mut start = match d.read_coordinates() {
        Some(p) => p,
        None => {
            assert(spec_picture(data, pos, sst, PictureMode::Commands) is None);
            return false;
        },
    };
    assert(spec_picture(data, pos, sst, PictureMode::Commands) == spec_picture(data, d.index as int, sst, PictureMode::AbsoluteLines(start.x as int, start.y as int)));
    loop
        invariant_except_break
            d.data@ == data,
            data.len() <= 0xffff,
            st.wf(),
            sst == st.spec_state(),
            pos < d.index <= data.len(),
            0 <= start.x < 4096,
            0 <= start.y < 4096,
            on_track(total, data, d.index as int, sst, PictureMode::AbsoluteLines(start.x as int, start.y as int), ops@),
        ensures
            d.data@ == data,
            pos < d.index <= data.len(),
            on_track(total, data, d.index as int, sst, PictureMode::Commands, ops@),
        decreases data.len() - d.index,
    {
        let ghost ipos = d.index as int;
        let ghost ibefore = ops@;
        let is_command = match d.next_is_command() {
            Some(b) => b,
            None => {
                assert(spec_picture(data, ipos, sst, PictureMode::AbsoluteLines(start.x as int, start.y as int)) is None);
                return false;
            },
        };
        if is_command {
            assert(spec_picture(data, ipos, sst, PictureMode::AbsoluteLines(start.x as int, start.y as int)) == spec_picture(data, ipos, sst, PictureMode::Commands));
            break;
        }
        let end = match d.read_coordinates() {
            Some(p) => p,
            None => {
                assert(spec_picture(data, ipos, sst, PictureMode::AbsoluteLines(start.x as int, start.y as int)) is None);
                return false;
            },
        };
        if st.visual {
            draw_line(ops, &start, &end);
        }
        proof {
            let h = if st.visual { line_ops(start.x as int, start.y as int, end.x as int, end.y as int) } else { Seq::empty() };
            assert(ops@ =~= ibefore + h);
            assert(spec_picture(data, ipos, sst, PictureMode::AbsoluteLines(start.x as int, start.y as int)) == prefixed(h,
                spec_picture(data, ipos + 3, sst, PictureMode::AbsoluteLines(end.x as int, end.y as int))));
            lemma_emit(total, ibefore, h, ops@,
                spec_picture(data, ipos + 3, sst, PictureMode::AbsoluteLines(end.x as int, end.y as int)));
        }
        start = end;
    }
    true
}

/// Draws lines, each ending at a short offset from the end of the one before.
fn short_relative_lines(
    d: &mut Deserializer,
    st: &DrawingState,
    ops: &mut Vec<DrawOp>,
    Ghost(data): Ghost<Seq<u8>>,
    Ghost(total): Ghost<Option<Seq<DrawOp>>>,
    Ghost(pos): Ghost<int>,
) -> (ok: bool)
    requires
        old(d).data@ == data,
        data.len() <= 0xffff,
        st.wf(),
        0 <= pos < data.len(),
        old(d).index == pos + 1,
        on_track(total, data, pos, st.spec_state(), PictureMode::Commands, old(ops)@),
        data[pos] == 0xf7,
    ensures
        final(d).data@ == data,
        ok ==> final(d).index <= data.len() && final(d).index > pos,
        ok ==> on_track(total, data, final(d).index as int, st.spec_state(), PictureMode::Commands, final(ops)@),
        !ok ==> total is None,
{
    let ghost sst = st.spec_state();
    let ghost before = ops@;
    let mut start = match d.read_coordinates() {
        Some(p) => p,
        None => {
            assert(spec_picture(data, pos, sst, PictureMode::Commands) is None);
            return false;
        },
    };
    assert(spec_picture(data, pos, sst, PictureMode::Commands) == spec_picture(data, d.index as int, sst, PictureMode::ShortRelativeLines(start.x as int, start.y as int)));
    loop
        invariant_except_break
            d.data@ == data,
            data.len() <= 0xffff,
            st.wf(),
            sst == st.spec_state(),
            pos < d.index <= data.len(),
            -point_bound(d.index as int) <= start.x <= point_bound(d.index as int),
            -point_bound(d.index as int) <= start.y <= point_bound(d.index as int),
            on_track(total, data, d.index as int, sst, PictureMode::ShortRelativeLines(start.x as int, start.y as int), ops@),
        ensures
            d.data@ == data,
            pos < d.index <= data.len(),
            on_track(total, data, d.index as int, sst, PictureMode::Commands, ops@),
        decreases data.len() - d.index,
    {
        let ghost ipos = d.index as int;
        let ghost ibefore = ops@;
        let is_command = match d.next_is_command() {
            Some(b) => b,
            None => {
                assert(spec_picture(data, ipos, sst, PictureMode::ShortRelativeLines(start.x as int, start.y as int)) is None);
                return false;
            },
        };
        if is_command {
            assert(spec_picture(data, ipos, sst, PictureMode::ShortRelativeLines(start.x as int, start.y as int)) == spec_picture(data, ipos, sst, PictureMode::Commands));
            break;
        }
        let (offset_x, offset_y) = match d.read_short_relative_offset() {
            Some(o) => o,
            None => {
                assert(spec_picture(data, ipos, sst, PictureMode::ShortRelativeLines(start.x as int, start.y as int)) is None);
                return false;
            },
        };
        let end = start.offset(offset_x, offset_y);
        if st.visual {
            draw_line(ops, &start, &end);
        }
        proof {
            let h = if st.visual { line_ops(start.x as int, start.y as int, end.x as int, end.y as int) } else { Seq::empty() };
            assert(ops@ =~= ibefore + h);
            assert(spec_picture(data, ipos, sst, PictureMode::ShortRelativeLines(start.x as int, start.y as int)) == prefixed(h,
                spec_picture(data, ipos + 1, sst, PictureMode::ShortRelativeLines(end.x as int, end.y as int))));
            lemma_emit(total, ibefore, h, ops@,
                spec_picture(data, ipos + 1, sst, PictureMode::ShortRelativeLines(end.x as int, end.y as int)));
        }
        start = end;
    }
    true
}

/// Flood fills at the given points.
fn flood_fills(
    d: &mut Deserializer,
    st: &DrawingState,
    ops: &mut Vec<DrawOp>,
    Ghost(data): Ghost<Seq<u8>>,
    Ghost(total): Ghost<Option<Seq<DrawOp>>>,
    Ghost(pos): Ghost<int>,
) -> (ok: bool)
    requires
        old(d).data@ == data,
        data.len() <= 0xffff,
        st.wf(),
        0 <= pos < data.len(),
        old(d).index == pos + 1,
        on_track(total, data, pos, st.spec_state(), PictureMode::Commands, old(ops)@),
        data[pos] == 0xf8,
    ensures
        final(d).data@ == data,
        ok ==> final(d).index <= data.len() && final(d).index > pos,
        ok ==> on_track(total, data, final(d).index as int, st.spec_state(), PictureMode::Commands, final(ops)@),
        !ok ==> total is None,
{
    let ghost sst = st.spec_state();
    let ghost before = ops@;

    assert(spec_picture(data, pos, sst, PictureMode::Commands) == spec_picture(data, d.index as int, sst, PictureMode::Fill));
    loop
        invariant_except_break
            d.data@ == data,
            data.len() <= 0xffff,
            st.wf(),
            sst == st.spec_state(),
            pos < d.index <= data.len(),
            on_track(total, data, d.index as int, sst, PictureMode::Fill, ops@),
        ensures
            d.data@ == data,
            pos < d.index <= data.len(),
            on_track(total, data, d.index as int, sst, PictureMode::Commands, ops@),
        decreases data.len() - d.index,
    {
        let ghost ipos = d.index as int;
        let ghost ibefore = ops@;
        let is_command = match d.next_is_command() {
            Some(b) => b,
            None => {
                assert(spec_picture(data, ipos, sst, PictureMode::Fill) is None);
                return false;
            },
        };
        if is_command {
            assert(spec_picture(data, ipos, sst, PictureMode::Fill) == spec_picture(data, ipos, sst, PictureMode::Commands));
            break;
        }
        let p = match d.read_coordinates() {
            Some(p) => p,
            None => {
                assert(spec_picture(data, ipos, sst, PictureMode::Fill) is None);
                return false;
            },
        };
        if st.visual {
            ops.push(DrawOp::FloodFill(p.x, p.y));
        }
        proof {
            let h = if st.visual { seq![DrawOp::FloodFill(p.x, p.y)] } else { Seq::empty() };
            assert(ops@ =~= ibefore + h);
            assert(spec_picture(data, ipos, sst, PictureMode::Fill) == prefixed(h,
                spec_picture(data, ipos + 3, sst, PictureMode::Fill)));
            lemma_emit(total, ibefore, h, ops@, spec_picture(data, ipos + 3, sst, PictureMode::Fill));
        }
    }
    true
}

/// Draws patterns, each at a short offset from the one before.
fn short_relative_patterns(
    d: &mut Deserializer,
    st: &DrawingState,
    ops: &mut Vec<DrawOp>,
    Ghost(data): Ghost<Seq<u8>>,
    Ghost(total): Ghost<Option<Seq<DrawOp>>>,
    Ghost(pos): Ghost<int>,
) -> (ok: bool)
    requires
        old(d).data@ == data,
        data.len() <= 0xffff,
        st.wf(),
        0 <= pos < data.len(),
        old(d).index == pos + 1,
        on_track(total, data, pos, st.spec_state(), PictureMode::Commands, old(ops)@),
        data[pos] == 0xf4,
    ensures
        final(d).data@ == data,
        ok ==> final(d).index <= data.len() && final(d).index > pos,
        ok ==> on_track(total, data, final(d).index as int, st.spec_state(), PictureMode::Commands, final(ops)@),
        !ok ==> total is None,
{
    let ghost sst = st.spec_state();
    let ghost before = ops@;
    let texture = match read_texture_for(d, &st.pattern_brush) {
        Some(t) => t,
        None => {
            assert(spec_picture(data, pos, sst, PictureMode::Commands) is None);
            return false;
        },
    };
    let mut p = match d.read_coordinates() {
        Some(p) => p,
        None => {
            assert(spec_picture(data, pos, sst, PictureMode::Commands) is None);
            return false;
        },
    };
    if st.visual {
        if !draw_pattern(ops, &p, &st.pattern_brush, texture) {
            assert(spec_picture(data, pos, sst, PictureMode::Commands) is None);
            return false;
        }
    }
    proof {
        let h = pattern_if(false, sst, p.x as int, p.y as int, texture).unwrap();
        assert(ops@ =~= before + h);
        assert(spec_picture(data, pos, sst, PictureMode::Commands) == prefixed(h,
            spec_picture(data, d.index as int, sst, PictureMode::ShortRelativePatterns(p.x as int, p.y as int))));
        lemma_emit(total, before, h, ops@, spec_picture(data, d.index as int, sst, PictureMode::ShortRelativePatterns(p.x as int, p.y as int)));
    }
    loop
        invariant_except_break
            d.data@ == data,
            data.len() <= 0xffff,
            st.wf(),
            sst == st.spec_state(),
            pos < d.index <= data.len(),
            -point_bound(d.index as int) <= p.x <= point_bound(d.index as int),
            -point_bound(d.index as int) <= p.y <= point_bound(d.index as int),
            on_track(total, data, d.index as int, sst, PictureMode::ShortRelativePatterns(p.x as int, p.y as int), ops@),
        ensures
            d.data@ == data,
            pos < d.index <= data.len(),
            on_track(total, data, d.index as int, sst, PictureMode::Commands, ops@),
        decreases data.len() - d.index,
    {
        let ghost ipos = d.index as int;
        let ghost ibefore = ops@;
        let is_command = match d.next_is_command() {
            Some(b) => b,
            None => {
                assert(spec_picture(data, ipos, sst, PictureMode::ShortRelativePatterns(p.x as int, p.y as int)) is None);
                return false;
            },
        };
        if is_command {
            assert(spec_picture(data, ipos, sst, PictureMode::ShortRelativePatterns(p.x as int, p.y as int)) == spec_picture(data, ipos, sst, PictureMode::Commands));
            break;
        }
        let texture = match read_texture_for(d, &st.pattern_brush) {
            Some(t) => t,
            None => {
                assert(spec_picture(data, ipos, sst, PictureMode::ShortRelativePatterns(p.x as int, p.y as int)) is None);
                return false;
            },
        };
        let (offset_x, offset_y) = match d.read_short_relative_offset() {
            Some(o) => o,
            None => {
                assert(spec_picture(data, ipos, sst, PictureMode::ShortRelativePatterns(p.x as int, p.y as int)) is None);
                return false;
            },
        };
        let ghost old_p = p;
        p = p.offset(offset_x, offset_y);
        if st.visual {
            if !draw_pattern(ops, &p, &st.pattern_brush, texture) {
                assert(spec_picture(data, ipos, sst, PictureMode::ShortRelativePatterns(old_p.x as int, old_p.y as int)) is None);
                return false;
            }
        }
        proof {
            let h = pattern_if(false, sst, p.x as int, p.y as int, texture).unwrap();
            assert(ops@ =~= ibefore + h);
            assert(spec_picture(data, ipos, sst, PictureMode::ShortRelativePatterns(old_p.x as int, old_p.y as int)) == prefixed(h,
                spec_picture(data, d.index as int, sst, PictureMode::ShortRelativePatterns(p.x as int, p.y as int))));
            lemma_emit(total, ibefore, h, ops@, spec_picture(data, d.index as int, sst, PictureMode::ShortRelativePatterns(p.x as int, p.y as int)));
        }
    }
    true
}

/// Draws patterns, each at an offset from the one before; after the first, whether visual drawing is on or not.
fn relative_patterns(
    d: &mut Deserializer,
    st: &DrawingState,
    ops: &mut Vec<DrawOp>,
    Ghost(data): Ghost<Seq<u8>>,
    Ghost(total): Ghost<Option<Seq<DrawOp>>>,
    Ghost(pos): Ghost<int>,
) -> (ok: bool)
    requires
        old(d).data@ == data,
        data.len() <= 0xffff,
        st.wf(),
        0 <= pos < data.len(),
        old(d).index == pos + 1,
        on_track(total, data, pos, st.spec_state(), PictureMode::Commands, old(ops)@),
        data[pos] == 0xfd,
    ensures
        final(d).data@ == data,
        ok ==> final(d).index <= data.len() && final(d).index > pos,
        ok ==> on_track(total, data, final(d).index as int, st.spec_state(), PictureMode::Commands, final(ops)@),
        !ok ==> total is None,
{
    let ghost sst = st.spec_state();
    let ghost before = ops@;
    let texture = match read_texture_for(d, &st.pattern_brush) {
        Some(t) => t,
        None => {
            assert(spec_picture(data, pos, sst, PictureMode::Commands) is None);
            return false;
        },
    };
    let mut p = match d.read_coordinates() {
        Some(p) => p,
        None => {
            assert(spec_picture(data, pos, sst, PictureMode::Commands) is None);
            return false;
        },
    };
    if st.visual {
        if !draw_pattern(ops, &p, &st.pattern_brush, texture) {
            assert(spec_picture(data, pos, sst, PictureMode::Commands) is None);
            return false;
        }
    }
    proof {
        let h = pattern_if(false, sst, p.x as int, p.y as int, texture).unwrap();
        assert(ops@ =~= before + h);
        assert(spec_picture(data, pos, sst, PictureMode::Commands) == prefixed(h,
            spec_picture(data, d.index as int, sst, PictureMode::RelativePatterns(p.x as int, p.y as int))));
        lemma_emit(total, before, h, ops@, spec_picture(data, d.index as int, sst, PictureMode::RelativePatterns(p.x as int, p.y as int)));
    }
    loop
        invariant_except_break
            d.data@ == data,
            data.len() <= 0xffff,
            st.wf(),
            sst == st.spec_state(),
            pos < d.index <= data.len(),
            -point_bound(d.index as int) <= p.x <= point_bound(d.index as int),
            -point_bound(d.index as int) <= p.y <= point_bound(d.index as int),
            on_track(total, data, d.index as int, sst, PictureMode::RelativePatterns(p.x as int, p.y as int), ops@),
        ensures
            d.data@ == data,
            pos < d.index <= data.len(),
            on_track(total, data, d.index as int, sst, PictureMode::Commands, ops@),
        decreases data.len() - d.index,
    {
        let ghost ipos = d.index as int;
        let ghost ibefore = ops@;
        let is_command = match d.next_is_command() {
            Some(b) => b,
            None => {
                assert(spec_picture(data, ipos, sst, PictureMode::RelativePatterns(p.x as int, p.y as int)) is None);
                return false;
            },
        };
        if is_command {
            assert(spec_picture(data, ipos, sst, PictureMode::RelativePatterns(p.x as int, p.y as int)) == spec_picture(data, ipos, sst, PictureMode::Commands));
            break;
        }
        let texture = match read_texture_for(d, &st.pattern_brush) {
            Some(t) => t,
            None => {
                assert(spec_picture(data, ipos, sst, PictureMode::RelativePatterns(p.x as int, p.y as int)) is None);
                return false;
            },
        };
        let (offset_x, offset_y) = match d.read_relative_offset() {
            Some(o) => o,
            None => {
                assert(spec_picture(data, ipos, sst, PictureMode::RelativePatterns(p.x as int, p.y as int)) is None);
                return false;
            },
        };
        let ghost old_p = p;
        p = p.offset(offset_x, offset_y);
        if true {
            if !draw_pattern(ops, &p, &st.pattern_brush, texture) {
                assert(spec_picture(data, ipos, sst, PictureMode::RelativePatterns(old_p.x as int, old_p.y as int)) is None);
                return false;
            }
        }
        proof {
            let h = pattern_if(true, sst, p.x as int, p.y as int, texture).unwrap();
            assert(ops@ =~= ibefore + h);
            assert(spec_picture(data, ipos, sst, PictureMode::RelativePatterns(old_p.x as int, old_p.y as int)) == prefixed(h,
                spec_picture(data, d.index as int, sst, PictureMode::RelativePatterns(p.x as int, p.y as int))));
            lemma_emit(total, ibefore, h, ops@, spec_picture(data, d.index as int, sst, PictureMode::RelativePatterns(p.x as int, p.y as int)));
        }
    }
    true
}

/// Draws patterns at the given points.
fn absolute_patterns(
    d: &mut Deserializer,
    st: &DrawingState,
    ops: &mut Vec<DrawOp>,
    Ghost(data): Ghost<Seq<u8>>,
    Ghost(total): Ghost<Option<Seq<DrawOp>>>,
    Ghost(pos): Ghost<int>,
) -> (ok: bool)
    requires
        old(d).data@ == data,
        data.len() <= 0xffff,
        st.wf(),
        0 <= pos < data.len(),
        old(d).index == pos + 1,
        on_track(total, data, pos, st.spec_state(), PictureMode::Commands, old(ops)@),
        data[pos] == 0xfa,
    ensures
        final(d).data@ == data,
        ok ==> final(d).index <= data.len() && final(d).index > pos,
        ok ==> on_track(total, data, final(d).index as int, st.spec_state(), PictureMode::Commands, final(ops)@),
        !ok ==> total is None,
{
    let ghost sst = st.spec_state();
    let ghost before = ops@;

    assert(spec_picture(data, pos, sst, PictureMode::Commands) == spec_picture(data, d.index as int, sst, PictureMode::AbsolutePatterns));
    loop
        invariant_except_break
            d.data@ == data,
            data.len() <= 0xffff,
            st.wf(),
            sst == st.spec_state(),
            pos < d.index <= data.len(),
            on_track(total, data, d.index as int, sst, PictureMode::AbsolutePatterns, ops@),
        ensures
            d.data@ == data,
            pos < d.index <= data.len(),
            on_track(total, data, d.index as int, sst, PictureMode::Commands, ops@),
        decreases data.len() - d.index,
    {
        let ghost ipos = d.index as int;
        let ghost ibefore = ops@;
        let is_command = match d.next_is_command() {
            Some(b) => b,
            None => {
                assert(spec_picture(data, ipos, sst, PictureMode::AbsolutePatterns) is None);
                return false;
            },
        };
        if is_command {
            assert(spec_picture(data, ipos, sst, PictureMode::AbsolutePatterns) == spec_picture(data, ipos, sst, PictureMode::Commands));
            break;
        }
        let texture = match read_texture_for(d, &st.pattern_brush) {
            Some(t) => t,
            None => {
                assert(spec_picture(data, ipos, sst, PictureMode::AbsolutePatterns) is None);
                return false;
            },
        };
        let p = match d.read_coordinates() {
            Some(p) => p,
            None => {
                assert(spec_picture(data, ipos, sst, PictureMode::AbsolutePatterns) is None);
                return false;
            },
        };
        if st.visual {
            if !draw_pattern(ops, &p, &st.pattern_brush, texture) {
                assert(spec_picture(data, ipos, sst, PictureMode::AbsolutePatterns) is None);
                return false;
            }
        }
        proof {
            let h = pattern_if(false, sst, p.x as int, p.y as int, texture).unwrap();
            assert(ops@ =~= ibefore + h);
            assert(spec_picture(data, ipos, sst, PictureMode::AbsolutePatterns) == prefixed(h,
                spec_picture(data, d.index as int, sst, PictureMode::AbsolutePatterns)));
            lemma_emit(total, ibefore, h, ops@, spec_picture(data, d.index as int, sst, PictureMode::AbsolutePatterns));
        }
    }
    true
}

/// Runs an extended command: palette changes, or monochrome settings that are
/// skipped.
fn extended_command(
    d: &mut Deserializer,
    st: &mut DrawingState,
    ops: &Vec<DrawOp>,
    Ghost(data): Ghost<Seq<u8>>,
    Ghost(total): Ghost<Option<Seq<DrawOp>>>,
    Ghost(pos): Ghost<int>,
) -> (ok: bool)
    requires
        old(d).data@ == data,
        data.len() <= 0xffff,
        old(st).wf(),
        0 <= pos < data.len(),
        old(d).index == pos + 1,
        on_track(total, data, pos, old(st).spec_state(), PictureMode::Commands, ops@),
        data[pos] == 0xfe,
    ensures
        final(d).data@ == data,
        ok ==> final(st).wf(),
        ok ==> final(d).index <= data.len() + 43 && final(d).index > pos,
        ok ==> on_track(total, data, final(d).index as int, final(st).spec_state(), PictureMode::Commands, ops@),
        !ok ==> total is None,
{
    let ghost sst = st.spec_state();
    let ext = match d.read_extended_command() {
        Some(e) => e,
        None => {
            assert(spec_picture(data, pos, sst, PictureMode::Commands) is None);
            return false;
        },
    };
    match ext {
        ExtendedCommand::SetPaletteEntry => {
            assert(spec_picture(data, pos, sst, PictureMode::Commands) == spec_picture(data, d.index as int, sst, PictureMode::PaletteEntries));
            loop
                invariant_except_break
                    d.data@ == data,
                    data.len() <= 0xffff,
                    st.wf(),
                    pos < d.index <= data.len(),
                    on_track(total, data, d.index as int, st.spec_state(), PictureMode::PaletteEntries, ops@),
                ensures
                    d.data@ == data,
                    st.wf(),
                    pos < d.index <= data.len(),
                    on_track(total, data, d.index as int, st.spec_state(), PictureMode::Commands, ops@),
                decreases data.len() - d.index,
            {
                let ghost ipos = d.index as int;
                let ghost ist = st.spec_state();
                let is_command = match d.next_is_command() {
                    Some(b) => b,
                    None => {
                        assert(spec_picture(data, ipos, ist, PictureMode::PaletteEntries) is None);
                        return false;
                    },
                };
                if is_command {
                    assert(spec_picture(data, ipos, ist, PictureMode::PaletteEntries) == spec_picture(data, ipos, ist, PictureMode::Commands));
                    break;
                }
                let (palette_num, palette_idx) = match d.read_palette_entry() {
                    Some(e) => e,
                    None => {
                        assert(spec_picture(data, ipos, ist, PictureMode::PaletteEntries) is None);
                        return false;
                    },
                };
                let pair = match d.read_colour_pair() {
                    Some(c) => c,
                    None => {
                        assert(spec_picture(data, ipos, ist, PictureMode::PaletteEntries) is None);
                        return false;
                    },
                };
                if palette_num >= 4 {
                    assert(spec_picture(data, ipos, ist, PictureMode::PaletteEntries) is None);
                    return false;
                }
                st.palette.set(palette_num * PALETTE_SIZE + palette_idx, pair);
                proof {
                    assert(st.spec_state() == with_palettes(ist, ist.palettes.update(data[ipos] as int, colour_pair(data[ipos + 1]))));
                    assert(spec_picture(data, ipos, ist, PictureMode::PaletteEntries) == spec_picture(data, d.index as int,
                        st.spec_state(), PictureMode::PaletteEntries));
                }
            }
        },
        ExtendedCommand::SetPalette => {
            let (_, palette_num) = match d.read_palette_entry() {
                Some(e) => e,
                None => {
                    assert(spec_picture(data, pos, sst, PictureMode::Commands) is None);
                    return false;
                },
            };
            if palette_num >= 4 {
                assert(spec_picture(data, pos, sst, PictureMode::Commands) is None);
                return false;
            }
            if d.index > d.data.len() || d.data.len() - d.index < PALETTE_SIZE {
                assert(spec_picture(data, pos, sst, PictureMode::Commands) is None);
                return false;
            }
            let ghost old_palette = st.palette@;
            let ghost at = d.index as int;
            let mut j: usize = 0;
            while j < PALETTE_SIZE
                invariant
                    j <= PALETTE_SIZE,
                    palette_num < 4,
                    d.data@ == data,
                    d.index == at + j,
                    at + 40 <= data.len(),
                    st.palette@.len() == 160,
                    st.visual == sst.visual,
                    st.pattern_brush == sst.brush,
                    old_palette == sst.palettes,
                    old_palette.len() == 160,
                    st.palette@ == Seq::new(160, |i: int|
                        if palette_num * 40 <= i < palette_num * 40 + j {
                            colour_pair(data[at + i - palette_num * 40])
                        } else {
                            old_palette[i]
                        }),
                decreases PALETTE_SIZE - j,
            {
                let pair = match d.read_colour_pair() {
                    Some(c) => c,
                    None => return false,
                };
                st.palette.set(palette_num * PALETTE_SIZE + j, pair);
                j = j + 1;
                assert(st.palette@ =~= Seq::new(160, |i: int|
                        if palette_num * 40 <= i < palette_num * 40 + j {
                            colour_pair(data[at + i - palette_num * 40])
                        } else {
                            old_palette[i]
                        }));
            }
            proof {
                assert(st.palette@ =~= set_palette(old_palette, palette_num as int, data, pos + 3));
                assert(st.spec_state() == with_palettes(sst, set_palette(sst.palettes, palette_num as int, data, pos + 3)));
            }
        },
        ExtendedCommand::SetMonoPalette => {
            d.skip(PALETTE_SIZE + 1);
        },
        ExtendedCommand::SetVisualMono => {
            d.skip(1);
        },
        ExtendedCommand::DisableVisualMono => {},
        ExtendedCommand::SetDirectMonoVisual => {
            d.skip(1);
        },
        ExtendedCommand::DisableDirectMonoVisual => {},
    }
    true
}

/// Runs a command that changes the drawing state (or skips an operand).
fn state_command(
    d: &mut Deserializer,
    st: &mut DrawingState,
    ops: &mut Vec<DrawOp>,
    Ghost(data): Ghost<Seq<u8>>,
    Ghost(total): Ghost<Option<Seq<DrawOp>>>,
    Ghost(pos): Ghost<int>,
    command: PictureCommand,
) -> (ok: bool)
    requires
        old(d).data@ == data,
        data.len() <= 0xffff,
        old(st).wf(),
        0 <= pos < data.len(),
        old(d).index == pos + 1,
        on_track(total, data, pos, old(st).spec_state(), PictureMode::Commands, old(ops)@),
        spec_command(data[pos]) == Some(command),
        command is SetVisualColour || command is DisableVisual || command is SetPriorityColour
            || command is DisablePriority || command is SetPattern || command is SetControlColour
            || command is DisableControl,
    ensures
        final(d).data@ == data,
        ok ==> final(st).wf(),
        ok ==> final(d).index <= data.len() + 43 && final(d).index > pos,
        ok ==> on_track(total, data, final(d).index as int, final(st).spec_state(), PictureMode::Commands, final(ops)@),
        !ok ==> total is None,
{
    let ghost sst = st.spec_state();
    let ghost before = ops@;
    match command {
            PictureCommand::SetVisualColour => {
                let (palette_num, palette_idx) = match d.read_palette_entry() {
                    Some(e) => e,
                    None => {
                        assert(spec_picture(data, pos, sst, PictureMode::Commands) is None);
                        return false;
                    },
                };
                if palette_num >= 4 {
                    assert(spec_picture(data, pos, sst, PictureMode::Commands) is None);
                    return false;
                }
                let dither = st.palette[palette_num * PALETTE_SIZE + palette_idx];
                let c = dither.blend();
                ops.push(DrawOp::SetColour(c));
                st.visual = true;
                proof {
                    assert(ops@ =~= before + seq![DrawOp::SetColour(c)]);
                    lemma_emit(total, before, seq![DrawOp::SetColour(c)], ops@,
                        spec_picture(data, pos + 2, with_visual(sst, true), PictureMode::Commands));
                }
                true
            },
            PictureCommand::DisableVisual => {
                st.visual = false;
                true
            },
            PictureCommand::SetPriorityColour => {
                d.skip(1);
                true
            },
            PictureCommand::DisablePriority => true,
            PictureCommand::SetPattern => {
                st.pattern_brush = match d.read_pattern_brush() {
                    Some(b) => b,
                    None => {
                        assert(spec_picture(data, pos, sst, PictureMode::Commands) is None);
                        return false;
                    },
                };
                true
            },
            PictureCommand::SetControlColour => {
                d.skip(1);
                true
            },
            _ => true,
    }
}

/// Decodes a picture resource's data into the drawing operations that show it on the
/// 320 x 190 viewport; `None` where the data ends before the finish command, holds an
/// unknown command, names a palette past the fourth, or a texture past the start
/// table. A resource holds at most 0xffff bytes: its size field has 16 bits.
pub fn draw_image(data: &[u8]) -> (ops: Option<Vec<DrawOp>>)
    requires
        data@.len() <= 0xffff,
    ensures
        match ops {
            Some(o) => spec_draw_picture(data@) == Some(o@),
            None => spec_draw_picture(data@) is None,
        },
        data@.len() == 0 || data@[0] < 0xf0 ==> ops is None,
{
    let ghost total = spec_draw_picture(data@);
    let mut d = Deserializer::new(data);
    let default_palette = DitheredColour::default_palette();
    let mut palette: Vec<DitheredColour> = Vec::new();
    let mut i: usize = 0;
    while i < 160
        invariant
            i <= 160,
            default_palette@ == spec_default_palette(),
            palette@ == initial_state().palettes.subrange(0, i as int),
        decreases 160 - i,
    {
        palette.push(default_palette[i % PALETTE_SIZE]);
        i = i + 1;
        assert(palette@ =~= initial_state().palettes.subrange(0, i as int));
    }
    assert(palette@ =~= initial_state().palettes);
    let mut st = DrawingState {
        visual: true,
        palette,
        pattern_brush: PatternBrush { size: 0, shape: BrushShape::Circle, use_texture: false },
    };
    let mut ops: Vec<DrawOp> = Vec::new();
    assert(ops@ + total.unwrap() =~= total.unwrap());
    loop
        invariant
            d.data@ == data@,
            data@.len() <= 0xffff,
            d.index <= data@.len() + 43,
            st.wf(),
            total == spec_draw_picture(data@),
            on_track(total, data@, d.index as int, st.spec_state(), PictureMode::Commands, ops@),
        decreases data@.len() + 64 - d.index,
    {
        let ghost pos = d.index as int;
        let ghost sst = st.spec_state();
        let ghost before = ops@;
        let command = match d.read_command() {
            Some(c) => c,
            None => {
                assert(spec_picture(data@, pos, sst, PictureMode::Commands) is None);
                return None;
            },
        };
        let ok = match command {
            PictureCommand::DrawShortRelativePatterns => short_relative_patterns(&mut d, &st, &mut ops, Ghost(data@), Ghost(total), Ghost(pos)),
            PictureCommand::DrawRelativeLines => relative_lines(&mut d, &st, &mut ops, Ghost(data@), Ghost(total), Ghost(pos)),
            PictureCommand::DrawAbsoluteLines => absolute_lines(&mut d, &st, &mut ops, Ghost(data@), Ghost(total), Ghost(pos)),
            PictureCommand::DrawShortRelativeLines => short_relative_lines(&mut d, &st, &mut ops, Ghost(data@), Ghost(total), Ghost(pos)),
            PictureCommand::FloodFill => flood_fills(&mut d, &st, &mut ops, Ghost(data@), Ghost(total), Ghost(pos)),
            PictureCommand::DrawAbsolutePatterns => absolute_patterns(&mut d, &st, &mut ops, Ghost(data@), Ghost(total), Ghost(pos)),
            PictureCommand::DrawRelativePatterns => relative_patterns(&mut d, &st, &mut ops, Ghost(data@), Ghost(total), Ghost(pos)),
            PictureCommand::ExtendedCommand => extended_command(&mut d, &mut st, &ops, Ghost(data@), Ghost(total), Ghost(pos)),
            PictureCommand::Finish => {
                assert(ops@ + Seq::<DrawOp>::empty() =~= ops@);
                return Some(ops);
            },
            _ => state_command(&mut d, &mut st, &mut ops, Ghost(data@), Ghost(total), Ghost(pos), command),
        };
        if !ok {
            return None;
        }
    }
}

/// A dither of one colour with itself blends to that colour.
pub proof fn lemma_blend_same(c: Colour)
    ensures
        spec_blend(DitheredColour { c1: c, c2: c }) == c,
{
}

} // verus!
