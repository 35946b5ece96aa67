//! SCI0 view resources: groups (loops) of cels, each a run-length encoded bitmap.

use crate::bytes::{le_u16_at, read_le_u16};
use crate::graphics::{ega_colour, Colour, DrawOp};
use crate::resource::Resource;
use vstd::prelude::*;

verus! {

/// One image of a view.
pub struct Cel {
    pub size_x: u16,
    pub size_y: u16,
    pub x_pos: i8,
    pub y_pos: i8,
    /// The colour that is not drawn.
    pub alpha_key: u8,
    /// EGA colour indexes in raster order; at least `size_x * size_y` of them.
    pub bitmap: Vec<u8>,
}

/// The mathematical content of a cel.
pub struct CelView {
    pub size_x: u16,
    pub size_y: u16,
    pub x_pos: i8,
    pub y_pos: i8,
    pub alpha_key: u8,
    pub bitmap: Seq<u8>,
}

impl View for Cel {
    type V = CelView;

    open spec fn view(&self) -> CelView {
        CelView {
            size_x: self.size_x,
            size_y: self.size_y,
            x_pos: self.x_pos,
            y_pos: self.y_pos,
            alpha_key: self.alpha_key,
            bitmap: self.bitmap@,
        }
    }
}

/// A view: its groups of cels.
pub type ViewGroups = Vec<Vec<Cel>>;

/// The cels of a view, group by group.
pub open spec fn view_cels(view: Seq<Vec<Cel>>) -> Seq<Seq<CelView>> {
    Seq::new(view.len(), |g: int| view[g]@.map_values(|c: Cel| c@))
}

/// The bitmap that run-length encoded data from `offset` on decodes to, at least
/// `target` pixels long: each byte is a colour (low nibble) repeated a number of
/// times (high nibble). `None` where the data ends first.
pub open spec fn spec_rle(data: Seq<u8>, offset: int, target: int) -> Option<Seq<u8>>
    decreases data.len() - offset,
{
    if target <= 0 {
        Some(Seq::empty())
    } else if offset < 0 || offset >= data.len() {
        None
    } else {
        let run = Seq::new((data[offset] / 16) as nat, |i: int| (data[offset] % 16) as u8);
        match spec_rle(data, offset + 1, target - run.len()) {
            Some(rest) => Some(run + rest),
            None => None,
        }
    }
}

/// Run-length decoding gives at least the pixels asked for, and begins with the
/// first byte's run: its low nibble (the colour) repeated as many times as its high
/// nibble says.
pub proof fn lemma_rle_first_run(data: Seq<u8>, offset: int, target: int)
    requires
        target > 0,
    ensures
        spec_rle(data, offset, target) matches Some(bm) ==> {
            &&& bm.len() >= target
            &&& 0 <= offset < data.len()
            &&& forall|i: int| 0 <= i < (data[offset] >> 4u8) ==> #[trigger] bm[i] == data[offset] & 0x0fu8
        },
    decreases data.len() - offset,
{
    if 0 <= offset < data.len() {
        let v = data[offset];
        assert((v >> 4u8) == v / 16 && (v & 0x0fu8) == v % 16) by (bit_vector);
        let run = Seq::new((v / 16) as nat, |i: int| (v % 16) as u8);
        let left = target - run.len();
        if left > 0 {
            lemma_rle_first_run(data, offset + 1, left);
        }
        if let Some(bm) = spec_rle(data, offset, target) {
            let rest = spec_rle(data, offset + 1, left)->Some_0;
            assert(bm == run + rest);
            assert forall|i: int| 0 <= i < (v >> 4u8) implies #[trigger] bm[i] == v & 0x0fu8 by {
                assert(bm[i] == run[i]);
            }
        }
    }
}

/// The cel whose header starts at `offset`.
pub open spec fn spec_cel(data: Seq<u8>, offset: int) -> Option<CelView> {
    if offset + 7 > data.len() {
        None
    } else {
        let size_x = le_u16_at(data, offset);
        let size_y = le_u16_at(data, offset + 2);
        match spec_rle(data, offset + 7, size_x * size_y) {
            Some(bitmap) => Some(
                CelView {
                    size_x,
                    size_y,
                    x_pos: data[offset + 4] as i8,
                    y_pos: data[offset + 5] as i8,
                    alpha_key: data[offset + 6],
                    bitmap,
                },
            ),
            None => None,
        }
    }
}

/// The first `n` cels of the group whose header starts at `group_offset`.
pub open spec fn spec_group_cels(data: Seq<u8>, group_offset: int, n: int) -> Option<Seq<CelView>>
    decreases n,
{
    if n <= 0 {
        Some(Seq::empty())
    } else {
        match spec_group_cels(data, group_offset, n - 1) {
            None => None,
            Some(prev) => {
                let at = group_offset + 4 + 2 * (n - 1);
                if at + 2 > data.len() {
                    None
                } else {
                    match spec_cel(data, le_u16_at(data, at) as int) {
                        Some(c) => Some(prev.push(c)),
                        None => None,
                    }
                }
            },
        }
    }
}

proof fn lemma_group_cels_fail(data: Seq<u8>, group_offset: int, m: int, n: int)
    requires
        m <= n,
        spec_group_cels(data, group_offset, m) is None,
    ensures
        spec_group_cels(data, group_offset, n) is None,
    decreases n - m,
{
    if m < n {
        lemma_group_cels_fail(data, group_offset, m, n - 1);
    }
}

/// The cels of the group whose header starts at `group_offset`.
pub open spec fn spec_group(data: Seq<u8>, group_offset: int) -> Option<Seq<CelView>> {
    if group_offset + 2 > data.len() {
        None
    } else {
        spec_group_cels(data, group_offset, le_u16_at(data, group_offset) as int)
    }
}

/// The first `n` groups of the view.
pub open spec fn spec_groups(data: Seq<u8>, n: int) -> Option<Seq<Seq<CelView>>>
    decreases n,
{
    if n <= 0 {
        Some(Seq::empty())
    } else {
        match spec_groups(data, n - 1) {
            None => None,
            Some(prev) => {
                let at = 8 + 2 * (n - 1);
                if at + 2 > data.len() {
                    None
                } else {
                    match spec_group(data, le_u16_at(data, at) as int) {
                        Some(g) => Some(prev.push(g)),
                        None => None,
                    }
                }
            },
        }
    }
}

proof fn lemma_groups_fail(data: Seq<u8>, m: int, n: int)
    requires
        m <= n,
        spec_groups(data, m) is None,
    ensures
        spec_groups(data, n) is None,
    decreases n - m,
{
    if m < n {
        lemma_groups_fail(data, m, n - 1);
    }
}

/// The view that the data of a view resource describes: the number of groups
/// (at most 16), a mirror mask, then the group offsets from byte 8 on; `None` where
/// the data is cut short or names more than 16 groups.
pub open spec fn spec_load_view(data: Seq<u8>) -> Option<Seq<Seq<CelView>>> {
    if data.len() < 4 || le_u16_at(data, 0) > 16 {
        None
    } else {
        spec_groups(data, le_u16_at(data, 0) as int)
    }
}

/// Decodes the run-length encoded bitmap from `offset` on until it holds at least
/// `target` pixels.
fn decode_rle(data: &[u8], start: usize, target: usize) -> (bitmap: Option<Vec<u8>>)
    ensures
        match bitmap {
            Some(b) => spec_rle(data@, start as int, target as int) == Some(b@),
            None => spec_rle(data@, start as int, target as int) is None,
        },
{
    let ghost total = spec_rle(data@, start as int, target as int);
    let mut bitmap: Vec<u8> = Vec::new();
    let mut offset = start;
    while bitmap.len() < target
        invariant
            total == spec_rle(data@, start as int, target as int),
            match spec_rle(data@, offset as int, target - bitmap@.len()) {
                Some(rest) => total == Some(bitmap@ + rest),
                None => total is None,
            },
        decreases data@.len() + 1 - offset,
    {
        if offset >= data.len() {
            proof {
                assert(spec_rle(data@, offset as int, target - bitmap@.len()) is None);
            }
            return None;
        }
        let colour = data[offset] % 16;
        let rpt = data[offset] / 16;
        let ghost before = bitmap@;
        let ghost run = Seq::new((data@[offset as int] / 16) as nat, |i: int| (data@[offset as int] % 16) as u8);
        let mut i: u8 = 0;
        while i < rpt
            invariant
                i <= rpt,
                rpt == data@[offset as int] / 16,
                colour == data@[offset as int] % 16,
                bitmap@ == before + run.subrange(0, i as int),
                run == Seq::new((data@[offset as int] / 16) as nat, |i: int| (data@[offset as int] % 16) as u8),
            decreases rpt - i,
        {
            bitmap.push(colour);
            i = i + 1;
            assert(bitmap@ =~= before + run.subrange(0, i as int));
        }
        assert(run.subrange(0, rpt as int) =~= run);
        offset = offset + 1;
        proof {
            let rest = spec_rle(data@, offset as int, target - bitmap@.len());
            if target - before.len() > 0 && rest is Some {
                assert(before + (run + rest.unwrap()) =~= bitmap@ + rest.unwrap());
            }
        }
    }
    proof {
        assert(bitmap@ + Seq::<u8>::empty() =~= bitmap@);
    }
    Some(bitmap)
}

/// Decodes the cel whose header starts at `offset`.
fn load_cel(data: &[u8], offset: usize) -> (cel: Option<Cel>)
    ensures
        match cel {
            Some(c) => spec_cel(data@, offset as int) == Some(c@),
            None => spec_cel(data@, offset as int) is None,
        },
{
    if offset > data.len() || data.len() - offset < 7 {
        return None;
    }
    let size_x = read_le_u16(data, offset);
    let size_y = read_le_u16(data, offset + 2);
    let x_pos = data[offset + 4] as i8;
    let y_pos = data[offset + 5] as i8;
    let alpha_key = data[offset + 6];
    assert(size_x * size_y <= 0xffff * 0xffff) by (nonlinear_arith)
        requires
            size_x <= 0xffff,
            size_y <= 0xffff,
    ;
    match decode_rle(data, offset + 7, size_x as usize * size_y as usize) {
        Some(bitmap) => Some(Cel { size_x, size_y, x_pos, y_pos, alpha_key, bitmap }),
        None => None,
    }
}

/// Decodes the group whose header starts at `group_offset`.
fn load_group(data: &[u8], group_offset: usize) -> (cels: Option<Vec<Cel>>)
    requires
        group_offset <= 0xffff,
    ensures
        match cels {
            Some(c) => spec_group(data@, group_offset as int) == Some(c@.map_values(|c: Cel| c@)),
            None => spec_group(data@, group_offset as int) is None,
        },
{
    if group_offset > data.len() || data.len() - group_offset < 2 {
        return None;
    }
    let num_cels = read_le_u16(data, group_offset) as usize;
    let mut cels: Vec<Cel> = Vec::new();
    let mut i: usize = 0;
    while i < num_cels
        invariant
            i <= num_cels,
            num_cels == le_u16_at(data@, group_offset as int),
            group_offset <= 0xffff,
            group_offset + 2 <= data@.len(),
            spec_group_cels(data@, group_offset as int, i as int) == Some(cels@.map_values(|c: Cel| c@)),
        decreases num_cels - i,
    {
        let at = group_offset + 4 + 2 * i;
        if at > data.len() || data.len() - at < 2 {
            proof {
                assert(spec_group_cels(data@, group_offset as int, i + 1) is None);
                lemma_group_cels_fail(data@, group_offset as int, i + 1, num_cels as int);
            }
            return None;
        }
        let cel_offset = read_le_u16(data, at) as usize;
        let cel = match load_cel(data, cel_offset) {
            Some(c) => c,
            None => {
                proof {
                    assert(spec_group_cels(data@, group_offset as int, i + 1) is None);
                    lemma_group_cels_fail(data@, group_offset as int, i + 1, num_cels as int);
                }
                return None;
            },
        };
        let ghost prev = cels@.map_values(|c: Cel| c@);
        cels.push(cel);
        i = i + 1;
        assert(cels@.map_values(|c: Cel| c@) =~= prev.push(cel@));
    }
    Some(cels)
}

/// Decodes a view resource into its groups of cels; `None` where the data is cut
/// short or names more than 16 groups.
pub fn load_view(resource: &Resource) -> (view: Option<ViewGroups>)
    ensures
        match view {
            Some(v) => spec_load_view(resource.resource_data@) == Some(view_cels(v@)),
            None => spec_load_view(resource.resource_data@) is None,
        },
        resource.resource_data@.len() < 4 || le_u16_at(resource.resource_data@, 0) > 16 ==> view is None,
{
    let data = resource.resource_data.as_slice();
    if data.len() < 4 {
        return None;
    }
    let num_groups = read_le_u16(data, 0) as usize;
    let _mask = read_le_u16(data, 2);
    if num_groups > 16 {
        return None;
    }
    let mut view: ViewGroups = Vec::new();
    let mut g: usize = 0;
    while g < num_groups
        invariant
            g <= num_groups <= 16,
            num_groups == le_u16_at(data@, 0),
            data@ == resource.resource_data@,
            spec_groups(data@, g as int) == Some(view_cels(view@)),
        decreases num_groups - g,
    {
        let at = 8 + 2 * g;
        if data.len() < at + 2 {
            proof {
                assert(spec_groups(data@, g + 1) is None);
                lemma_groups_fail(data@, g + 1, num_groups as int);
            }
            return None;
        }
        let group_offset = read_le_u16(data, at) as usize;
        let group = match load_group(data, group_offset) {
            Some(c) => c,
            None => {
                proof {
                    assert(spec_groups(data@, g + 1) is None);
                    lemma_groups_fail(data@, g + 1, num_groups as int);
                }
                return None;
            },
        };
        let ghost prev = view_cels(view@);
        let ghost cels = group@.map_values(|c: Cel| c@);
        view.push(group);
        g = g + 1;
        assert(view_cels(view@) =~= prev.push(cels));
    }
    Some(view)
}

// ---------------------------------------------------------------------------
// Drawing a cel.

/// The drawing operations for pixel `k` (in raster order) of a cel: nothing for
/// the transparent colour, else its colour and a point.
pub open spec fn pixel_ops(cel: CelView, k: int) -> Seq<DrawOp> {
    let c = cel.bitmap[k];
    if c == cel.alpha_key {
        Seq::empty()
    } else {
        seq![
            DrawOp::SetColour(ega_colour(c as int)),
            DrawOp::Point(
                (k % cel.size_x as int + cel.x_pos) as i32,
                (k / cel.size_x as int + 200 - cel.size_y - cel.y_pos) as i32,
            ),
        ]
    }
}

/// The drawing operations for the first `n` pixels of a cel.
pub open spec fn cel_ops(cel: CelView, n: int) -> Seq<DrawOp>
    decreases n,
{
    if n <= 0 {
        Seq::empty()
    } else {
        cel_ops(cel, n - 1) + pixel_ops(cel, n - 1)
    }
}

/// A cel that can be drawn: its pixels, counted as `u16` indexes, fit, and each is
/// an EGA colour.
pub open spec fn cel_drawable(cel: CelView) -> bool {
    &&& cel.size_x * cel.size_y <= 0x10000
    &&& cel.bitmap.len() >= cel.size_x * cel.size_y
    &&& forall|k: int| 0 <= k < cel.size_x * cel.size_y ==> #[trigger] cel.bitmap[k] < 16
}

proof fn lemma_cel_ops_prefix(cel: CelView, m: int, n: int)
    requires
        0 <= m <= n,
    ensures
        cel_ops(cel, m).len() <= cel_ops(cel, n).len(),
        cel_ops(cel, n).subrange(0, cel_ops(cel, m).len() as int) == cel_ops(cel, m),
    decreases n - m,
{
    if m < n {
        lemma_cel_ops_prefix(cel, m, n - 1);
        let a = cel_ops(cel, n - 1);
        let b = cel_ops(cel, n);
        assert(b == a + pixel_ops(cel, n - 1));
        assert(b.subrange(0, cel_ops(cel, m).len() as int) =~= a.subrange(0, cel_ops(cel, m).len() as int));
    } else {
        assert(cel_ops(cel, n).subrange(0, cel_ops(cel, n).len() as int) =~= cel_ops(cel, n));
    }
}

/// Every point that drawing the first `n` pixels of a cel gives lies in the cel's
/// box: from `x_pos` to `x_pos + size_x` across, and on the `size_y` lines that end
/// `y_pos` above line 200; and every other operation sets a colour.
pub proof fn lemma_cel_points_in_box(cel: CelView, n: int)
    requires
        0 <= n <= cel.size_x * cel.size_y,
    ensures
        forall|j: int|
            0 <= j < cel_ops(cel, n).len() ==> match #[trigger] cel_ops(cel, n)[j] {
                DrawOp::Point(px, py) => {
                    &&& cel.x_pos <= px < cel.x_pos + cel.size_x
                    &&& 200 - cel.size_y - cel.y_pos <= py < 200 - cel.y_pos
                },
                DrawOp::SetColour(_) => true,
                DrawOp::FloodFill(_, _) => false,
            },
    decreases n,
{
    if n > 0 {
        lemma_cel_points_in_box(cel, n - 1);
        let k = n - 1;
        let sx = cel.size_x as int;
        let sy = cel.size_y as int;
        assert(sx > 0) by (nonlinear_arith)
            requires
                0 <= k < sx * sy,
                sy >= 0,
        ;
        assert(0 <= k % sx < sx) by (nonlinear_arith)
            requires
                sx > 0,
                k >= 0,
        ;
        assert(0 <= k / sx < sy) by (nonlinear_arith)
            requires
                sx > 0,
                0 <= k < sx * sy,
        ;
        let a = cel_ops(cel, n - 1);
        let p = pixel_ops(cel, k);
        assert(cel_ops(cel, n) == a + p);
        assert forall|j: int|
            0 <= j < cel_ops(cel, n).len() implies match #[trigger] cel_ops(cel, n)[j] {
                DrawOp::Point(px, py) => {
                    &&& cel.x_pos <= px < cel.x_pos + cel.size_x
                    &&& 200 - cel.size_y - cel.y_pos <= py < 200 - cel.y_pos
                },
                DrawOp::SetColour(_) => true,
                DrawOp::FloodFill(_, _) => false,
            } by {
            if j < a.len() {
                assert(cel_ops(cel, n)[j] == a[j]);
            } else {
                assert(cel_ops(cel, n)[j] == p[j - a.len()]);
            }
        }
    }
}

/// Pixel `k` of a drawable cel, unless it has the transparent colour, is drawn in
/// its colour at column `k % size_x` shifted right by `x_pos` and at row
/// `k / size_x` of the cel, whose bottom row is `y_pos` above line 200.
pub proof fn lemma_cel_pixel_drawn(cel: CelView, k: int)
    requires
        cel_drawable(cel),
        0 <= k < cel.size_x * cel.size_y,
        cel.bitmap[k] != cel.alpha_key,
    ensures
        ({
            let ops = cel_ops(cel, cel.size_x * cel.size_y);
            exists|j: int|
                0 <= j && j + 1 < ops.len() && ops[j] == DrawOp::SetColour(ega_colour(cel.bitmap[k] as int))
                    && (#[trigger] ops[j + 1] matches DrawOp::Point(px, py) && px == k % (cel.size_x as int)
                    + cel.x_pos && py == k / (cel.size_x as int) + 200 - cel.size_y - cel.y_pos)
        }),
{
    let n = cel.size_x * cel.size_y;
    let sx = cel.size_x as int;
    let sy = cel.size_y as int;
    assert(sx > 0) by (nonlinear_arith)
        requires
            0 <= k < sx * sy,
            sy >= 0,
    ;
    assert(0 <= k % sx < sx) by (nonlinear_arith)
        requires
            sx > 0,
            k >= 0,
    ;
    assert(0 <= k / sx < sy) by (nonlinear_arith)
        requires
            sx > 0,
            0 <= k < sx * sy,
    ;
    lemma_cel_ops_prefix(cel, k + 1, n);
    let before = cel_ops(cel, k);
    let upto = cel_ops(cel, k + 1);
    let ops = cel_ops(cel, n);
    assert(upto == before + pixel_ops(cel, k));
    let j = before.len() as int;
    assert(ops[j] == upto[j]);
    assert(ops[j + 1] == upto[j + 1]);
    assert(ops[j + 1] matches DrawOp::Point(px, py) && px == k % sx + cel.x_pos && py == k / sx + 200 - sy
        - cel.y_pos);
}

/// The drawing operations that show cel `cel_idx` of group `group`, its bottom edge
/// on line 200 (shifted by its position), every pixel but the transparent colour.
pub fn draw_image(view: &ViewGroups, group: usize, cel_idx: usize) -> (ops: Vec<DrawOp>)
    requires
        group < view@.len(),
        cel_idx < view@[group as int]@.len(),
        cel_drawable(view@[group as int]@[cel_idx as int]@),
    ensures
        ({
            let cel = view@[group as int]@[cel_idx as int]@;
            ops@ == cel_ops(cel, cel.size_x * cel.size_y)
        }),
{
    let cel = &view[group][cel_idx];
    let ghost cv = cel@;
    let mut ops: Vec<DrawOp> = Vec::new();
    let mut y: u16 = 0;
    while y < cel.size_y
        invariant
            cv == cel@,
            cel_drawable(cv),
            y <= cel.size_y,
            ops@ == cel_ops(cv, y * cel.size_x),
        decreases cel.size_y - y,
    {
        let mut x: u16 = 0;
        proof {
            assert(y * cel.size_x + cel.size_x <= cel.size_x * cel.size_y) by (nonlinear_arith)
                requires y < cel.size_y;
        }
        while x < cel.size_x
            invariant
                cv == cel@,
                cel_drawable(cv),
                y < cel.size_y,
                x <= cel.size_x,
                y * cel.size_x + cel.size_x <= cel.size_x * cel.size_y,
                ops@ == cel_ops(cv, y * cel.size_x + x),
            decreases cel.size_x - x,
        {
            let idx = y * cel.size_x + x;
            let c = cel.bitmap[idx as usize];
            proof {
                vstd::arithmetic::div_mod::lemma_fundamental_div_mod_converse(
                    idx as int,
                    cel.size_x as int,
                    y as int,
                    x as int,
                );
            }
            if c != cel.alpha_key {
                let colour = Colour::from_ega(c);
                ops.push(DrawOp::SetColour(colour));
                ops.push(
                    DrawOp::Point(
                        x as i32 + cel.x_pos as i32,
                        y as i32 + 200 - cel.size_y as i32 - cel.y_pos as i32,
                    ),
                );
            }
            x = x + 1;
            assert(ops@ =~= cel_ops(cv, y * cel.size_x + x));
        }
        y = y + 1;
        assert(y * cel.size_x == (y - 1) * cel.size_x + cel.size_x) by (nonlinear_arith);
    }
    assert(cel.size_y * cel.size_x == cel.size_x * cel.size_y) by (nonlinear_arith);
    ops
}

/// Whether cel `cel_idx` of group `group` exists and can be drawn.
pub fn can_draw(view: &ViewGroups, group: usize, cel_idx: usize) -> (b: bool)
    ensures
        b <==> group < view@.len() && cel_idx < view@[group as int]@.len() && cel_drawable(
            view@[group as int]@[cel_idx as int]@,
        ),
{
    if group >= view.len() || cel_idx >= view[group].len() {
        return false;
    }
    let cel = &view[group][cel_idx];
    assert(cel.size_x * cel.size_y <= 0xffff * 0xffff) by (nonlinear_arith)
        requires
            cel.size_x <= 0xffff,
            cel.size_y <= 0xffff,
    ;
    let total = cel.size_x as u64 * cel.size_y as u64;
    if total > 0x10000 || (cel.bitmap.len() as u64) < total {
        return false;
    }
    let n = total as usize;
    let mut k: usize = 0;
    while k < n
        invariant
            k <= n,
            n == cel.size_x * cel.size_y,
            n <= cel.bitmap@.len(),
            group < view@.len(),
            cel_idx < view@[group as int]@.len(),
            *cel == view@[group as int]@[cel_idx as int],
            forall|j: int| 0 <= j < k ==> #[trigger] cel.bitmap@[j] < 16,
        decreases n - k,
    {
        if cel.bitmap[k] >= 16 {
            assert(!cel_drawable(cel@));
            return false;
        }
        k = k + 1;
    }
    true
}

} // verus!
