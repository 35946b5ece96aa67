//! The computations behind the kernel calls that scripts make: motion along a
//! line, string comparison, text lookup and random numbers.

use crate::text::{from_utf8, nul_at};
use rand::Rng;
use vstd::prelude::*;
use vstd::utf8::{decode_utf8, valid_utf8};

verus! {

/// Whether `x` is in the range of `i16`.
pub open spec fn fits(x: int) -> bool {
    i16::MIN <= x <= i16::MAX
}

/// The parameters of a line walk that InitBresen stores in the mover.
#[derive(Clone, Copy, Debug, PartialEq, Eq, Structural)]
pub struct BresenInit {
    pub step_dx: i16,
    pub step_dy: i16,
    pub i1: i16,
    pub i2: i16,
    pub di: i16,
    pub x_axis: bool,
    pub minor_axis_incr: i16,
}

/// The quotient rounded toward zero.
pub open spec fn quot(a: int, b: int) -> int {
    crate::pmachine::interpret::trunc_div(a, b)
}

/// The octant of a move, counter-clockwise from up and to the right along the x
/// axis.
pub open spec fn octant(x_axis: bool, dx: int, dy: int) -> int {
    if x_axis && dx >= 0 && dy < 0 {
        1
    } else if !x_axis && dx >= 0 && dy < 0 {
        2
    } else if !x_axis && dx < 0 && dy < 0 {
        3
    } else if x_axis && dx < 0 && dy < 0 {
        4
    } else if x_axis && dx < 0 && dy >= 0 {
        5
    } else if !x_axis && dx < 0 && dy >= 0 {
        6
    } else if !x_axis && dx >= 0 && dy >= 0 {
        7
    } else {
        8
    }
}

/// The line walk from the client at (`cx`, `cy`) toward the mover's target
/// (`mx`, `my`), with the client's steps `xs`, `ys` scaled by `sf`; `None` where a
/// step of the computation leaves the range of `i16` or divides by zero.
pub open spec fn spec_init_bresen(mx: i16, my: i16, cx: i16, cy: i16, xs: i16, ys: i16, sf: i16) -> Option<BresenInit> {
    let dx = mx - cx;
    let dy = my - cy;
    if !fits(dx) || !fits(dy) || dx == i16::MIN || dy == i16::MIN {
        None
    } else {
        let x_axis = abs(dx) > abs(dy);
        let major = if x_axis { xs * sf } else { ys * sf };
        let prod = if x_axis { major * dy } else { major * dx };
        let div = if x_axis { dx } else { dy };
        if !fits(major) || !fits(prod) || div == 0 || (prod == i16::MIN && div == -1) {
            None
        } else {
            let minor = quot(prod, div);
            let sdx0 = if x_axis { major } else { minor };
            let sdy0 = if x_axis { minor } else { major };
            if (dx < 0 && sdx0 == i16::MIN) || (dy < 0 && sdy0 == i16::MIN) {
                None
            } else {
                let sdx = if dx < 0 { -sdx0 } else { sdx0 };
                let sdy = if dy < 0 { -sdy0 } else { sdy0 };
                let o = octant(x_axis, dx, dy);
                let a = sdy * dx;
                let b = sdx * dy;
                let diff = if o % 2 == 1 { a - b } else { b - a };
                let i1 = 2 * diff;
                let i2 = if o == 1 || o == 8 {
                    -2 * dx
                } else if o == 2 || o == 3 {
                    2 * dy
                } else if o == 4 || o == 5 {
                    2 * dx
                } else {
                    -2 * dy
                };
                let di = if o == 1 || o == 8 {
                    i1 - dx
                } else if o == 2 || o == 3 {
                    i1 + dy
                } else if o == 4 || o == 5 {
                    i1 + dx
                } else {
                    i1 - dy
                };
                if !fits(a) || !fits(b) || !fits(diff) || !fits(i1) || !fits(i2) || !fits(di) {
                    None
                } else {
                    Some(
                        BresenInit {
                            step_dx: sdx as i16,
                            step_dy: sdy as i16,
                            i1: i1 as i16,
                            i2: i2 as i16,
                            di: di as i16,
                            x_axis,
                            minor_axis_incr: if o == 2 || o == 5 || o == 7 || o == 8 {
                                1i16
                            } else {
                                -1i16
                            },
                        },
                    )
                }
            }
        }
    }
}

/// The absolute value.
pub open spec fn abs(a: int) -> int {
    if a < 0 {
        -a
    } else {
        a
    }
}

/// Checked `i16` arithmetic on `i32` values that are in range.
fn narrow(x: i32) -> (r: Option<i16>)
    ensures
        r matches Some(v) ==> fits(x as int) && v == x,
        r is None ==> !fits(x as int),
{
    if x < -32768 || x > 32767 {
        None
    } else {
        Some(x as i16)
    }
}

/// The product of two `i16` values, exactly.
fn mul16(a: i16, b: i16) -> (r: i32)
    ensures
        r == a * b,
{
    assert(-32768 * 32768 <= a * b <= 32768 * 32768) by (nonlinear_arith)
        requires
            -32768 <= a <= 32767,
            -32768 <= b <= 32767,
    ;
    (a as i32) * (b as i32)
}

/// The line walk that InitBresen sets up.
pub fn init_bresen(mx: i16, my: i16, cx: i16, cy: i16, xs: i16, ys: i16, sf: i16) -> (r: Option<BresenInit>)
    ensures
        r == spec_init_bresen(mx, my, cx, cy, xs, ys, sf),
{
    let dx = narrow(mx as i32 - cx as i32)?;
    let dy = narrow(my as i32 - cy as i32)?;
    if dx == i16::MIN || dy == i16::MIN {
        return None;
    }
    let adx = if dx < 0 { -dx } else { dx };
    let ady = if dy < 0 { -dy } else { dy };
    let x_axis = adx > ady;
    let major = if x_axis { narrow(mul16(xs, sf))? } else { narrow(mul16(ys, sf))? };
    let prod = if x_axis { narrow(mul16(major, dy))? } else { narrow(mul16(major, dx))? };
    let div = if x_axis { dx } else { dy };
    if div == 0 || (prod == i16::MIN && div == -1) {
        return None;
    }
    let minor = crate::pmachine::interpret::div_trunc_pub(prod, div);
    let sdx0 = if x_axis { major } else { minor };
    let sdy0 = if x_axis { minor } else { major };
    if (dx < 0 && sdx0 == i16::MIN) || (dy < 0 && sdy0 == i16::MIN) {
        return None;
    }
    let sdx = if dx < 0 { -sdx0 } else { sdx0 };
    let sdy = if dy < 0 { -sdy0 } else { sdy0 };
    let o: i32 = if x_axis && dx >= 0 && dy < 0 {
        1
    } else if !x_axis && dx >= 0 && dy < 0 {
        2
    } else if !x_axis && dx < 0 && dy < 0 {
        3
    } else if x_axis && dx < 0 && dy < 0 {
        4
    } else if x_axis && dx < 0 && dy >= 0 {
        5
    } else if !x_axis && dx < 0 && dy >= 0 {
        6
    } else if !x_axis && dx >= 0 && dy >= 0 {
        7
    } else {
        8
    };
    let a = narrow(mul16(sdy, dx))?;
    let b = narrow(mul16(sdx, dy))?;
    let diff = if o % 2 == 1 { narrow(a as i32 - b as i32)? } else { narrow(b as i32 - a as i32)? };
    let i1 = narrow(2 * diff as i32)?;
    let i2 = if o == 1 || o == 8 {
        narrow(-2 * dx as i32)?
    } else if o == 2 || o == 3 {
        narrow(2 * dy as i32)?
    } else if o == 4 || o == 5 {
        narrow(2 * dx as i32)?
    } else {
        narrow(-2 * dy as i32)?
    };
    let di = if o == 1 || o == 8 {
        narrow(i1 as i32 - dx as i32)?
    } else if o == 2 || o == 3 {
        narrow(i1 as i32 + dy as i32)?
    } else if o == 4 || o == 5 {
        narrow(i1 as i32 + dx as i32)?
    } else {
        narrow(i1 as i32 - dy as i32)?
    };
    Some(
        BresenInit {
            step_dx: sdx,
            step_dy: sdy,
            i1,
            i2,
            di,
            x_axis,
            minor_axis_incr: if o == 2 || o == 5 || o == 7 || o == 8 {
                1
            } else {
                -1
            },
        },
    )
}

/// Where DoBresen moves the client, and the walk's new error term.
#[derive(Clone, Copy, Debug, PartialEq, Eq, Structural)]
pub struct BresenStep {
    pub client_x: i16,
    pub client_y: i16,
    pub di: i16,
}

/// One step of the line walk for the client at (`cx`, `cy`) toward (`mx`, `my`):
/// it lands on the target when the distance left along the major axis is at most
/// one step, else it takes a step and adjusts the minor axis by the error term;
/// `None` where a step of the computation leaves the range of `i16`.
pub open spec fn spec_do_bresen(mx: i16, my: i16, cx: i16, cy: i16, w: BresenInit) -> Option<BresenStep> {
    let (d, step) = if w.x_axis { (mx - cx, w.step_dx) } else { (my - cy, w.step_dy) };
    if !fits(d) || d == i16::MIN || step == i16::MIN {
        None
    } else if abs(d) <= abs(step as int) {
        Some(BresenStep { client_x: mx, client_y: my, di: w.di })
    } else {
        let x1 = cx + w.step_dx;
        let y1 = cy + w.step_dy;
        let di = if w.di < 0 { w.di + w.i1 } else { w.di + w.i2 };
        let bump = w.di >= 0;
        let x2 = if bump && !w.x_axis { x1 + w.minor_axis_incr } else { x1 };
        let y2 = if bump && w.x_axis { y1 + w.minor_axis_incr } else { y1 };
        if !fits(x1) || !fits(y1) || !fits(di) || !fits(x2) || !fits(y2) {
            None
        } else {
            Some(BresenStep { client_x: x2 as i16, client_y: y2 as i16, di: di as i16 })
        }
    }
}

/// One step of the walk that DoBresen takes.
pub fn do_bresen(mx: i16, my: i16, cx: i16, cy: i16, w: BresenInit) -> (r: Option<BresenStep>)
    ensures
        r == spec_do_bresen(mx, my, cx, cy, w),
{
    let d = if w.x_axis { narrow(mx as i32 - cx as i32)? } else { narrow(my as i32 - cy as i32)? };
    let step = if w.x_axis { w.step_dx } else { w.step_dy };
    if d == i16::MIN || step == i16::MIN {
        return None;
    }
    let ad = if d < 0 { -d } else { d };
    let astep = if step < 0 { -step } else { step };
    if ad <= astep {
        return Some(BresenStep { client_x: mx, client_y: my, di: w.di });
    }
    let x1 = narrow(cx as i32 + w.step_dx as i32)?;
    let y1 = narrow(cy as i32 + w.step_dy as i32)?;
    let di = if w.di < 0 { narrow(w.di as i32 + w.i1 as i32)? } else { narrow(w.di as i32 + w.i2 as i32)? };
    let bump = w.di >= 0;
    let x2 = if bump && !w.x_axis { narrow(x1 as i32 + w.minor_axis_incr as i32)? } else { x1 };
    let y2 = if bump && w.x_axis { narrow(y1 as i32 + w.minor_axis_incr as i32)? } else { y1 };
    Some(BresenStep { client_x: x2, client_y: y2, di })
}

/// The byte-wise comparison of two strings: -1, 0 or 1, as `str::cmp` orders them.
pub open spec fn compare_bytes(a: Seq<u8>, b: Seq<u8>) -> int
    decreases a.len(),
{
    if a.len() == 0 && b.len() == 0 {
        0
    } else if a.len() == 0 {
        -1
    } else if b.len() == 0 {
        1
    } else if a[0] < b[0] {
        -1
    } else if a[0] > b[0] {
        1
    } else {
        compare_bytes(a.drop_first(), b.drop_first())
    }
}

/// The comparison is an order: it answers 0 exactly on equal strings, and
/// swapping the strings swaps the sign.
pub proof fn lemma_compare_bytes_order(a: Seq<u8>, b: Seq<u8>)
    ensures
        compare_bytes(a, b) == 0 <==> a == b,
        compare_bytes(b, a) == -compare_bytes(a, b),
        -1 <= compare_bytes(a, b) <= 1,
    decreases a.len(),
{
    if a.len() > 0 && b.len() > 0 && a[0] == b[0] {
        lemma_compare_bytes_order(a.drop_first(), b.drop_first());
        if a.drop_first() == b.drop_first() {
            assert(a =~= b) by {
                assert forall|i: int| 0 <= i < a.len() implies a[i] == b[i] by {
                    if i > 0 {
                        assert(a[i] == a.drop_first()[i - 1]);
                        assert(b[i] == b.drop_first()[i - 1]);
                    }
                }
            }
        } else {
            assert(a != b);
        }
    } else if a.len() > 0 && b.len() > 0 {
        assert(a[0] != b[0]);
        assert(a != b);
    } else if a.len() != b.len() {
        assert(a != b);
    } else {
        assert(a =~= b);
    }
}

/// Compares two byte strings as `str::cmp` does.
pub fn compare(a: &[u8], b: &[u8]) -> (r: i16)
    ensures
        r == compare_bytes(a@, b@),
{
    let mut i: usize = 0;
    assert(a@.subrange(0, a@.len() as int) =~= a@);
    assert(b@.subrange(0, b@.len() as int) =~= b@);
    while i < a.len() && i < b.len()
        invariant
            i <= a@.len(),
            i <= b@.len(),
            compare_bytes(a@, b@) == compare_bytes(a@.subrange(i as int, a@.len() as int), b@.subrange(i as int, b@.len() as int)),
        decreases a@.len() - i,
    {
        if a[i] < b[i] {
            return -1;
        }
        if a[i] > b[i] {
            return 1;
        }
        proof {
            let sa = a@.subrange(i as int, a@.len() as int);
            let sb = b@.subrange(i as int, b@.len() as int);
            assert(sa.drop_first() =~= a@.subrange(i + 1, a@.len() as int));
            assert(sb.drop_first() =~= b@.subrange(i + 1, b@.len() as int));
        }
        i = i + 1;
    }
    if i < a.len() {
        1
    } else if i < b.len() {
        -1
    } else {
        0
    }
}

/// Where piece `k` of `data` split at its nul bytes starts and ends, counting from
/// the piece that starts at `start`.
pub open spec fn piece(data: Seq<u8>, start: int, k: nat) -> Option<(int, int)>
    decreases k,
{
    match nul_at(data, start, data.len() as int) {
        Some(j) => if k == 0 {
            Some((start, j))
        } else {
            piece(data, j + 1, (k - 1) as nat)
        },
        None => if k == 0 {
            Some((start, data.len() as int))
        } else {
            None
        },
    }
}

/// String `k` of a text resource, its strings separated by nul bytes; `None` where
/// there is no such string or it is not UTF-8.
pub open spec fn spec_text_string(data: Seq<u8>, k: nat) -> Option<Seq<char>> {
    match piece(data, 0, k) {
        Some((s, e)) => if valid_utf8(data.subrange(s, e)) {
            Some(decode_utf8(data.subrange(s, e)))
        } else {
            None
        },
        None => None,
    }
}

/// String `k` of a text resource.
pub fn text_string(data: &[u8], k: u16) -> (s: Option<String>)
    ensures
        match s {
            Some(s) => spec_text_string(data@, k as nat) == Some(s@),
            None => spec_text_string(data@, k as nat) is None,
        },
{
    let mut start: usize = 0;
    let mut left: u16 = k;
    let ghost total = piece(data@, 0, k as nat);
    loop
        invariant
            start <= data@.len(),
            total == piece(data@, 0, k as nat),
            total == piece(data@, start as int, left as nat),
        decreases left,
    {
        let (end, has_nul) = match crate::text::find_nul(data, start, data.len()) {
            Some(j) => (j, true),
            None => (data.len(), false),
        };
        proof {
            crate::text::lemma_nul_at_bounds(data@, start as int, data@.len() as int);
        }
        if left == 0 {
            return from_utf8(&data[start..end]);
        }
        if !has_nul {
            return None;
        }
        start = end + 1;
        left = left - 1;
    }
}

/// A random number from `min` to `max`, both included (rand's `gen_range` on the
/// thread's generator).
#[verifier::external_body]
fn random_in(min: i16, max: i16) -> (r: i16)
    requires
        min <= max,
    ensures
        min <= r <= max,
{
    rand::thread_rng().gen_range(min..=max)
}

/// What the Random kernel call answers: a number from `min` to `max`; `None` for an
/// empty range.
pub fn kernel_random(min: i16, max: i16) -> (r: Option<i16>)
    ensures
        r is Some <==> min <= max,
        r matches Some(v) ==> min <= v <= max,
{
    if min > max {
        return None;
    }
    Some(random_in(min, max))
}

} // verus!
