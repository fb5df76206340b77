use vstd::prelude::*;
use crate::color::Color;

verus! {

/// The modulus of the tiling rule.
pub const PATTERN_MODULUS: i32 = 19;

/// `(x ^ y) % 19` with the sign of the dividend, as machine `%` computes it:
/// negative XOR values give residues in `-18..=0`.
pub open spec fn residue(x: i32, y: i32) -> int {
    let v = (x ^ y) as int;
    if v >= 0 {
        v % 19
    } else {
        -((-v) % 19)
    }
}

/// The colour that a residue selects, if any.
pub open spec fn pattern_of_residue(r: int) -> Option<Color> {
    if r == 0 || r == 10 {
        Some(Color::White)
    } else if r == 3 {
        Some(Color::Yellow)
    } else if r == 1 || r == 11 {
        Some(Color::Blue)
    } else if r == 4 || r == 5 {
        Some(Color::Red)
    } else {
        None
    }
}

/// The colour of the tiling at `(x, y)`; `None` lets the background show.
pub open spec fn pattern_spec(x: i32, y: i32) -> Option<Color> {
    pattern_of_residue(residue(x, y))
}

/// Colour of the decorative pattern at `(x, y)`.
pub fn pattern_color(x: i32, y: i32) -> (r: Option<Color>)
    ensures
        r == pattern_spec(x, y),
{
    let v: i32 = x ^ y;
    let m: i32 = if v >= 0 {
        v % PATTERN_MODULUS
    } else {
        let p: i64 = -(v as i64);
        -((p % (PATTERN_MODULUS as i64)) as i32)
    };
    if m == 0 || m == 10 {
        Some(Color::White)
    } else if m == 3 {
        Some(Color::Yellow)
    } else if m == 1 || m == 11 {
        Some(Color::Blue)
    } else if m == 4 || m == 5 {
        Some(Color::Red)
    } else {
        None
    }
}

/// The pattern depends on the coordinates only through the residue of their
/// XOR modulo 19, and is the same on every evaluation.
pub proof fn lemma_pattern_depends_only_on_residue(x1: i32, y1: i32, x2: i32, y2: i32)
    requires
        residue(x1, y1) == residue(x2, y2),
    ensures
        pattern_spec(x1, y1) == pattern_spec(x2, y2),
        pattern_spec(x1, y1) == pattern_of_residue(residue(x1, y1)),
        -19 < residue(x1, y1) < 19,
{
}

/// The pattern over the rectangle `[x_lo, x_hi) x [y_lo, y_hi)`: one row per
/// `x`, one entry per `y`.
pub fn pattern_grid(x_lo: i32, x_hi: i32, y_lo: i32, y_hi: i32) -> (r: Vec<Vec<Option<Color>>>)
    ensures
        r@.len() == if x_lo < x_hi { x_hi - x_lo } else { 0 },
        forall|i: int| 0 <= i < r@.len() ==> {
            &&& r@[i]@.len() == (if y_lo < y_hi { y_hi - y_lo } else { 0 })
            &&& forall|j: int| 0 <= j < r@[i]@.len() ==>
                r@[i]@[j] == pattern_spec((x_lo + i) as i32, (y_lo + j) as i32)
        },
{
    let mut rows: Vec<Vec<Option<Color>>> = Vec::new();
    let mut x: i32 = x_lo;
    while x < x_hi
        invariant
            x_lo <= x_hi ==> x_lo <= x <= x_hi,
            x_lo > x_hi ==> x == x_lo,
            rows@.len() == x - x_lo,
            forall|i: int| 0 <= i < rows@.len() ==> {
                &&& rows@[i]@.len() == (if y_lo < y_hi { y_hi - y_lo } else { 0 })
                &&& forall|j: int| 0 <= j < rows@[i]@.len() ==>
                    rows@[i]@[j] == pattern_spec((x_lo + i) as i32, (y_lo + j) as i32)
            },
        decreases x_hi - x,
    {
        let mut row: Vec<Option<Color>> = Vec::new();
        let mut y: i32 = y_lo;
        while y < y_hi
            invariant
                x_lo <= x < x_hi,
                y_lo <= y_hi ==> y_lo <= y <= y_hi,
                y_lo > y_hi ==> y == y_lo,
                row@.len() == y - y_lo,
                forall|j: int| 0 <= j < row@.len() ==>
                    row@[j] == pattern_spec(x, (y_lo + j) as i32),
            decreases y_hi - y,
        {
            row.push(pattern_color(x, y));
            y = y + 1;
        }
        rows.push(row);
        x = x + 1;
    }
    rows
}

} // verus!
