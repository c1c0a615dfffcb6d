//! Terrain brushes and the triangle indices of a heightmap grid.
use vstd::prelude::*;

verus! {

/// Brush operation modes.
#[derive(Debug, Clone, Copy, PartialEq, Eq, Structural)]
pub enum BrushMode {
    Raise,
    Lower,
    Smooth,
    Flatten,
    /// Paint texture channel 0..3.
    Splat(u8),
}

/// The label that the terrain editor shows for a brush mode.
pub open spec fn brush_label(mode: BrushMode) -> Seq<char> {
    match mode {
        BrushMode::Raise => "Raise"@,
        BrushMode::Lower => "Lower"@,
        BrushMode::Smooth => "Smooth"@,
        BrushMode::Flatten => "Flatten"@,
        BrushMode::Splat(c) => if c == 0 {
            "Paint Red"@
        } else if c == 1 {
            "Paint Green"@
        } else if c == 2 {
            "Paint Blue"@
        } else if c == 3 {
            "Paint Alpha"@
        } else {
            "Paint"@
        },
    }
}

impl BrushMode {
    pub fn label(self) -> (r: &'static str)
        ensures
            r@ == brush_label(self),
    {
        match self {
            BrushMode::Raise => "Raise",
            BrushMode::Lower => "Lower",
            BrushMode::Smooth => "Smooth",
            BrushMode::Flatten => "Flatten",
            BrushMode::Splat(0) => "Paint Red",
            BrushMode::Splat(1) => "Paint Green",
            BrushMode::Splat(2) => "Paint Blue",
            BrushMode::Splat(3) => "Paint Alpha",
            BrushMode::Splat(_) => "Paint",
        }
    }
}

/// Corner `t` (0..6) of the two triangles of grid cell (i, j), in a grid with `s`
/// vertices per row: with a = i*s + j, b = a + 1, c = (i+1)*s + j, d = c + 1 the
/// triangles are (a, b, c) and (c, b, d).
pub open spec fn quad_corner(s: int, i: int, j: int, t: int) -> int {
    let a = i * s + j;
    let c = (i + 1) * s + j;
    if t == 0 {
        a
    } else if t == 1 {
        a + 1
    } else if t == 2 {
        c
    } else if t == 3 {
        c
    } else if t == 4 {
        a + 1
    } else {
        c + 1
    }
}

/// The index list of an r x s vertex grid: six indices per cell, cells row by row,
/// each index cut to 16 bits.
pub open spec fn quad_index_at(s: int, k: int) -> u16 {
    let q = k / 6;
    quad_corner(s, q / (s - 1), q % (s - 1), k % 6) as u16
}

/// `quad_indices(r, s)` computes every index inside `u32`.
pub open spec fn quad_indices_ok(r: u32, s: u32) -> bool {
    r >= 1 && (r >= 2 ==> s >= 1 && r * s <= 0x1_0000_0000)
}

/// Triangle indices of an r x s vertex grid, two triangles per cell.
pub fn quad_indices(r: u32, s: u32) -> (idx: Vec<u16>)
    requires
        quad_indices_ok(r, s),
    ensures
        r >= 2 && s >= 2 ==> idx@.len() == 6 * (r - 1) * (s - 1),
        !(r >= 2 && s >= 2) ==> idx@.len() == 0,
        forall|k: int| 0 <= k < idx@.len() ==> #[trigger] idx@[k] == quad_index_at(s as int, k),
{
    let mut idx: Vec<u16> = Vec::new();
    if r < 2 {
        return idx;
    }
    let mut i: u32 = 0;
    assert(6 * (0 * (s - 1)) == 0) by (nonlinear_arith);
    while i < r - 1
        invariant
            r >= 2,
            s >= 1,
            r * s <= 0x1_0000_0000,
            0 <= i <= r - 1,
            idx@.len() == 6 * (i * (s - 1)),
            forall|k: int| 0 <= k < idx@.len() ==> #[trigger] idx@[k] == quad_index_at(s as int, k),
        decreases r - 1 - i,
    {
        let mut j: u32 = 0;
        assert(6 * (i * (s - 1) + 0) == 6 * (i * (s - 1)));
        while j < s - 1
            invariant
                r >= 2,
                s >= 1,
                r * s <= 0x1_0000_0000,
                0 <= i < r - 1,
                0 <= j <= s - 1,
                idx@.len() == 6 * (i * (s - 1) + j),
                forall|k: int|
                    0 <= k < idx@.len() ==> #[trigger] idx@[k] == quad_index_at(s as int, k),
            decreases s - 1 - j,
        {
            proof {
                assert((i + 1) * s + j + 1 <= r * s - 1) by (nonlinear_arith)
                    requires
                        i + 1 <= r - 1,
                        j + 1 <= s - 1,
                ;
                assert(i * s <= (i + 1) * s) by (nonlinear_arith);
            }
            let a = i * s + j;
            let b = a + 1;
            let c = (i + 1) * s + j;
            let d = c + 1;
            let ghost base = idx@.len() as int;
            let ghost q = i * (s - 1) + j;
            proof {
                assert(base == 6 * q);
                assert forall|t: int| 0 <= t < 6 implies quad_index_at(s as int, base + t) == quad_corner(
                    s as int,
                    i as int,
                    j as int,
                    t,
                ) as u16 by {
                    assert((base + t) / 6 == q) by (nonlinear_arith)
                        requires
                            base == 6 * q,
                            0 <= t < 6,
                    ;
                    assert((base + t) % 6 == t) by (nonlinear_arith)
                        requires
                            base == 6 * q,
                            0 <= t < 6,
                    ;
                    assert(q / (s - 1) == i) by (nonlinear_arith)
                        requires
                            q == i * (s - 1) + j,
                            0 <= j < s - 1,
                    ;
                    assert(q % (s - 1) == j) by (nonlinear_arith)
                        requires
                            q == i * (s - 1) + j,
                            0 <= j < s - 1,
                    ;
                }
            }
            idx.push(a as u16);
            idx.push(b as u16);
            idx.push(c as u16);
            idx.push(c as u16);
            idx.push(b as u16);
            idx.push(d as u16);
            proof {
                assert forall|k: int| 0 <= k < idx@.len() implies #[trigger] idx@[k] == quad_index_at(
                    s as int,
                    k,
                ) by {
                    if k >= base {
                        assert(quad_index_at(s as int, base + (k - base)) == quad_corner(
                            s as int,
                            i as int,
                            j as int,
                            k - base,
                        ) as u16);
                    }
                }
                assert(6 * (i * (s - 1) + (j + 1)) == 6 * (i * (s - 1) + j) + 6) by (nonlinear_arith);
            }
            j = j + 1;
        }
        proof {
            assert(6 * (i * (s - 1) + (s - 1)) == 6 * ((i + 1) * (s - 1))) by (nonlinear_arith);
        }
        i = i + 1;
    }
    proof {
        if s < 2 {
            assert(6 * (r - 1) * (s - 1) == 0) by (nonlinear_arith)
                requires
                    s == 1,
            ;
        } else {
            assert(6 * (r - 1) * (s - 1) == 6 * ((r - 1) * (s - 1))) by (nonlinear_arith);
        }
    }
    idx
}


/// Every index of a grid whose vertices an `u16` can number names one of its
/// vertices: it lies below r * s, so the cut to 16 bits loses nothing.
pub proof fn lemma_quad_index_in_grid(r: int, s: int, k: int)
    requires
        r >= 2,
        s >= 2,
        r * s <= 0x1_0000,
        0 <= k < 6 * (r - 1) * (s - 1),
    ensures
        0 <= quad_corner(s, (k / 6) / (s - 1), (k / 6) % (s - 1), k % 6) < r * s,
        quad_index_at(s, k) as int == quad_corner(s, (k / 6) / (s - 1), (k / 6) % (s - 1), k % 6),
{
    let q = k / 6;
    let i = q / (s - 1);
    let j = q % (s - 1);
    assert(0 <= q < (r - 1) * (s - 1)) by (nonlinear_arith)
        requires
            q == k / 6,
            0 <= k < 6 * (r - 1) * (s - 1),
    ;
    assert(0 <= i < r - 1 && 0 <= j < s - 1) by (nonlinear_arith)
        requires
            i == q / (s - 1),
            j == q % (s - 1),
            0 <= q < (r - 1) * (s - 1),
            s >= 2,
    ;
    assert(0 <= i * s + j && (i + 1) * s + j + 1 < r * s) by (nonlinear_arith)
        requires
            0 <= i < r - 1,
            0 <= j < s - 1,
    ;
    assert(i * s <= (i + 1) * s) by (nonlinear_arith)
        requires
            s >= 0,
    ;
}

} // verus!
