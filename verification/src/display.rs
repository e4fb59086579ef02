//! The monochrome framebuffer and the sprites drawn onto it. A sprite is the
//! set of lit offsets decoded from packed bytes, most significant bit first,
//! one byte per row. Drawing XORs the sprite into the grid with wraparound
//! addressing and reports a collision when any pixel is toggled from on to
//! off. The rendering of the grid to a physical surface is the host's job.

use vstd::arithmetic::div_mod::{
    lemma_mod_add_multiples_vanish, lemma_mod_equivalence, lemma_small_mod,
};
use vstd::prelude::*;
use vstd::std_specs::vec::vec_index_mut;

verus! {

/// Bit `col` of `b`, counting the most significant bit as column 0.
pub open spec fn sprite_bit(b: u8, col: int) -> bool {
    (b >> ((7 - col) as u32)) & 1 == 1
}

/// The lit offsets contributed by byte `b` (row `row`) from column `col` on,
/// in ascending column order.
pub open spec fn spec_row_pixels_from(b: u8, row: int, col: int) -> Seq<(usize, usize)>
    decreases 8 - col,
    when col <= 8
{
    if col >= 8 {
        Seq::empty()
    } else {
        let rest = spec_row_pixels_from(b, row, col + 1);
        if sprite_bit(b, col) {
            seq![(col as usize, row as usize)] + rest
        } else {
            rest
        }
    }
}

/// The lit offsets of rows `row` and following, row-major.
pub open spec fn spec_sprite_from(bytes: Seq<u8>, row: int) -> Seq<(usize, usize)>
    decreases bytes.len() - row,
    when row >= 0
{
    if row >= bytes.len() {
        Seq::empty()
    } else {
        spec_row_pixels_from(bytes[row], row, 0) + spec_sprite_from(bytes, row + 1)
    }
}

/// All lit offsets of a packed sprite, row-major, columns ascending.
pub open spec fn spec_sprite_pixels(bytes: Seq<u8>) -> Seq<(usize, usize)> {
    spec_sprite_from(bytes, 0)
}

/// A sprite: the ordered lit offsets relative to its own origin.
pub struct Sprite {
    pixels_on: Vec<(usize, usize)>,
}

impl View for Sprite {
    type V = Seq<(usize, usize)>;

    closed spec fn view(&self) -> Seq<(usize, usize)> {
        self.pixels_on@
    }
}

impl Sprite {
    /// Decode packed bytes into lit offsets: bit `c` (most significant first)
    /// of byte `r` lit means offset `(c, r)` is part of the sprite.
    pub fn new(bytes: &[u8]) -> (s: Sprite)
        ensures
            s@ == spec_sprite_pixels(bytes@),
            forall|j: int|
                0 <= j < s@.len() ==> (#[trigger] s@[j]).0 < 8 && s@[j].1 < bytes@.len(),
    {
        let mut pixels_on: Vec<(usize, usize)> = Vec::new();
        let len = bytes.len();
        let mut row: usize = 0;
        while row < len
            invariant
                bytes@.len() == len,
                row <= len,
                pixels_on@ + spec_sprite_from(bytes@, row as int) == spec_sprite_pixels(bytes@),
                forall|j: int|
                    0 <= j < pixels_on@.len() ==> (#[trigger] pixels_on@[j]).0 < 8
                        && pixels_on@[j].1 < len,
            decreases len - row,
        {
            let b = bytes[row];
            let mut col: usize = 0;
            proof {
                assert(spec_sprite_from(bytes@, row as int) == spec_row_pixels_from(
                    b,
                    row as int,
                    0,
                ) + spec_sprite_from(bytes@, row as int + 1));
                assert(pixels_on@ + (spec_row_pixels_from(b, row as int, 0) + spec_sprite_from(
                    bytes@,
                    row as int + 1,
                )) =~= pixels_on@ + spec_row_pixels_from(b, row as int, 0) + spec_sprite_from(
                    bytes@,
                    row as int + 1,
                ));
            }
            while col < 8
                invariant
                    bytes@.len() == len,
                    row < len,
                    col <= 8,
                    b == bytes@[row as int],
                    pixels_on@ + spec_row_pixels_from(b, row as int, col as int)
                        + spec_sprite_from(bytes@, row as int + 1) == spec_sprite_pixels(bytes@),
                    forall|j: int|
                        0 <= j < pixels_on@.len() ==> (#[trigger] pixels_on@[j]).0 < 8
                            && pixels_on@[j].1 < len,
                decreases 8 - col,
            {
                let ghost prev = pixels_on@;
                if (b >> ((7 - col) as u32)) & 1 == 1 {
                    pixels_on.push((col, row));
                }
                proof {
                    let c = col as int;
                    assert(spec_row_pixels_from(b, row as int, c) == (if sprite_bit(b, c) {
                        seq![(c as usize, row as usize)] + spec_row_pixels_from(b, row as int, c + 1)
                    } else {
                        spec_row_pixels_from(b, row as int, c + 1)
                    }));
                    if sprite_bit(b, c) {
                        assert(pixels_on@ =~= prev + seq![(col, row)]);
                        assert(pixels_on@ + spec_row_pixels_from(b, row as int, c + 1) =~= prev
                            + spec_row_pixels_from(b, row as int, c));
                    }
                    assert(pixels_on@ + spec_row_pixels_from(b, row as int, c + 1)
                        + spec_sprite_from(bytes@, row as int + 1) =~= prev + spec_row_pixels_from(
                        b,
                        row as int,
                        c,
                    ) + spec_sprite_from(bytes@, row as int + 1));
                }
                col = col + 1;
            }
            proof {
                assert(spec_row_pixels_from(b, row as int, 8) =~= Seq::<(usize, usize)>::empty());
                assert(pixels_on@ + spec_row_pixels_from(b, row as int, 8) =~= pixels_on@);
                assert(pixels_on@ + spec_sprite_from(bytes@, row as int + 1) =~= pixels_on@
                    + spec_row_pixels_from(b, row as int, 8) + spec_sprite_from(
                    bytes@,
                    row as int + 1,
                ));
            }
            row = row + 1;
        }
        proof {
            assert(spec_sprite_from(bytes@, len as int) =~= Seq::<(usize, usize)>::empty());
            assert(pixels_on@ + spec_sprite_from(bytes@, len as int) =~= pixels_on@);
        }
        Sprite { pixels_on }
    }

    /// The lit offsets, in decode order.
    pub fn pixels(&self) -> (r: Vec<(usize, usize)>)
        ensures
            r@ == self@,
    {
        let mut out: Vec<(usize, usize)> = Vec::new();
        let mut k: usize = 0;
        while k < self.pixels_on.len()
            invariant
                k <= self.pixels_on@.len(),
                out@ =~= self.pixels_on@.subrange(0, k as int),
            decreases self.pixels_on@.len() - k,
        {
            out.push(self.pixels_on[k]);
            k = k + 1;
        }
        proof {
            assert(out@ =~= self@);
        }
        out
    }
}

/// A rectangular pixel grid is well formed when it has at least one row, at
/// least one column, and every row has the same length.
pub open spec fn grid_wf(g: Seq<Seq<bool>>) -> bool {
    &&& g.len() >= 1
    &&& g[0].len() >= 1
    &&& forall|y: int| 0 <= y < g.len() ==> (#[trigger] g[y]).len() == g[0].len()
}

pub open spec fn grid_cols(g: Seq<Seq<bool>>) -> int {
    g[0].len() as int
}

pub open spec fn grid_rows(g: Seq<Seq<bool>>) -> int {
    g.len() as int
}

/// The same grid with every pixel off.
pub open spec fn spec_cleared(g: Seq<Seq<bool>>) -> Seq<Seq<bool>> {
    Seq::new(g.len(), |y: int| Seq::new(g[y].len(), |x: int| false))
}

/// The grid with the pixel at `(x, y)` inverted.
pub open spec fn spec_toggle(g: Seq<Seq<bool>>, x: int, y: int) -> Seq<Seq<bool>> {
    g.update(y, g[y].update(x, !g[y][x]))
}

/// The cell a sprite offset lands on: offsets wrap modulo the grid size.
pub open spec fn spec_target(cols: int, rows: int, col: int, row: int, p: (usize, usize)) -> (
    int,
    int,
) {
    ((p.0 + col) % cols, (p.1 + row) % rows)
}

/// XOR the lit offsets `ps` into `g` at origin `(col, row)`, in order. The
/// second component reports whether any toggled pixel was on when it was
/// toggled — the collision signal.
pub open spec fn spec_draw(
    g: Seq<Seq<bool>>,
    cols: int,
    rows: int,
    col: int,
    row: int,
    ps: Seq<(usize, usize)>,
) -> (Seq<Seq<bool>>, bool)
    decreases ps.len(),
{
    if ps.len() == 0 {
        (g, false)
    } else {
        let xy = spec_target(cols, rows, col, row, ps[0]);
        let hit = g[xy.1][xy.0];
        let rest = spec_draw(spec_toggle(g, xy.0, xy.1), cols, rows, col, row, ps.drop_first());
        (rest.0, hit || rest.1)
    }
}

/// A grid of exactly `rows` rows of `cols` pixels each.
pub open spec fn grid_dims(g: Seq<Seq<bool>>, cols: int, rows: int) -> bool {
    &&& g.len() == rows
    &&& rows >= 1
    &&& cols >= 1
    &&& forall|y: int| 0 <= y < rows ==> (#[trigger] g[y]).len() == cols
}

proof fn lemma_toggle_dims(g: Seq<Seq<bool>>, cols: int, rows: int, x: int, y: int)
    requires
        grid_dims(g, cols, rows),
        0 <= x < cols,
        0 <= y < rows,
    ensures
        grid_dims(spec_toggle(g, x, y), cols, rows),
{
}

proof fn lemma_toggle_swap(g: Seq<Seq<bool>>, cols: int, rows: int, x1: int, y1: int, x2: int, y2: int)
    requires
        grid_dims(g, cols, rows),
        0 <= x1 < cols,
        0 <= y1 < rows,
        0 <= x2 < cols,
        0 <= y2 < rows,
    ensures
        spec_toggle(spec_toggle(g, x1, y1), x2, y2) == spec_toggle(spec_toggle(g, x2, y2), x1, y1),
{
    if x1 == x2 && y1 == y2 {
    } else {
        assert(spec_toggle(spec_toggle(g, x1, y1), x2, y2) =~~= spec_toggle(
            spec_toggle(g, x2, y2),
            x1,
            y1,
        ));
    }
}

proof fn lemma_toggle_involution(g: Seq<Seq<bool>>, cols: int, rows: int, x: int, y: int)
    requires
        grid_dims(g, cols, rows),
        0 <= x < cols,
        0 <= y < rows,
    ensures
        spec_toggle(spec_toggle(g, x, y), x, y) == g,
{
    assert(spec_toggle(spec_toggle(g, x, y), x, y) =~~= g);
}

proof fn lemma_toggle_other(g: Seq<Seq<bool>>, cols: int, rows: int, x: int, y: int, cx: int, cy: int)
    requires
        grid_dims(g, cols, rows),
        0 <= x < cols,
        0 <= y < rows,
        0 <= cx < cols,
        0 <= cy < rows,
        !(x == cx && y == cy),
    ensures
        spec_toggle(g, x, y)[cy][cx] == g[cy][cx],
{
}

proof fn lemma_draw_dims(
    g: Seq<Seq<bool>>,
    cols: int,
    rows: int,
    col: int,
    row: int,
    ps: Seq<(usize, usize)>,
)
    requires
        grid_dims(g, cols, rows),
    ensures
        grid_dims(spec_draw(g, cols, rows, col, row, ps).0, cols, rows),
    decreases ps.len(),
{
    if ps.len() > 0 {
        let xy = spec_target(cols, rows, col, row, ps[0]);
        lemma_toggle_dims(g, cols, rows, xy.0, xy.1);
        lemma_draw_dims(spec_toggle(g, xy.0, xy.1), cols, rows, col, row, ps.drop_first());
    }
}

proof fn lemma_draw_toggle_commutes(
    g: Seq<Seq<bool>>,
    cols: int,
    rows: int,
    col: int,
    row: int,
    ps: Seq<(usize, usize)>,
    x: int,
    y: int,
)
    requires
        grid_dims(g, cols, rows),
        0 <= x < cols,
        0 <= y < rows,
    ensures
        spec_draw(spec_toggle(g, x, y), cols, rows, col, row, ps).0 == spec_toggle(
            spec_draw(g, cols, rows, col, row, ps).0,
            x,
            y,
        ),
    decreases ps.len(),
{
    if ps.len() > 0 {
        let xy = spec_target(cols, rows, col, row, ps[0]);
        lemma_toggle_dims(g, cols, rows, xy.0, xy.1);
        lemma_toggle_swap(g, cols, rows, x, y, xy.0, xy.1);
        lemma_draw_toggle_commutes(
            spec_toggle(g, xy.0, xy.1),
            cols,
            rows,
            col,
            row,
            ps.drop_first(),
            x,
            y,
        );
        assert(spec_draw(spec_toggle(g, x, y), cols, rows, col, row, ps).0 == spec_draw(
            spec_toggle(spec_toggle(g, x, y), xy.0, xy.1),
            cols,
            rows,
            col,
            row,
            ps.drop_first(),
        ).0);
    }
}

/// Drawing the same sprite twice at the same location restores the grid
/// exactly: XOR drawing is its own inverse, whatever the sprite and wherever
/// it lands.
pub proof fn lemma_draw_self_inverse(
    g: Seq<Seq<bool>>,
    cols: int,
    rows: int,
    col: int,
    row: int,
    ps: Seq<(usize, usize)>,
)
    requires
        grid_dims(g, cols, rows),
    ensures
        spec_draw(spec_draw(g, cols, rows, col, row, ps).0, cols, rows, col, row, ps).0 == g,
    decreases ps.len(),
{
    if ps.len() > 0 {
        let xy = spec_target(cols, rows, col, row, ps[0]);
        let rest = ps.drop_first();
        let g1 = spec_toggle(g, xy.0, xy.1);
        let h = spec_draw(g1, cols, rows, col, row, rest).0;
        lemma_toggle_dims(g, cols, rows, xy.0, xy.1);
        lemma_draw_dims(g1, cols, rows, col, row, rest);
        // The first draw is h; the second starts by toggling the head target back.
        lemma_draw_toggle_commutes(g1, cols, rows, col, row, rest, xy.0, xy.1);
        lemma_toggle_involution(g, cols, rows, xy.0, xy.1);
        assert(spec_toggle(h, xy.0, xy.1) == spec_draw(g, cols, rows, col, row, rest).0);
        lemma_draw_self_inverse(g, cols, rows, col, row, rest);
        assert(spec_draw(h, cols, rows, col, row, ps).0 == spec_draw(
            spec_toggle(h, xy.0, xy.1),
            cols,
            rows,
            col,
            row,
            rest,
        ).0);
    }
}

/// Pairwise-distinct landing cells: no two sprite offsets map to the same
/// grid cell. This holds of every decoded sprite on a grid at least 8 wide
/// and at least as tall as the sprite.
pub open spec fn distinct_targets(
    cols: int,
    rows: int,
    col: int,
    row: int,
    ps: Seq<(usize, usize)>,
) -> bool {
    forall|j: int, k: int|
        0 <= j < k < ps.len() ==> #[trigger] spec_target(cols, rows, col, row, ps[j])
            != #[trigger] spec_target(cols, rows, col, row, ps[k])
}

proof fn lemma_draw_untargeted_cell(
    g: Seq<Seq<bool>>,
    cols: int,
    rows: int,
    col: int,
    row: int,
    ps: Seq<(usize, usize)>,
    cx: int,
    cy: int,
)
    requires
        grid_dims(g, cols, rows),
        0 <= cx < cols,
        0 <= cy < rows,
        forall|j: int|
            0 <= j < ps.len() ==> #[trigger] spec_target(cols, rows, col, row, ps[j]) != (cx, cy),
    ensures
        spec_draw(g, cols, rows, col, row, ps).0[cy][cx] == g[cy][cx],
    decreases ps.len(),
{
    if ps.len() > 0 {
        let xy = spec_target(cols, rows, col, row, ps[0]);
        let rest = ps.drop_first();
        lemma_toggle_dims(g, cols, rows, xy.0, xy.1);
        assert(xy != (cx, cy));
        assert(!(xy.0 == cx && xy.1 == cy));
        lemma_toggle_other(g, cols, rows, xy.0, xy.1, cx, cy);
        assert(forall|j: int|
            0 <= j < rest.len() ==> #[trigger] spec_target(cols, rows, col, row, rest[j]) != (
            cx,
            cy,
            )) by {
            assert(forall|j: int| 0 <= j < rest.len() ==> rest[j] == ps[j + 1]);
        }
        lemma_draw_untargeted_cell(
            spec_toggle(g, xy.0, xy.1),
            cols,
            rows,
            col,
            row,
            rest,
            cx,
            cy,
        );
    }
}

/// With pairwise-distinct landing cells, each drawn cell ends up inverted.
proof fn lemma_draw_inverts_targets(
    g: Seq<Seq<bool>>,
    cols: int,
    rows: int,
    col: int,
    row: int,
    ps: Seq<(usize, usize)>,
)
    requires
        grid_dims(g, cols, rows),
        distinct_targets(cols, rows, col, row, ps),
    ensures
        forall|j: int|
            0 <= j < ps.len() ==> {
                let t = #[trigger] spec_target(cols, rows, col, row, ps[j]);
                spec_draw(g, cols, rows, col, row, ps).0[t.1][t.0] == !g[t.1][t.0]
            },
    decreases ps.len(),
{
    if ps.len() > 0 {
        let t0 = spec_target(cols, rows, col, row, ps[0]);
        let rest = ps.drop_first();
        let g1 = spec_toggle(g, t0.0, t0.1);
        lemma_toggle_dims(g, cols, rows, t0.0, t0.1);
        assert(forall|j: int| 0 <= j < rest.len() ==> rest[j] == ps[j + 1]);
        assert(distinct_targets(cols, rows, col, row, rest));
        assert(forall|j: int|
            0 <= j < rest.len() ==> #[trigger] spec_target(cols, rows, col, row, rest[j]) != t0);
        lemma_draw_untargeted_cell(g1, cols, rows, col, row, rest, t0.0, t0.1);
        lemma_draw_inverts_targets(g1, cols, rows, col, row, rest);
        assert forall|j: int| 0 <= j < ps.len() implies {
            let t = #[trigger] spec_target(cols, rows, col, row, ps[j]);
            spec_draw(g, cols, rows, col, row, ps).0[t.1][t.0] == !g[t.1][t.0]
        } by {
            let t = spec_target(cols, rows, col, row, ps[j]);
            if j == 0 {
            } else {
                assert(ps[j] == rest[j - 1]);
                assert(t != t0);
                lemma_toggle_other(g, cols, rows, t0.0, t0.1, t.0, t.1);
            }
        }
    }
}

/// With pairwise-distinct landing cells, the collision signal is exactly
/// "some drawn cell was already on".
proof fn lemma_draw_collision_iff(
    g: Seq<Seq<bool>>,
    cols: int,
    rows: int,
    col: int,
    row: int,
    ps: Seq<(usize, usize)>,
)
    requires
        grid_dims(g, cols, rows),
        distinct_targets(cols, rows, col, row, ps),
    ensures
        spec_draw(g, cols, rows, col, row, ps).1 == (exists|j: int|
            0 <= j < ps.len() && {
                let t = #[trigger] spec_target(cols, rows, col, row, ps[j]);
                g[t.1][t.0]
            }),
    decreases ps.len(),
{
    if ps.len() > 0 {
        let t0 = spec_target(cols, rows, col, row, ps[0]);
        let rest = ps.drop_first();
        let g1 = spec_toggle(g, t0.0, t0.1);
        lemma_toggle_dims(g, cols, rows, t0.0, t0.1);
        assert(forall|j: int| 0 <= j < rest.len() ==> rest[j] == ps[j + 1]);
        assert(distinct_targets(cols, rows, col, row, rest));
        lemma_draw_collision_iff(g1, cols, rows, col, row, rest);
        assert forall|j: int| 0 <= j < rest.len() implies {
            let t = #[trigger] spec_target(cols, rows, col, row, rest[j]);
            g1[t.1][t.0] == g[t.1][t.0]
        } by {
            let t = spec_target(cols, rows, col, row, rest[j]);
            assert(t != t0);
            lemma_toggle_other(g, cols, rows, t0.0, t0.1, t.0, t.1);
        }
        if g[t0.1][t0.0] {
            assert(spec_draw(g, cols, rows, col, row, ps).1);
        } else if spec_draw(g1, cols, rows, col, row, rest).1 {
            let j = choose|j: int|
                0 <= j < rest.len() && {
                    let t = #[trigger] spec_target(cols, rows, col, row, rest[j]);
                    g1[t.1][t.0]
                };
            assert(spec_target(cols, rows, col, row, ps[j + 1]) == spec_target(
                cols,
                rows,
                col,
                row,
                rest[j],
            ));
            assert(exists|k: int|
                0 <= k < ps.len() && {
                    let t = #[trigger] spec_target(cols, rows, col, row, ps[k]);
                    g[t.1][t.0]
                });
        } else {
            if exists|k: int|
                0 <= k < ps.len() && {
                    let t = #[trigger] spec_target(cols, rows, col, row, ps[k]);
                    g[t.1][t.0]
                } {
                let k = choose|k: int|
                    0 <= k < ps.len() && {
                        let t = #[trigger] spec_target(cols, rows, col, row, ps[k]);
                        g[t.1][t.0]
                    };
                if k > 0 {
                    assert(ps[k] == rest[k - 1]);
                }
                assert(false);
            }
        }
    }
}

proof fn lemma_row_pixels_props(b: u8, row: int, col: int)
    requires
        0 <= col <= 8,
        0 <= row <= usize::MAX,
    ensures
        ({
            let ps = spec_row_pixels_from(b, row, col);
            &&& forall|j: int|
                0 <= j < ps.len() ==> (#[trigger] ps[j]).1 == row && col <= ps[j].0 < 8
            &&& forall|j: int, k: int|
                0 <= j < k < ps.len() ==> (#[trigger] ps[j]).0 < (#[trigger] ps[k]).0
        }),
    decreases 8 - col,
{
    if col < 8 {
        lemma_row_pixels_props(b, row, col + 1);
        let ps = spec_row_pixels_from(b, row, col);
        let rest = spec_row_pixels_from(b, row, col + 1);
        if sprite_bit(b, col) {
            assert(ps == seq![(col as usize, row as usize)] + rest);
            assert(forall|j: int| 1 <= j < ps.len() ==> ps[j] == rest[j - 1]);
            assert(ps[0] == (col as usize, row as usize));
        }
    }
}

proof fn lemma_sprite_from_props(bytes: Seq<u8>, r: int)
    requires
        0 <= r <= bytes.len(),
        bytes.len() <= usize::MAX,
    ensures
        ({
            let ps = spec_sprite_from(bytes, r);
            &&& forall|j: int|
                0 <= j < ps.len() ==> r <= (#[trigger] ps[j]).1 < bytes.len() && ps[j].0 < 8
            &&& forall|j: int, k: int|
                0 <= j < k < ps.len() ==> ((#[trigger] ps[j]).1 < (#[trigger] ps[k]).1 || (
                ps[j].1 == ps[k].1 && ps[j].0 < ps[k].0))
        }),
    decreases bytes.len() - r,
{
    if r < bytes.len() {
        lemma_row_pixels_props(bytes[r], r, 0);
        lemma_sprite_from_props(bytes, r + 1);
        let ps = spec_sprite_from(bytes, r);
        let head = spec_row_pixels_from(bytes[r], r, 0);
        let rest = spec_sprite_from(bytes, r + 1);
        assert(ps == head + rest);
        assert(forall|j: int| 0 <= j < head.len() ==> ps[j] == head[j]);
        assert(forall|j: int| head.len() <= j < ps.len() ==> ps[j] == rest[j - head.len()]);
    }
}

proof fn lemma_mod_shift_distinct(a: int, b: int, s: int, n: int)
    requires
        0 <= a < n,
        0 <= b < n,
        a != b,
        s >= 0,
        n > 0,
    ensures
        (a + s) % n != (b + s) % n,
{
    if (a + s) % n == (b + s) % n {
        lemma_mod_equivalence(a + s, b + s, n);
        assert((a - b) % n == 0);
        if a > b {
            lemma_small_mod((a - b) as nat, n as nat);
        } else {
            lemma_mod_add_multiples_vanish(a - b, n);
            assert((a - b + n) % n == (a - b) % n);
            lemma_small_mod((a - b + n) as nat, n as nat);
        }
        assert(false);
    }
}

/// Every decoded sprite lands its lit offsets on pairwise-distinct cells of
/// any grid at least 8 columns wide and at least as tall as the sprite,
/// wherever it is drawn: wraparound cannot fold two offsets of one sprite
/// onto the same cell.
pub proof fn lemma_sprite_targets_distinct(
    bytes: Seq<u8>,
    cols: int,
    rows: int,
    col: int,
    row: int,
)
    requires
        cols >= 8,
        rows >= bytes.len(),
        bytes.len() <= usize::MAX,
        col >= 0,
        row >= 0,
    ensures
        distinct_targets(cols, rows, col, row, spec_sprite_pixels(bytes)),
{
    lemma_sprite_from_props(bytes, 0);
    let ps = spec_sprite_pixels(bytes);
    assert forall|j: int, k: int|
        0 <= j < k < ps.len() implies #[trigger] spec_target(cols, rows, col, row, ps[j])
        != #[trigger] spec_target(cols, rows, col, row, ps[k]) by {
        let p = ps[j];
        let q = ps[k];
        if p.1 == q.1 {
            lemma_mod_shift_distinct(p.0 as int, q.0 as int, col, cols);
        } else {
            lemma_mod_shift_distinct(p.1 as int, q.1 as int, row, rows);
        }
    }
}

/// Drawing the same sprite twice at the same location: the second draw
/// collides exactly when some cell the sprite lands on was off before the
/// first draw (the first draw turned it on, the second finds it on and
/// turns it off). Landing cells must be pairwise distinct;
/// [`lemma_sprite_targets_distinct`] shows every decoded sprite satisfies
/// this on a grid at least 8 wide and at least as tall as the sprite.
pub proof fn lemma_second_draw_collision(
    g: Seq<Seq<bool>>,
    cols: int,
    rows: int,
    col: int,
    row: int,
    ps: Seq<(usize, usize)>,
)
    requires
        grid_dims(g, cols, rows),
        distinct_targets(cols, rows, col, row, ps),
    ensures
        spec_draw(spec_draw(g, cols, rows, col, row, ps).0, cols, rows, col, row, ps).1 == (
        exists|j: int|
            0 <= j < ps.len() && {
                let t = #[trigger] spec_target(cols, rows, col, row, ps[j]);
                !g[t.1][t.0]
            }),
{
    let g1 = spec_draw(g, cols, rows, col, row, ps).0;
    lemma_draw_dims(g, cols, rows, col, row, ps);
    lemma_draw_inverts_targets(g, cols, rows, col, row, ps);
    lemma_draw_collision_iff(g1, cols, rows, col, row, ps);
}

/// What is shown on the screen: a grid of boolean pixels, rows outside,
/// columns inside.
pub struct PixelBuffer {
    /// The grid itself, one inner vector per row.
    pub pixels: Vec<Vec<bool>>,
    /// Width of the grid in pixels.
    pub columns: usize,
    /// Height of the grid in pixels.
    pub rows: usize,
}

impl View for PixelBuffer {
    type V = Seq<Seq<bool>>;

    closed spec fn view(&self) -> Seq<Seq<bool>> {
        Seq::new(self.pixels@.len(), |y: int| self.pixels@[y]@)
    }
}

impl PixelBuffer {
    pub open spec fn wf(&self) -> bool {
        &&& grid_wf(self@)
        &&& self.columns as int == grid_cols(self@)
        &&& self.rows as int == grid_rows(self@)
    }

    /// A fresh grid of the given dimensions, every pixel off.
    pub fn new(columns: usize, rows: usize) -> (pb: PixelBuffer)
        requires
            columns >= 1,
            rows >= 1,
        ensures
            pb.wf(),
            pb.columns == columns,
            pb.rows == rows,
            forall|y: int, x: int| 0 <= y < rows && 0 <= x < columns ==> !pb@[y][x],
    {
        let mut pixels: Vec<Vec<bool>> = Vec::new();
        let mut y: usize = 0;
        while y < rows
            invariant
                y <= rows,
                pixels@.len() == y,
                forall|j: int|
                    0 <= j < y ==> (#[trigger] pixels@[j])@.len() == columns && forall|x: int|
                        0 <= x < columns ==> !pixels@[j]@[x],
            decreases rows - y,
        {
            let mut line: Vec<bool> = Vec::new();
            let mut x: usize = 0;
            while x < columns
                invariant
                    x <= columns,
                    line@.len() == x,
                    forall|j: int| 0 <= j < x ==> !line@[j],
                decreases columns - x,
            {
                line.push(false);
                x = x + 1;
            }
            pixels.push(line);
            y = y + 1;
        }
        PixelBuffer { pixels, columns, rows }
    }

    /// Every pixel off again; the dimensions stay.
    pub fn clear(&mut self)
        requires
            old(self).wf(),
        ensures
            final(self).wf(),
            final(self).columns == old(self).columns,
            final(self).rows == old(self).rows,
            final(self)@ == spec_cleared(old(self)@),
    {
        let fresh = PixelBuffer::new(self.columns, self.rows);
        *self = fresh;
        proof {
            assert(self@ =~~= spec_cleared(old(self)@));
        }
    }

    /// Read one pixel.
    pub fn pixel(&self, x: usize, y: usize) -> (r: bool)
        requires
            self.wf(),
            x < self.columns,
            y < self.rows,
        ensures
            r == self@[y as int][x as int],
    {
        proof {
            assert(self@[y as int].len() == grid_cols(self@));
            assert(self@[y as int] == self.pixels@[y as int]@);
        }
        self.pixels[y][x]
    }

    /// Invert one pixel.
    fn toggle_pixel(&mut self, x: usize, y: usize)
        requires
            old(self).wf(),
            x < old(self).columns,
            y < old(self).rows,
        ensures
            final(self).wf(),
            final(self).columns == old(self).columns,
            final(self).rows == old(self).rows,
            final(self)@ == spec_toggle(old(self)@, x as int, y as int),
    {
        proof {
            assert(old(self)@[y as int].len() == grid_cols(old(self)@));
            assert(old(self)@[y as int] == old(self).pixels@[y as int]@);
        }
        let row_ref = vec_index_mut(&mut self.pixels, y);
        let was = row_ref[x];
        row_ref[x] = !was;
        proof {
            assert(self@ =~~= spec_toggle(old(self)@, x as int, y as int));
        }
    }

    /// XOR a sprite into the grid at origin `(column, row)` with wraparound;
    /// the result reports whether any pixel was toggled from on to off.
    pub fn add_sprite(&mut self, column: usize, row: usize, sprite: Sprite) -> (collision: bool)
        requires
            old(self).wf(),
            forall|j: int|
                0 <= j < sprite@.len() ==> (#[trigger] sprite@[j]).0 + column <= usize::MAX
                    && sprite@[j].1 + row <= usize::MAX,
        ensures
            final(self).wf(),
            final(self).columns == old(self).columns,
            final(self).rows == old(self).rows,
            final(self)@ == spec_draw(
                old(self)@,
                old(self).columns as int,
                old(self).rows as int,
                column as int,
                row as int,
                sprite@,
            ).0,
            collision == spec_draw(
                old(self)@,
                old(self).columns as int,
                old(self).rows as int,
                column as int,
                row as int,
                sprite@,
            ).1,
    {
        let cols = self.columns;
        let rows = self.rows;
        let n = sprite.pixels_on.len();
        let mut collision = false;
        let mut k: usize = 0;
        let ghost g0 = self@;
        let ghost full = spec_draw(g0, cols as int, rows as int, column as int, row as int, sprite@);
        proof {
            assert(sprite@.skip(0) =~= sprite@);
        }
        while k < n
            invariant
                self.wf(),
                self.columns == cols,
                self.rows == rows,
                k <= n,
                n == sprite@.len(),
                forall|j: int|
                    0 <= j < sprite@.len() ==> (#[trigger] sprite@[j]).0 + column <= usize::MAX
                        && sprite@[j].1 + row <= usize::MAX,
                full == spec_draw(
                    g0,
                    cols as int,
                    rows as int,
                    column as int,
                    row as int,
                    sprite@,
                ),
                ({
                    let cur = spec_draw(
                        self@,
                        cols as int,
                        rows as int,
                        column as int,
                        row as int,
                        sprite@.skip(k as int),
                    );
                    full.0 == cur.0 && full.1 == (collision || cur.1)
                }),
            decreases n - k,
        {
            let ghost pre = self@;
            let p = sprite.pixels_on[k];
            let x = (p.0 + column) % cols;
            let y = (p.1 + row) % rows;
            let was = self.pixels[y][x];
            self.toggle_pixel(x, y);
            proof {
                let ps = sprite@.skip(k as int);
                assert(ps[0] == sprite@[k as int]);
                assert(ps.drop_first() =~= sprite@.skip(k as int + 1));
                assert(spec_target(cols as int, rows as int, column as int, row as int, ps[0]) == (
                    x as int,
                    y as int,
                ));
                assert(was == pre[y as int][x as int]);
            }
            collision = collision || was;
            k = k + 1;
        }
        proof {
            assert(sprite@.skip(n as int) =~= Seq::<(usize, usize)>::empty());
            assert(spec_draw(
                self@,
                cols as int,
                rows as int,
                column as int,
                row as int,
                Seq::<(usize, usize)>::empty(),
            ) == (self@, false));
        }
        collision
    }
}

} // verus!
