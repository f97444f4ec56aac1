//! The display surface: a flat grid of cells, each on or off, changed only by
//! clearing it and by drawing sprites onto it.

use vstd::prelude::*;
use super::vm::{HEIGHT, WIDTH};

verus! {

/// The colour value of a cell that is off.
pub const OFF: u32 = 0;

/// The colour value of a cell that is on.
pub const ON: u32 = 0xffff_ffff;

/// The number of cells of the display.
pub const CELLS: usize = WIDTH * HEIGHT;

/// The width of every sprite in pixels: one bit of a byte each.
pub const SPRITE_WIDTH: usize = 8;

/// A frame is well formed when it has one cell for each pixel, row after row,
/// and each cell is either on or off.
pub open spec fn well_formed(frame: Seq<u32>) -> bool {
    &&& frame.len() == CELLS
    &&& forall|p: int| 0 <= p < frame.len() ==> frame[p] == OFF || frame[p] == ON
}

/// Whether a cell is on.
pub open spec fn lit(cell: u32) -> bool {
    cell != OFF
}

/// The other state of a cell.
pub open spec fn toggled(cell: u32) -> u32 {
    if cell == OFF {
        ON
    } else {
        OFF
    }
}

/// The frame with every cell off.
pub open spec fn blank_frame() -> Seq<u32> {
    Seq::new(CELLS as nat, |p: int| OFF)
}

/// The index of the cell in the given column and row.
pub open spec fn cell_index(column: int, row: int) -> int {
    row * WIDTH + column
}

/// The cell on which pixel `(c, r)` of a sprite drawn at `(x, y)` lands:
/// column `(x + c) mod WIDTH` of row `(y + r) mod HEIGHT`.
pub open spec fn landing(x: u8, y: u8, c: int, r: int) -> int {
    cell_index((x + c) % (WIDTH as int), (y + r) % (HEIGHT as int))
}

/// Whether the pixel in the given column of a sprite row is set. Column 0 is
/// the most significant bit.
pub open spec fn sprite_bit(line: u8, column: int) -> bool {
    0 <= column < SPRITE_WIDTH && line & (0x80u8 >> (column as u8)) != 0
}

/// Whether row `r` of a sprite drawn at `(x, y)`, which holds `line`, has a
/// set pixel on cell `p` in one of its first `columns` columns.
pub open spec fn row_hits(line: u8, x: u8, y: u8, r: int, columns: int, p: int) -> bool {
    let c = (p % (WIDTH as int) - x) % (WIDTH as int);
    p / (WIDTH as int) == (y + r) % (HEIGHT as int) && c < columns && sprite_bit(line, c)
}

/// How many set pixels of the first `rows` rows of the sprite, drawn at
/// `(x, y)`, land on cell `p`. A sprite taller than the display comes round
/// to the same cell again.
pub open spec fn hits(sprite: Seq<u8>, x: u8, y: u8, rows: int, p: int) -> nat
    decreases rows,
{
    if rows <= 0 {
        0
    } else {
        hits(sprite, x, y, rows - 1, p) + if row_hits(
            sprite[rows - 1],
            x,
            y,
            rows - 1,
            SPRITE_WIDTH as int,
            p,
        ) {
            1nat
        } else {
            0nat
        }
    }
}

/// How many set pixels land on cell `p` while the sprite is being drawn, row
/// by row and column by column: those of the first `rows` rows and of the
/// first `columns` columns of the row after them.
pub open spec fn hits_so_far(
    sprite: Seq<u8>,
    x: u8,
    y: u8,
    rows: int,
    columns: int,
    p: int,
) -> nat {
    hits(sprite, x, y, rows, p) + if row_hits(sprite[rows], x, y, rows, columns, p) {
        1nat
    } else {
        0nat
    }
}

/// The frame while the sprite is being drawn: each cell has changed state
/// once for each pixel that has landed on it so far.
pub open spec fn drawn_so_far(
    frame: Seq<u32>,
    sprite: Seq<u8>,
    x: u8,
    y: u8,
    rows: int,
    columns: int,
) -> Seq<u32> {
    Seq::new(
        frame.len(),
        |p: int|
            if hits_so_far(sprite, x, y, rows, columns, p) % 2 == 1 {
                toggled(frame[p])
            } else {
                frame[p]
            },
    )
}

/// Whether a pixel drawn so far has turned a cell off: it landed on a cell
/// that was on in `frame`, or on a cell that an earlier pixel had turned on.
pub open spec fn collides_so_far(
    frame: Seq<u32>,
    sprite: Seq<u8>,
    x: u8,
    y: u8,
    rows: int,
    columns: int,
) -> bool {
    exists|p: int|
        0 <= p < frame.len() && turned_off(
            frame[p],
            #[trigger] hits_so_far(sprite, x, y, rows, columns, p),
        )
}

/// Whether a cell that started as `cell` has been turned off by one of `n`
/// pixels landing on it one after the other: by the first if it was on, by
/// the second if it was off.
pub open spec fn turned_off(cell: u32, n: nat) -> bool {
    n >= 2 || (n >= 1 && lit(cell))
}

/// The frame after the sprite has been drawn at `(x, y)`: each cell has
/// changed state once for each set pixel of the sprite that lands on it.
#[verifier::opaque]
pub open spec fn drawn(frame: Seq<u32>, sprite: Seq<u8>, x: u8, y: u8) -> Seq<u32> {
    drawn_so_far(frame, sprite, x, y, sprite.len() as int, 0)
}

/// Whether drawing the sprite at `(x, y)` turns off a cell that is on at the
/// moment a pixel lands on it.
#[verifier::opaque]
pub open spec fn collides(frame: Seq<u32>, sprite: Seq<u8>, x: u8, y: u8) -> bool {
    collides_so_far(frame, sprite, x, y, sprite.len() as int, 0)
}

/// Whether a sprite no taller than the display, drawn at `(x, y)`, has a set
/// pixel on cell `p`: the one pixel that can land there is set.
pub open spec fn covered(sprite: Seq<u8>, x: u8, y: u8, p: int) -> bool {
    let c = (p % (WIDTH as int) - x) % (WIDTH as int);
    let r = (p / (WIDTH as int) - y) % (HEIGHT as int);
    r < sprite.len() && sprite_bit(sprite[r], c)
}

/// Going `r` rows down from row `y` ends on `row`, wrapping at the bottom,
/// exactly if `row` lies `r` rows below `y`, for `r` less than the height.
proof fn lemma_wrapped_row(y: u8, r: int, row: int)
    requires
        0 <= r < HEIGHT,
        0 <= row < HEIGHT,
    ensures
        (row - y) % (HEIGHT as int) == r <==> row == (y + r) % (HEIGHT as int),
{
}

/// Pixel `(c, r)` of a sprite lands on a cell of the display, in the column
/// and row that its wrapped coordinates name; a pixel that lands on cell `q`
/// in the same row of the sprite is the same pixel.
pub proof fn lemma_landing(x: u8, y: u8, c: int, r: int, q: int)
    requires
        0 <= c < WIDTH,
        0 <= r,
    ensures
        0 <= landing(x, y, c, r) < CELLS,
        landing(x, y, c, r) / (WIDTH as int) == (y + r) % (HEIGHT as int),
        (landing(x, y, c, r) % (WIDTH as int) - x) % (WIDTH as int) == c,
        0 <= q < CELLS && (q % (WIDTH as int) - x) % (WIDTH as int) == c && q / (WIDTH as int) == (y
            + r) % (HEIGHT as int) ==> q == landing(x, y, c, r),
{
}

/// What drawing one more pixel of the sprite does: if the pixel is set, the
/// cell it lands on changes state, and a collision is recorded if that cell
/// was on just before; nothing else changes.
proof fn lemma_draw_pixel(frame: Seq<u32>, sprite: Seq<u8>, x: u8, y: u8, r: int, c: int)
    requires
        well_formed(frame),
        0 <= r < sprite.len(),
        0 <= c < SPRITE_WIDTH,
    ensures
        sprite_bit(sprite[r], c) ==> {
            &&& drawn_so_far(frame, sprite, x, y, r, c + 1) == drawn_so_far(
                frame,
                sprite,
                x,
                y,
                r,
                c,
            ).update(
                landing(x, y, c, r),
                toggled(drawn_so_far(frame, sprite, x, y, r, c)[landing(x, y, c, r)]),
            )
            &&& collides_so_far(frame, sprite, x, y, r, c + 1) == (collides_so_far(
                frame,
                sprite,
                x,
                y,
                r,
                c,
            ) || lit(drawn_so_far(frame, sprite, x, y, r, c)[landing(x, y, c, r)]))
        },
        !sprite_bit(sprite[r], c) ==> {
            &&& drawn_so_far(frame, sprite, x, y, r, c + 1) == drawn_so_far(
                frame,
                sprite,
                x,
                y,
                r,
                c,
            )
            &&& collides_so_far(frame, sprite, x, y, r, c + 1) == collides_so_far(
                frame,
                sprite,
                x,
                y,
                r,
                c,
            )
        },
{
    let l = landing(x, y, c, r);
    let before = drawn_so_far(frame, sprite, x, y, r, c);
    let after = drawn_so_far(frame, sprite, x, y, r, c + 1);
    lemma_landing(x, y, c, r, l);
    assert forall|p: int| 0 <= p < CELLS implies #[trigger] hits_so_far(sprite, x, y, r, c + 1, p)
        == hits_so_far(sprite, x, y, r, c, p) + if p == l && sprite_bit(sprite[r], c) {
        1nat
    } else {
        0nat
    } by {
        lemma_landing(x, y, c, r, p);
    }
    if sprite_bit(sprite[r], c) {
        assert(after =~= before.update(l, toggled(before[l])));
        if collides_so_far(frame, sprite, x, y, r, c + 1) {
            let p = choose|p: int|
                0 <= p < frame.len() && turned_off(
                    frame[p],
                    #[trigger] hits_so_far(sprite, x, y, r, c + 1, p),
                );
            if p != l {
                assert(turned_off(frame[p], hits_so_far(sprite, x, y, r, c, p)));
            } else if !lit(before[l]) {
                assert(turned_off(frame[l], hits_so_far(sprite, x, y, r, c, l)));
            }
        }
        if collides_so_far(frame, sprite, x, y, r, c) {
            let p = choose|p: int|
                0 <= p < frame.len() && turned_off(
                    frame[p],
                    #[trigger] hits_so_far(sprite, x, y, r, c, p),
                );
            assert(turned_off(frame[p], hits_so_far(sprite, x, y, r, c + 1, p)));
        }
        if lit(before[l]) {
            assert(turned_off(frame[l], hits_so_far(sprite, x, y, r, c + 1, l)));
        }
    } else {
        assert(after =~= before);
        if collides_so_far(frame, sprite, x, y, r, c + 1) {
            let p = choose|p: int|
                0 <= p < frame.len() && turned_off(
                    frame[p],
                    #[trigger] hits_so_far(sprite, x, y, r, c + 1, p),
                );
            assert(turned_off(frame[p], hits_so_far(sprite, x, y, r, c, p)));
        }
        if collides_so_far(frame, sprite, x, y, r, c) {
            let p = choose|p: int|
                0 <= p < frame.len() && turned_off(
                    frame[p],
                    #[trigger] hits_so_far(sprite, x, y, r, c, p),
                );
            assert(turned_off(frame[p], hits_so_far(sprite, x, y, r, c + 1, p)));
        }
    }
}

/// A finished row is the start of the next one.
proof fn lemma_draw_row(frame: Seq<u32>, sprite: Seq<u8>, x: u8, y: u8, r: int)
    requires
        0 <= r < sprite.len(),
    ensures
        drawn_so_far(frame, sprite, x, y, r, SPRITE_WIDTH as int) == drawn_so_far(
            frame,
            sprite,
            x,
            y,
            r + 1,
            0,
        ),
        collides_so_far(frame, sprite, x, y, r, SPRITE_WIDTH as int) == collides_so_far(
            frame,
            sprite,
            x,
            y,
            r + 1,
            0,
        ),
{
    assert forall|p: int| #[trigger]
        hits_so_far(sprite, x, y, r, SPRITE_WIDTH as int, p) == hits_so_far(
            sprite,
            x,
            y,
            r + 1,
            0,
            p,
        ) by {}
    assert(drawn_so_far(frame, sprite, x, y, r, SPRITE_WIDTH as int) =~= drawn_so_far(
        frame,
        sprite,
        x,
        y,
        r + 1,
        0,
    ));
    if collides_so_far(frame, sprite, x, y, r, SPRITE_WIDTH as int) {
        let p = choose|p: int|
            0 <= p < frame.len() && turned_off(
                frame[p],
                #[trigger] hits_so_far(sprite, x, y, r, SPRITE_WIDTH as int, p),
            );
        assert(turned_off(frame[p], hits_so_far(sprite, x, y, r + 1, 0, p)));
    }
    if collides_so_far(frame, sprite, x, y, r + 1, 0) {
        let p = choose|p: int|
            0 <= p < frame.len() && turned_off(
                frame[p],
                #[trigger] hits_so_far(sprite, x, y, r + 1, 0, p),
            );
        assert(turned_off(frame[p], hits_so_far(sprite, x, y, r, SPRITE_WIDTH as int, p)));
    }
}

/// Of a sprite no taller than the display at most one pixel lands on any
/// cell: no cell changes state twice in one draw.
pub proof fn lemma_hits_once(sprite: Seq<u8>, x: u8, y: u8, rows: int, p: int)
    requires
        0 <= rows <= sprite.len() <= HEIGHT,
        0 <= p < CELLS,
    ensures
        hits(sprite, x, y, rows, p) == if covered(sprite.take(rows), x, y, p) {
            1nat
        } else {
            0nat
        },
    decreases rows,
{
    if rows > 0 {
        lemma_hits_once(sprite, x, y, rows - 1, p);
        lemma_wrapped_row(y, rows - 1, p / (WIDTH as int));
    }
}

/// A sprite no taller than the display covers exactly the cells on which its
/// set pixels land: pixel `(c, r)` lands on column `(x + c) mod WIDTH` of row
/// `(y + r) mod HEIGHT`, so a sprite that reaches past an edge comes back in
/// at the opposite one.
pub proof fn lemma_covered(sprite: Seq<u8>, x: u8, y: u8, p: int)
    requires
        sprite.len() <= HEIGHT,
        0 <= p < CELLS,
    ensures
        covered(sprite, x, y, p) <==> exists|c: int, r: int|
            0 <= c < SPRITE_WIDTH && 0 <= r < sprite.len() && sprite_bit(sprite[r], c) && p
                == #[trigger] landing(x, y, c, r),
{
    if covered(sprite, x, y, p) {
        let c = (p % (WIDTH as int) - x) % (WIDTH as int);
        let r = (p / (WIDTH as int) - y) % (HEIGHT as int);
        lemma_wrapped_row(y, r, p / (WIDTH as int));
        lemma_landing(x, y, c, r, p);
        assert(p == landing(x, y, c, r));
    }
    if exists|c: int, r: int|
        0 <= c < SPRITE_WIDTH && 0 <= r < sprite.len() && sprite_bit(sprite[r], c) && p
            == #[trigger] landing(x, y, c, r) {
        let (c, r) = choose|c: int, r: int|
            0 <= c < SPRITE_WIDTH && 0 <= r < sprite.len() && sprite_bit(sprite[r], c) && p
                == #[trigger] landing(x, y, c, r);
        lemma_landing(x, y, c, r, p);
        lemma_wrapped_row(y, r, p / (WIDTH as int));
    }
}

/// Drawing a sprite no taller than the display changes the state of every
/// cell under a set pixel of the sprite, wrapped at the edges, and leaves
/// every other cell alone. It collides exactly if one of those cells was on.
pub proof fn lemma_drawn(frame: Seq<u32>, sprite: Seq<u8>, x: u8, y: u8)
    requires
        well_formed(frame),
        sprite.len() <= HEIGHT,
    ensures
        drawn(frame, sprite, x, y) == Seq::new(
            CELLS as nat,
            |p: int|
                if covered(sprite, x, y, p) {
                    toggled(frame[p])
                } else {
                    frame[p]
                },
        ),
        collides(frame, sprite, x, y) <==> exists|p: int|
            0 <= p < CELLS && covered(sprite, x, y, p) && lit(#[trigger] frame[p]),
        forall|c: int, r: int|
            0 <= c < SPRITE_WIDTH && 0 <= r < sprite.len() && sprite_bit(sprite[r], c) ==> drawn(
                frame,
                sprite,
                x,
                y,
            )[#[trigger] landing(x, y, c, r)] == toggled(frame[landing(x, y, c, r)]),
{
    reveal(drawn);
    reveal(collides);
    let rows = sprite.len() as int;
    assert(sprite.take(rows) =~= sprite);
    assert forall|p: int| 0 <= p < CELLS implies #[trigger] hits_so_far(sprite, x, y, rows, 0, p)
        == if covered(sprite, x, y, p) {
        1nat
    } else {
        0nat
    } by {
        lemma_hits_once(sprite, x, y, rows, p);
    }
    assert(drawn(frame, sprite, x, y) =~= Seq::new(
        CELLS as nat,
        |p: int|
            if covered(sprite, x, y, p) {
                toggled(frame[p])
            } else {
                frame[p]
            },
    ));
    if collides(frame, sprite, x, y) {
        let p = choose|p: int|
            0 <= p < frame.len() && turned_off(
                frame[p],
                #[trigger] hits_so_far(sprite, x, y, rows, 0, p),
            );
        assert(covered(sprite, x, y, p) && lit(frame[p]));
    }
    if exists|p: int| 0 <= p < CELLS && covered(sprite, x, y, p) && lit(#[trigger] frame[p]) {
        let p = choose|p: int|
            0 <= p < CELLS && covered(sprite, x, y, p) && lit(#[trigger] frame[p]);
        assert(turned_off(frame[p], hits_so_far(sprite, x, y, rows, 0, p)));
    }
    assert forall|c: int, r: int|
        0 <= c < SPRITE_WIDTH && 0 <= r < sprite.len() && sprite_bit(sprite[r], c) implies drawn(
        frame,
        sprite,
        x,
        y,
    )[#[trigger] landing(x, y, c, r)] == toggled(frame[landing(x, y, c, r)]) by {
        let l = landing(x, y, c, r);
        lemma_landing(x, y, c, r, 0);
        lemma_wrapped_row(y, r, l / (WIDTH as int));
        assert(covered(sprite, x, y, l));
    }
}

/// Drawing keeps a well-formed frame well formed.
pub proof fn lemma_drawn_well_formed(frame: Seq<u32>, sprite: Seq<u8>, x: u8, y: u8)
    requires
        well_formed(frame),
    ensures
        well_formed(drawn(frame, sprite, x, y)),
{
    reveal(drawn);
}

/// Drawing the same sprite twice at the same place gives back the frame as
/// it was, whatever the sprite.
pub proof fn lemma_draw_twice(frame: Seq<u32>, sprite: Seq<u8>, x: u8, y: u8)
    requires
        well_formed(frame),
    ensures
        drawn(drawn(frame, sprite, x, y), sprite, x, y) == frame,
{
    reveal(drawn);
    assert(drawn(drawn(frame, sprite, x, y), sprite, x, y) =~= frame);
}

/// On a blank frame the first draw of a sprite no taller than the display
/// does not collide, and a second draw of the same sprite at the same place
/// collides exactly if the sprite has a set pixel.
pub proof fn lemma_draw_twice_on_blank(sprite: Seq<u8>, x: u8, y: u8)
    requires
        sprite.len() <= HEIGHT,
    ensures
        !collides(blank_frame(), sprite, x, y),
        collides(drawn(blank_frame(), sprite, x, y), sprite, x, y) <==> exists|c: int, r: int|
            0 <= c < SPRITE_WIDTH && 0 <= r < sprite.len() && #[trigger] sprite_bit(sprite[r], c),
{
    let frame = blank_frame();
    let once = drawn(frame, sprite, x, y);
    lemma_drawn(frame, sprite, x, y);
    lemma_drawn_well_formed(frame, sprite, x, y);
    lemma_drawn(once, sprite, x, y);
    if collides(once, sprite, x, y) {
        let p = choose|p: int|
            0 <= p < CELLS && covered(sprite, x, y, p) && lit(#[trigger] once[p]);
        lemma_covered(sprite, x, y, p);
    }
    if exists|c: int, r: int|
        0 <= c < SPRITE_WIDTH && 0 <= r < sprite.len() && #[trigger] sprite_bit(sprite[r], c) {
        let (c, r) = choose|c: int, r: int|
            0 <= c < SPRITE_WIDTH && 0 <= r < sprite.len() && #[trigger] sprite_bit(sprite[r], c);
        let p = landing(x, y, c, r);
        lemma_landing(x, y, c, r, p);
        lemma_covered(sprite, x, y, p);
        assert(covered(sprite, x, y, p) && lit(once[p]));
    }
}

/// A frame with every cell off.
pub fn blank() -> (frame: Vec<u32>)
    ensures
        frame@ == blank_frame(),
        well_formed(frame@),
{
    let frame = vec![0u32; CELLS];
    assert(frame@ =~= blank_frame());
    frame
}

/// Turns every cell off.
pub fn clear(frame: &mut Vec<u32>)
    ensures
        final(frame)@ == Seq::new(old(frame)@.len(), |p: int| OFF),
{
    let mut p: usize = 0;
    while p < frame.len()
        invariant
            p <= frame@.len(),
            frame@.len() == old(frame)@.len(),
            forall|q: int| 0 <= q < p ==> frame@[q] == OFF,
        decreases frame@.len() - p,
    {
        frame[p] = OFF;
        p += 1;
    }
    assert(frame@ =~= Seq::new(old(frame)@.len(), |p: int| OFF));
}

/// Draws the sprite, one byte for each row of eight pixels, with its top left
/// corner at `(x, y)`. Every set pixel changes the state of the cell that it
/// lands on; columns wrap at the right edge and rows at the bottom edge.
/// Returns whether a pixel has turned off a cell that was on when the pixel
/// landed on it.
pub fn draw_sprite(frame: &mut Vec<u32>, x: u8, y: u8, sprite: &[u8]) -> (collision: bool)
    requires
        well_formed(old(frame)@),
    ensures
        final(frame)@ == drawn(old(frame)@, sprite@, x, y),
        collision == collides(old(frame)@, sprite@, x, y),
        well_formed(final(frame)@),
{
    proof {
        reveal(drawn);
        reveal(collides);
    }
    let mut collision = false;
    let mut ys: usize = 0;
    assert(frame@ =~= drawn_so_far(old(frame)@, sprite@, x, y, 0, 0));
    while ys < sprite.len()
        invariant
            ys <= sprite@.len(),
            well_formed(old(frame)@),
            frame@ == drawn_so_far(old(frame)@, sprite@, x, y, ys as int, 0),
            collision == collides_so_far(old(frame)@, sprite@, x, y, ys as int, 0),
        decreases sprite@.len() - ys,
    {
        let line = sprite[ys];
        let mut xs: usize = 0;
        while xs < SPRITE_WIDTH
            invariant
                ys < sprite@.len(),
                xs <= SPRITE_WIDTH,
                line == sprite@[ys as int],
                well_formed(old(frame)@),
                frame@ == drawn_so_far(old(frame)@, sprite@, x, y, ys as int, xs as int),
                collision == collides_so_far(old(frame)@, sprite@, x, y, ys as int, xs as int),
            decreases SPRITE_WIDTH - xs,
        {
            proof {
                lemma_draw_pixel(old(frame)@, sprite@, x, y, ys as int, xs as int);
                lemma_landing(x, y, xs as int, ys as int, 0);
            }
            if line & (0x80u8 >> xs) != 0 {
                let column: usize = (x as usize + xs) % WIDTH;
                let row: usize = (y as usize % HEIGHT + ys % HEIGHT) % HEIGHT;
                let l: usize = row * WIDTH + column;
                assert(l == landing(x, y, xs as int, ys as int));
                if frame[l] != OFF {
                    collision = true;
                }
                let cell = frame[l];
                assert(!OFF == ON && !ON == OFF) by (bit_vector);
                frame[l] = !cell;
            }
            xs += 1;
        }
        proof {
            lemma_draw_row(old(frame)@, sprite@, x, y, ys as int);
        }
        ys += 1;
    }
    collision
}

} // verus!
