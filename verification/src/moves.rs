//! The move generator and the specification predicates it is proved against.
//!
//! A destination is pseudo-legal when it follows the occupant's movement
//! pattern and the board's occupancy; check safety is outside this engine.

use vstd::prelude::*;

use crate::board::Color;
use crate::board::EmptySquare;
use crate::board::Game;
use crate::board::Piece;
use crate::board::PieceType;
use crate::board::in_bounds;
use crate::board::piece_at;

verus! {

broadcast use vstd::seq_lib::group_seq_properties;

/// Rank direction a pawn of color c advances in: White toward rank 0, Black
/// toward rank 7.
pub open spec fn pawn_dir(c: Color) -> int {
    if c is White {
        -1
    } else {
        1
    }
}

/// The rank a pawn of color c starts on, from which alone the double step is
/// allowed.
pub open spec fn home_rank(c: Color) -> int {
    if c is White {
        6
    } else {
        1
    }
}

/// A mover of color c may land on (x, y): the square is empty or held by the
/// other color.
pub open spec fn square_open_to(b: Seq<Option<Piece>>, x: int, y: int, c: Color) -> bool {
    match piece_at(b, x, y) {
        None => true,
        Some(p) => p.color != c,
    }
}

/// (x, y) holds a piece of the color opposite to c.
pub open spec fn holds_enemy(b: Seq<Option<Piece>>, x: int, y: int, c: Color) -> bool {
    match piece_at(b, x, y) {
        None => false,
        Some(p) => p.color != c,
    }
}

/// Pawn rule: a forward square (one step always, two steps from the home
/// rank only) may be entered when it is empty or enemy-held, and a
/// diagonally-forward square only when it is enemy-held. Note that this
/// engine does not restrict forward pawn moves to empty squares: a forward
/// capture is offered like any other open square.
pub open spec fn pawn_move(
    b: Seq<Option<Piece>>,
    px: int,
    py: int,
    c: Color,
    tx: int,
    ty: int,
) -> bool {
    ||| (tx == px && ty == py + pawn_dir(c) && in_bounds(tx, ty) && square_open_to(b, tx, ty, c))
    ||| (py == home_rank(c) && tx == px && ty == py + 2 * pawn_dir(c) && in_bounds(tx, ty)
        && square_open_to(b, tx, ty, c))
    ||| ((tx == px - 1 || tx == px + 1) && ty == py + pawn_dir(c) && in_bounds(tx, ty)
        && holds_enemy(b, tx, ty, c))
}

/// The eight L-shaped knight offsets.
pub open spec fn knight_offset(dx: int, dy: int) -> bool {
    ||| ((dx == -1 || dx == 1) && (dy == -2 || dy == 2))
    ||| ((dx == -2 || dx == 2) && (dy == -1 || dy == 1))
}

/// The eight unit directions around a square.
pub open spec fn king_offset(dx: int, dy: int) -> bool {
    -1 <= dx <= 1 && -1 <= dy <= 1 && !(dx == 0 && dy == 0)
}

/// Knight rule: an L-shaped hop onto an on-board square that is open to the
/// mover, irrespective of intervening occupancy.
pub open spec fn knight_move(
    b: Seq<Option<Piece>>,
    px: int,
    py: int,
    c: Color,
    tx: int,
    ty: int,
) -> bool {
    knight_offset(tx - px, ty - py) && in_bounds(tx, ty) && square_open_to(b, tx, ty, c)
}

/// King rule: a single step in any of the eight directions onto an on-board
/// square that is open to the mover.
pub open spec fn king_move(
    b: Seq<Option<Piece>>,
    px: int,
    py: int,
    c: Color,
    tx: int,
    ty: int,
) -> bool {
    king_offset(tx - px, ty - py) && in_bounds(tx, ty) && square_open_to(b, tx, ty, c)
}

/// The directions a sliding piece of the given kind travels: diagonals for
/// the bishop, files and ranks for the rook, both for the queen.
pub open spec fn slide_dir(kind: PieceType, dx: int, dy: int) -> bool {
    match kind {
        PieceType::Bishop => dx != 0 && dy != 0 && king_offset(dx, dy),
        PieceType::Rook => (dx == 0 || dy == 0) && king_offset(dx, dy),
        PieceType::Queen => king_offset(dx, dy),
        _ => false,
    }
}

/// (tx, ty) lies exactly j steps out from (px, py) along direction (dx, dy).
pub open spec fn ray_hits(px: int, py: int, dx: int, dy: int, j: int, tx: int, ty: int) -> bool {
    tx == px + j * dx && ty == py + j * dy
}

/// The occupant j steps out from (px, py) along (dx, dy).
pub open spec fn ray_occupant(
    b: Seq<Option<Piece>>,
    px: int,
    py: int,
    dx: int,
    dy: int,
    j: int,
) -> Option<Piece> {
    piece_at(b, px + j * dx, py + j * dy)
}

/// Every square strictly closer than k steps along the ray is empty.
pub open spec fn ray_clear(
    b: Seq<Option<Piece>>,
    px: int,
    py: int,
    dx: int,
    dy: int,
    k: int,
) -> bool {
    forall|j: int| 1 <= j < k ==> #[trigger] ray_occupant(b, px, py, dx, dy, j) is None
}

/// (tx, ty) lies a positive number of steps out along (dx, dy).
pub open spec fn on_ray(px: int, py: int, dx: int, dy: int, tx: int, ty: int) -> bool {
    exists|j: int| j >= 1 && #[trigger] ray_hits(px, py, dx, dy, j, tx, ty)
}

/// Sliding rule along one direction: the target sits k >= 1 steps out, every
/// earlier square on the ray is empty, and the target is on board and open to
/// the mover.
pub open spec fn slide_move_along(
    b: Seq<Option<Piece>>,
    px: int,
    py: int,
    dx: int,
    dy: int,
    c: Color,
    tx: int,
    ty: int,
) -> bool {
    exists|k: int|
        k >= 1 && #[trigger] ray_hits(px, py, dx, dy, k, tx, ty) && in_bounds(tx, ty) && ray_clear(
            b,
            px,
            py,
            dx,
            dy,
            k,
        ) && square_open_to(b, tx, ty, c)
}

/// Sliding rule: some direction of the piece's kind reaches the target.
pub open spec fn slide_move(
    b: Seq<Option<Piece>>,
    px: int,
    py: int,
    c: Color,
    kind: PieceType,
    tx: int,
    ty: int,
) -> bool {
    exists|dx: int, dy: int|
        #[trigger] slide_dir(kind, dx, dy) && slide_move_along(b, px, py, dx, dy, c, tx, ty)
}

/// Destination (tx, ty) is pseudo-legal for the occupant of (px, py) on board
/// b; false when (px, py) is empty.
pub open spec fn move_allowed(b: Seq<Option<Piece>>, px: int, py: int, tx: int, ty: int) -> bool
    recommends
        in_bounds(px, py),
{
    match piece_at(b, px, py) {
        None => false,
        Some(p) => match p.piece_type {
            PieceType::Pawn => pawn_move(b, px, py, p.color, tx, ty),
            PieceType::Knight => knight_move(b, px, py, p.color, tx, ty),
            PieceType::King => king_move(b, px, py, p.color, tx, ty),
            _ => slide_move(b, px, py, p.color, p.piece_type, tx, ty),
        },
    }
}

/// A square j steps out along a unit direction, in bounds and with every
/// earlier ray square empty.
pub open spec fn ray_in_bounds(px: int, py: int, dx: int, dy: int, j: int) -> bool {
    in_bounds(px + j * dx, py + j * dy)
}

/// Multiplying by a factor drawn from {-1, 0, 1} is sign-selection: the three
/// linear readings of j * d, one per factor.
pub(crate) proof fn lemma_unit_scale(d: int, j: int)
    requires
        -1 <= d <= 1,
    ensures
        d == 0 ==> j * d == 0,
        d == 1 ==> j * d == j,
        d == -1 ==> j * d == -j,
{
    assert(d == 0 ==> j * d == 0) by (nonlinear_arith);
    assert(d == 1 ==> j * d == j) by (nonlinear_arith);
    assert(d == -1 ==> j * d == -j) by (nonlinear_arith);
}

/// Two distinct unit directions from one square never meet again: a square
/// reached by sliding along one is not on the ray of the other.
pub(crate) proof fn lemma_along_off_other(
    b: Seq<Option<Piece>>,
    c: Color,
    px: int,
    py: int,
    ux: int,
    uy: int,
    vx: int,
    vy: int,
    tx: int,
    ty: int,
)
    requires
        -1 <= ux <= 1,
        -1 <= uy <= 1,
        !(ux == 0 && uy == 0),
        -1 <= vx <= 1,
        -1 <= vy <= 1,
        !(vx == 0 && vy == 0),
        !(ux == vx && uy == vy),
        slide_move_along(b, px, py, ux, uy, c, tx, ty),
    ensures
        !on_ray(px, py, vx, vy, tx, ty),
{
    let j1 = choose|k: int|
        k >= 1 && #[trigger] ray_hits(px, py, ux, uy, k, tx, ty) && in_bounds(tx, ty) && ray_clear(
            b,
            px,
            py,
            ux,
            uy,
            k,
        ) && square_open_to(b, tx, ty, c);
    lemma_unit_scale(ux, j1);
    lemma_unit_scale(uy, j1);
    if on_ray(px, py, vx, vy, tx, ty) {
        let j2 = choose|j: int| j >= 1 && #[trigger] ray_hits(px, py, vx, vy, j, tx, ty);
        lemma_unit_scale(vx, j2);
        lemma_unit_scale(vy, j2);
        assert(false);
    }
}

/// The candidate (x, y) is on the board and open to a mover of color c.
pub open spec fn step_ok(b: Seq<Option<Piece>>, x: int, y: int, c: Color) -> bool {
    in_bounds(x, y) && square_open_to(b, x, y, c)
}

/// The candidate (x, y) is on the board and enemy-held.
pub open spec fn capture_ok(b: Seq<Option<Piece>>, x: int, y: int, c: Color) -> bool {
    in_bounds(x, y) && holds_enemy(b, x, y, c)
}

/// Pushing an element a duplicate-free sequence does not hold keeps it
/// duplicate-free.
proof fn lemma_push_keeps_no_duplicates<A>(s: Seq<A>, v: A)
    requires
        s.no_duplicates(),
        !s.contains(v),
    ensures
        s.push(v).no_duplicates(),
{
    assert forall|i: int, j: int|
        0 <= i < s.push(v).len() && 0 <= j < s.push(v).len() && i != j implies s.push(v)[i]
        != s.push(v)[j] by {
        if i < s.len() && j < s.len() {
            assert(s[i] == s.push(v)[i]);
        } else if i < s.len() {
            assert(s.contains(s[i]));
        } else if j < s.len() {
            assert(s.contains(s[j]));
        }
    }
}

/// Append (tx, ty) when it is on the board and open to color c: the shared
/// candidate rule for knight hops, king steps and forward pawn steps.
fn push_step(
    b: &[Option<Piece>; 64],
    moves: &mut Vec<(usize, usize)>,
    tx: isize,
    ty: isize,
    c: Color,
)
    ensures
        forall|m: (usize, usize)| #[trigger]
            final(moves)@.contains(m) <==> old(moves)@.contains(m) || (step_ok(
                b@,
                tx as int,
                ty as int,
                c,
            ) && m == ((tx as usize, ty as usize))),
        old(moves)@.no_duplicates() && !old(moves)@.contains(((tx as usize, ty as usize)))
            ==> final(moves)@.no_duplicates(),
        !step_ok(b@, tx as int, ty as int, c) ==> final(moves)@ == old(moves)@,
{
    if tx >= 0 && ty >= 0 && tx <= 7 && ty <= 7 {
        let x = tx as usize;
        let y = ty as usize;
        match b[8 * x + y] {
            None => moves.push((x, y)),
            Some(p) => if p.color != c {
                moves.push((x, y));
            },
        }
    }
    proof {
        if old(moves)@.no_duplicates() && !old(moves)@.contains(((tx as usize, ty as usize))) {
            lemma_push_keeps_no_duplicates(old(moves)@, ((tx as usize, ty as usize)));
        }
    }
}

/// Append (tx, ty) only when it is on the board and enemy-held: the candidate
/// rule for diagonal pawn captures.
fn push_capture(
    b: &[Option<Piece>; 64],
    moves: &mut Vec<(usize, usize)>,
    tx: isize,
    ty: isize,
    c: Color,
)
    ensures
        forall|m: (usize, usize)| #[trigger]
            final(moves)@.contains(m) <==> old(moves)@.contains(m) || (capture_ok(
                b@,
                tx as int,
                ty as int,
                c,
            ) && m == ((tx as usize, ty as usize))),
        old(moves)@.no_duplicates() && !old(moves)@.contains(((tx as usize, ty as usize)))
            ==> final(moves)@.no_duplicates(),
        !capture_ok(b@, tx as int, ty as int, c) ==> final(moves)@ == old(moves)@,
{
    if tx >= 0 && ty >= 0 && tx <= 7 && ty <= 7 {
        let x = tx as usize;
        let y = ty as usize;
        match b[8 * x + y] {
            None => (),
            Some(p) => if p.color != c {
                moves.push((x, y));
            },
        }
    }
    proof {
        if old(moves)@.no_duplicates() && !old(moves)@.contains(((tx as usize, ty as usize))) {
            lemma_push_keeps_no_duplicates(old(moves)@, ((tx as usize, ty as usize)));
        }
    }
}

/// All pseudo-legal knight hops from (px, py), one candidate per offset.
fn knight_moves(b: &[Option<Piece>; 64], px: usize, py: usize, c: Color) -> (moves: Vec<
    (usize, usize),
>)
    requires
        px <= 7,
        py <= 7,
    ensures
        moves@.no_duplicates(),
        forall|m: (usize, usize)| #[trigger]
            moves@.contains(m) <==> knight_move(b@, px as int, py as int, c, m.0 as int, m.1 as int),
{
    let mut moves: Vec<(usize, usize)> = Vec::new();
    let x = px as isize;
    let y = py as isize;
    push_step(b, &mut moves, x - 1, y - 2, c);
    push_step(b, &mut moves, x + 1, y - 2, c);
    push_step(b, &mut moves, x - 2, y - 1, c);
    push_step(b, &mut moves, x + 2, y - 1, c);
    push_step(b, &mut moves, x - 2, y + 1, c);
    push_step(b, &mut moves, x + 2, y + 1, c);
    push_step(b, &mut moves, x - 1, y + 2, c);
    push_step(b, &mut moves, x + 1, y + 2, c);
    moves
}

/// All pseudo-legal king steps from (px, py), one candidate per direction.
fn king_moves(b: &[Option<Piece>; 64], px: usize, py: usize, c: Color) -> (moves: Vec<
    (usize, usize),
>)
    requires
        px <= 7,
        py <= 7,
    ensures
        moves@.no_duplicates(),
        forall|m: (usize, usize)| #[trigger]
            moves@.contains(m) <==> king_move(b@, px as int, py as int, c, m.0 as int, m.1 as int),
{
    let mut moves: Vec<(usize, usize)> = Vec::new();
    let x = px as isize;
    let y = py as isize;
    push_step(b, &mut moves, x - 1, y - 1, c);
    push_step(b, &mut moves, x, y - 1, c);
    push_step(b, &mut moves, x + 1, y - 1, c);
    push_step(b, &mut moves, x - 1, y, c);
    push_step(b, &mut moves, x + 1, y, c);
    push_step(b, &mut moves, x - 1, y + 1, c);
    push_step(b, &mut moves, x, y + 1, c);
    push_step(b, &mut moves, x + 1, y + 1, c);
    moves
}

/// All pseudo-legal pawn moves from (px, py): the forward single step, the
/// double step from the home rank, and the two diagonal captures.
fn pawn_moves(b: &[Option<Piece>; 64], px: usize, py: usize, c: Color) -> (moves: Vec<
    (usize, usize),
>)
    requires
        px <= 7,
        py <= 7,
    ensures
        moves@.no_duplicates(),
        forall|m: (usize, usize)| #[trigger]
            moves@.contains(m) <==> pawn_move(b@, px as int, py as int, c, m.0 as int, m.1 as int),
{
    let mut moves: Vec<(usize, usize)> = Vec::new();
    let x = px as isize;
    let y = py as isize;
    let dir: isize = if c == Color::White {
        -1
    } else {
        1
    };
    push_step(b, &mut moves, x, y + dir, c);
    if (py == 6 && c == Color::White) || (py == 1 && c == Color::Black) {
        push_step(b, &mut moves, x, y + 2 * dir, c);
    }
    push_capture(b, &mut moves, x - 1, y + dir, c);
    push_capture(b, &mut moves, x + 1, y + dir, c);
    moves
}

/// Walk outward from (px, py) along unit direction (dx, dy), appending each
/// empty square and, when the walk meets a piece, that square too if it is
/// enemy-held; an own-color piece blocks without being appended.
fn slide_ray(
    b: &[Option<Piece>; 64],
    moves: &mut Vec<(usize, usize)>,
    px: usize,
    py: usize,
    dx: isize,
    dy: isize,
    c: Color,
)
    requires
        px <= 7,
        py <= 7,
        -1 <= dx <= 1,
        -1 <= dy <= 1,
        !(dx == 0 && dy == 0),
        old(moves)@.no_duplicates(),
        forall|m: (usize, usize)| #[trigger]
            old(moves)@.contains(m) ==> !on_ray(
                px as int,
                py as int,
                dx as int,
                dy as int,
                m.0 as int,
                m.1 as int,
            ),
    ensures
        final(moves)@.no_duplicates(),
        forall|m: (usize, usize)| #[trigger]
            final(moves)@.contains(m) <==> old(moves)@.contains(m) || slide_move_along(
                b@,
                px as int,
                py as int,
                dx as int,
                dy as int,
                c,
                m.0 as int,
                m.1 as int,
            ),
{
    let ghost gpx = px as int;
    let ghost gpy = py as int;
    let ghost gdx = dx as int;
    let ghost gdy = dy as int;
    let mut k: isize = 1;
    let mut tx: isize = px as isize + dx;
    let mut ty: isize = py as isize + dy;
    loop
        invariant_except_break
            1 <= k <= 8,
            tx == gpx + k * gdx,
            ty == gpy + k * gdy,
            ray_clear(b@, gpx, gpy, gdx, gdy, k as int),
            forall|j: int| 1 <= j < k ==> #[trigger] ray_in_bounds(gpx, gpy, gdx, gdy, j),
            moves@.no_duplicates(),
            forall|m: (usize, usize)| #[trigger]
                moves@.contains(m) <==> old(moves)@.contains(m) || (exists|j: int|
                    1 <= j < k && #[trigger] ray_hits(gpx, gpy, gdx, gdy, j, m.0 as int, m.1 as int)),
        invariant
            px <= 7,
            py <= 7,
            -1 <= dx <= 1,
            -1 <= dy <= 1,
            !(dx == 0 && dy == 0),
            gpx == px as int,
            gpy == py as int,
            gdx == dx as int,
            gdy == dy as int,
            old(moves)@.no_duplicates(),
            forall|m: (usize, usize)| #[trigger]
                old(moves)@.contains(m) ==> !on_ray(gpx, gpy, gdx, gdy, m.0 as int, m.1 as int),
        ensures
            moves@.no_duplicates(),
            forall|m: (usize, usize)| #[trigger]
                moves@.contains(m) <==> old(moves)@.contains(m) || slide_move_along(
                    b@,
                    gpx,
                    gpy,
                    gdx,
                    gdy,
                    c,
                    m.0 as int,
                    m.1 as int,
                ),
        decreases 8 - k,
    {
        if tx < 0 || ty < 0 || tx > 7 || ty > 7 {
            proof {
                assert forall|j: int| j >= k implies !ray_in_bounds(gpx, gpy, gdx, gdy, j) by {
                    lemma_unit_scale(gdx, j);
                    lemma_unit_scale(gdx, k as int);
                    lemma_unit_scale(gdy, j);
                    lemma_unit_scale(gdy, k as int);
                }
                assert forall|m: (usize, usize)| #[trigger]
                    moves@.contains(m) <==> old(moves)@.contains(m) || slide_move_along(
                    b@,
                    gpx,
                    gpy,
                    gdx,
                    gdy,
                    c,
                    m.0 as int,
                    m.1 as int,
                ) by {
                    let mx = m.0 as int;
                    let my = m.1 as int;
                    if moves@.contains(m) && !old(moves)@.contains(m) {
                        let j = choose|j: int|
                            1 <= j < k && #[trigger] ray_hits(gpx, gpy, gdx, gdy, j, mx, my);
                        assert(ray_occupant(b@, gpx, gpy, gdx, gdy, j) is None);
                        assert(ray_in_bounds(gpx, gpy, gdx, gdy, j));
                        assert(slide_move_along(b@, gpx, gpy, gdx, gdy, c, mx, my));
                    }
                    if slide_move_along(b@, gpx, gpy, gdx, gdy, c, mx, my) {
                        let j = choose|j: int|
                            j >= 1 && #[trigger] ray_hits(gpx, gpy, gdx, gdy, j, mx, my)
                                && in_bounds(mx, my) && ray_clear(b@, gpx, gpy, gdx, gdy, j)
                                && square_open_to(b@, mx, my, c);
                        assert(ray_in_bounds(gpx, gpy, gdx, gdy, j));
                        assert(1 <= j < k);
                    }
                }
            }
            break ;
        }
        let sx = tx as usize;
        let sy = ty as usize;
        proof {
            assert(!moves@.contains((sx, sy))) by {
                if moves@.contains((sx, sy)) && !old(moves)@.contains((sx, sy)) {
                    let j = choose|j: int|
                        1 <= j < k && #[trigger] ray_hits(gpx, gpy, gdx, gdy, j, sx as int, sy as int);
                    lemma_unit_scale(gdx, j);
                    lemma_unit_scale(gdx, k as int);
                    lemma_unit_scale(gdy, j);
                    lemma_unit_scale(gdy, k as int);
                }
                if old(moves)@.contains((sx, sy)) {
                    assert(ray_hits(gpx, gpy, gdx, gdy, k as int, sx as int, sy as int));
                    assert(on_ray(gpx, gpy, gdx, gdy, sx as int, sy as int));
                }
            }
        }
        let ghost pre = moves@;
        match b[8 * sx + sy] {
            None => {
                moves.push((sx, sy));
                proof {
                    lemma_push_keeps_no_duplicates(pre, (sx, sy));
                    assert(ray_hits(gpx, gpy, gdx, gdy, k as int, sx as int, sy as int));
                    assert forall|m: (usize, usize)| #[trigger]
                        moves@.contains(m) <==> old(moves)@.contains(m) || (exists|j: int|
                        1 <= j < k as int + 1 && #[trigger] ray_hits(
                            gpx,
                            gpy,
                            gdx,
                            gdy,
                            j,
                            m.0 as int,
                            m.1 as int,
                        )) by {
                        if moves@.contains(m) && !pre.contains(m) {
                            assert(m == ((sx, sy)));
                            assert(ray_hits(gpx, gpy, gdx, gdy, k as int, m.0 as int, m.1 as int));
                        }
                        if pre.contains(m) && !old(moves)@.contains(m) {
                            let j = choose|j: int|
                                1 <= j < k && #[trigger] ray_hits(
                                    gpx,
                                    gpy,
                                    gdx,
                                    gdy,
                                    j,
                                    m.0 as int,
                                    m.1 as int,
                                );
                            assert(1 <= j < k as int + 1);
                        }
                        if !moves@.contains(m) && (exists|j: int|
                            1 <= j < k as int + 1 && #[trigger] ray_hits(
                                gpx,
                                gpy,
                                gdx,
                                gdy,
                                j,
                                m.0 as int,
                                m.1 as int,
                            )) {
                            let j = choose|j: int|
                                1 <= j < k as int + 1 && #[trigger] ray_hits(
                                    gpx,
                                    gpy,
                                    gdx,
                                    gdy,
                                    j,
                                    m.0 as int,
                                    m.1 as int,
                                );
                            if j < k {
                                assert(pre.contains(m));
                            } else {
                                assert(m.0 == sx && m.1 == sy);
                            }
                        }
                    }
                }
            },
            Some(p) => {
                if p.color != c {
                    moves.push((sx, sy));
                    proof {
                        lemma_push_keeps_no_duplicates(pre, (sx, sy));
                    }
                }
                proof {
                    assert(ray_occupant(b@, gpx, gpy, gdx, gdy, k as int) == Some(p));
                    assert forall|m: (usize, usize)| #[trigger]
                        moves@.contains(m) <==> old(moves)@.contains(m) || slide_move_along(
                        b@,
                        gpx,
                        gpy,
                        gdx,
                        gdy,
                        c,
                        m.0 as int,
                        m.1 as int,
                    ) by {
                        let mx = m.0 as int;
                        let my = m.1 as int;
                        if moves@.contains(m) && !old(moves)@.contains(m) {
                            if !pre.contains(m) || m == ((sx, sy)) {
                                assert(m == ((sx, sy)));
                                assert(ray_hits(gpx, gpy, gdx, gdy, k as int, mx, my));
                                assert(slide_move_along(b@, gpx, gpy, gdx, gdy, c, mx, my));
                            } else {
                                let j = choose|j: int|
                                    1 <= j < k && #[trigger] ray_hits(gpx, gpy, gdx, gdy, j, mx, my);
                                assert(ray_occupant(b@, gpx, gpy, gdx, gdy, j) is None);
                                assert(ray_in_bounds(gpx, gpy, gdx, gdy, j));
                                assert(slide_move_along(b@, gpx, gpy, gdx, gdy, c, mx, my));
                            }
                        }
                        if slide_move_along(b@, gpx, gpy, gdx, gdy, c, mx, my) {
                            let j = choose|j: int|
                                j >= 1 && #[trigger] ray_hits(gpx, gpy, gdx, gdy, j, mx, my)
                                    && in_bounds(mx, my) && ray_clear(b@, gpx, gpy, gdx, gdy, j)
                                    && square_open_to(b@, mx, my, c);
                            lemma_unit_scale(gdx, j);
                            lemma_unit_scale(gdx, k as int);
                            lemma_unit_scale(gdy, j);
                            lemma_unit_scale(gdy, k as int);
                            if j > k {
                                assert(ray_occupant(b@, gpx, gpy, gdx, gdy, k as int) is None);
                            }
                        }
                    }
                }
                break ;
            },
        }
        proof {
            assert(k < 8) by {
                lemma_unit_scale(gdx, k as int);
                lemma_unit_scale(gdy, k as int);
            }
            lemma_unit_scale(gdx, k as int);
            lemma_unit_scale(gdy, k as int);
            lemma_unit_scale(gdx, k as int + 1);
            lemma_unit_scale(gdy, k as int + 1);
        }
        k = k + 1;
        tx = tx + dx;
        ty = ty + dy;
    }
}

/// All pseudo-legal bishop slides from (px, py): the four diagonal rays.
fn bishop_moves(b: &[Option<Piece>; 64], px: usize, py: usize, c: Color) -> (moves: Vec<
    (usize, usize),
>)
    requires
        px <= 7,
        py <= 7,
    ensures
        moves@.no_duplicates(),
        forall|m: (usize, usize)| #[trigger]
            moves@.contains(m) <==> slide_move(
                b@,
                px as int,
                py as int,
                c,
                PieceType::Bishop,
                m.0 as int,
                m.1 as int,
            ),
{
    let ghost gx = px as int;
    let ghost gy = py as int;
    let mut moves: Vec<(usize, usize)> = Vec::new();
    slide_ray(b, &mut moves, px, py, -1, -1, c);
    proof {
        assert forall|m: (usize, usize)| #[trigger]
            moves@.contains(m) implies !on_ray(gx, gy, 1, -1, m.0 as int, m.1 as int) by {
            if slide_move_along(b@, gx, gy, -1, -1, c, m.0 as int, m.1 as int) {
                lemma_along_off_other(b@, c, gx, gy, -1, -1, 1, -1, m.0 as int, m.1 as int);
            }
        }
    }
    slide_ray(b, &mut moves, px, py, 1, -1, c);
    proof {
        assert forall|m: (usize, usize)| #[trigger]
            moves@.contains(m) implies !on_ray(gx, gy, -1, 1, m.0 as int, m.1 as int) by {
            if slide_move_along(b@, gx, gy, -1, -1, c, m.0 as int, m.1 as int) {
                lemma_along_off_other(b@, c, gx, gy, -1, -1, -1, 1, m.0 as int, m.1 as int);
            }
            if slide_move_along(b@, gx, gy, 1, -1, c, m.0 as int, m.1 as int) {
                lemma_along_off_other(b@, c, gx, gy, 1, -1, -1, 1, m.0 as int, m.1 as int);
            }
        }
    }
    slide_ray(b, &mut moves, px, py, -1, 1, c);
    proof {
        assert forall|m: (usize, usize)| #[trigger]
            moves@.contains(m) implies !on_ray(gx, gy, 1, 1, m.0 as int, m.1 as int) by {
            if slide_move_along(b@, gx, gy, -1, -1, c, m.0 as int, m.1 as int) {
                lemma_along_off_other(b@, c, gx, gy, -1, -1, 1, 1, m.0 as int, m.1 as int);
            }
            if slide_move_along(b@, gx, gy, 1, -1, c, m.0 as int, m.1 as int) {
                lemma_along_off_other(b@, c, gx, gy, 1, -1, 1, 1, m.0 as int, m.1 as int);
            }
            if slide_move_along(b@, gx, gy, -1, 1, c, m.0 as int, m.1 as int) {
                lemma_along_off_other(b@, c, gx, gy, -1, 1, 1, 1, m.0 as int, m.1 as int);
            }
        }
    }
    slide_ray(b, &mut moves, px, py, 1, 1, c);
    proof {
        assert(slide_dir(PieceType::Bishop, -1, -1));
        assert(slide_dir(PieceType::Bishop, 1, -1));
        assert(slide_dir(PieceType::Bishop, -1, 1));
        assert(slide_dir(PieceType::Bishop, 1, 1));
        assert forall|m: (usize, usize)| #[trigger]
            moves@.contains(m) <==> slide_move(
            b@,
            gx,
            gy,
            c,
            PieceType::Bishop,
            m.0 as int,
            m.1 as int,
        ) by {
            if slide_move(b@, gx, gy, c, PieceType::Bishop, m.0 as int, m.1 as int) {
                let (dx, dy) = choose|dx: int, dy: int|
                    #[trigger] slide_dir(PieceType::Bishop, dx, dy) && slide_move_along(
                    b@,
                    gx,
                    gy,
                    dx,
                    dy,
                    c,
                    m.0 as int,
                    m.1 as int,
                );
            }
        }
    }
    moves
}

/// All pseudo-legal rook slides from (px, py): the four orthogonal rays.
fn rook_moves(b: &[Option<Piece>; 64], px: usize, py: usize, c: Color) -> (moves: Vec<
    (usize, usize),
>)
    requires
        px <= 7,
        py <= 7,
    ensures
        moves@.no_duplicates(),
        forall|m: (usize, usize)| #[trigger]
            moves@.contains(m) <==> slide_move(
                b@,
                px as int,
                py as int,
                c,
                PieceType::Rook,
                m.0 as int,
                m.1 as int,
            ),
{
    let ghost gx = px as int;
    let ghost gy = py as int;
    let mut moves: Vec<(usize, usize)> = Vec::new();
    slide_ray(b, &mut moves, px, py, 0, -1, c);
    proof {
        assert forall|m: (usize, usize)| #[trigger]
            moves@.contains(m) implies !on_ray(gx, gy, -1, 0, m.0 as int, m.1 as int) by {
            if slide_move_along(b@, gx, gy, 0, -1, c, m.0 as int, m.1 as int) {
                lemma_along_off_other(b@, c, gx, gy, 0, -1, -1, 0, m.0 as int, m.1 as int);
            }
        }
    }
    slide_ray(b, &mut moves, px, py, -1, 0, c);
    proof {
        assert forall|m: (usize, usize)| #[trigger]
            moves@.contains(m) implies !on_ray(gx, gy, 1, 0, m.0 as int, m.1 as int) by {
            if slide_move_along(b@, gx, gy, 0, -1, c, m.0 as int, m.1 as int) {
                lemma_along_off_other(b@, c, gx, gy, 0, -1, 1, 0, m.0 as int, m.1 as int);
            }
            if slide_move_along(b@, gx, gy, -1, 0, c, m.0 as int, m.1 as int) {
                lemma_along_off_other(b@, c, gx, gy, -1, 0, 1, 0, m.0 as int, m.1 as int);
            }
        }
    }
    slide_ray(b, &mut moves, px, py, 1, 0, c);
    proof {
        assert forall|m: (usize, usize)| #[trigger]
            moves@.contains(m) implies !on_ray(gx, gy, 0, 1, m.0 as int, m.1 as int) by {
            if slide_move_along(b@, gx, gy, 0, -1, c, m.0 as int, m.1 as int) {
                lemma_along_off_other(b@, c, gx, gy, 0, -1, 0, 1, m.0 as int, m.1 as int);
            }
            if slide_move_along(b@, gx, gy, -1, 0, c, m.0 as int, m.1 as int) {
                lemma_along_off_other(b@, c, gx, gy, -1, 0, 0, 1, m.0 as int, m.1 as int);
            }
            if slide_move_along(b@, gx, gy, 1, 0, c, m.0 as int, m.1 as int) {
                lemma_along_off_other(b@, c, gx, gy, 1, 0, 0, 1, m.0 as int, m.1 as int);
            }
        }
    }
    slide_ray(b, &mut moves, px, py, 0, 1, c);
    proof {
        assert(slide_dir(PieceType::Rook, 0, -1));
        assert(slide_dir(PieceType::Rook, -1, 0));
        assert(slide_dir(PieceType::Rook, 1, 0));
        assert(slide_dir(PieceType::Rook, 0, 1));
        assert forall|m: (usize, usize)| #[trigger]
            moves@.contains(m) <==> slide_move(
            b@,
            gx,
            gy,
            c,
            PieceType::Rook,
            m.0 as int,
            m.1 as int,
        ) by {
            if slide_move(b@, gx, gy, c, PieceType::Rook, m.0 as int, m.1 as int) {
                let (dx, dy) = choose|dx: int, dy: int|
                    #[trigger] slide_dir(PieceType::Rook, dx, dy) && slide_move_along(
                    b@,
                    gx,
                    gy,
                    dx,
                    dy,
                    c,
                    m.0 as int,
                    m.1 as int,
                );
            }
        }
    }
    moves
}

/// All pseudo-legal queen slides from (px, py): all eight rays.
fn queen_moves(b: &[Option<Piece>; 64], px: usize, py: usize, c: Color) -> (moves: Vec<
    (usize, usize),
>)
    requires
        px <= 7,
        py <= 7,
    ensures
        moves@.no_duplicates(),
        forall|m: (usize, usize)| #[trigger]
            moves@.contains(m) <==> slide_move(
                b@,
                px as int,
                py as int,
                c,
                PieceType::Queen,
                m.0 as int,
                m.1 as int,
            ),
{
    let ghost gx = px as int;
    let ghost gy = py as int;
    let mut moves: Vec<(usize, usize)> = Vec::new();
    slide_ray(b, &mut moves, px, py, -1, -1, c);
    proof {
        assert forall|m: (usize, usize)| #[trigger]
            moves@.contains(m) implies !on_ray(gx, gy, 1, -1, m.0 as int, m.1 as int) by {
            if slide_move_along(b@, gx, gy, -1, -1, c, m.0 as int, m.1 as int) {
                lemma_along_off_other(b@, c, gx, gy, -1, -1, 1, -1, m.0 as int, m.1 as int);
            }
        }
    }
    slide_ray(b, &mut moves, px, py, 1, -1, c);
    proof {
        assert forall|m: (usize, usize)| #[trigger]
            moves@.contains(m) implies !on_ray(gx, gy, -1, 1, m.0 as int, m.1 as int) by {
            if slide_move_along(b@, gx, gy, -1, -1, c, m.0 as int, m.1 as int) {
                lemma_along_off_other(b@, c, gx, gy, -1, -1, -1, 1, m.0 as int, m.1 as int);
            }
            if slide_move_along(b@, gx, gy, 1, -1, c, m.0 as int, m.1 as int) {
                lemma_along_off_other(b@, c, gx, gy, 1, -1, -1, 1, m.0 as int, m.1 as int);
            }
        }
    }
    slide_ray(b, &mut moves, px, py, -1, 1, c);
    proof {
        assert forall|m: (usize, usize)| #[trigger]
            moves@.contains(m) implies !on_ray(gx, gy, 1, 1, m.0 as int, m.1 as int) by {
            if slide_move_along(b@, gx, gy, -1, -1, c, m.0 as int, m.1 as int) {
                lemma_along_off_other(b@, c, gx, gy, -1, -1, 1, 1, m.0 as int, m.1 as int);
            }
            if slide_move_along(b@, gx, gy, 1, -1, c, m.0 as int, m.1 as int) {
                lemma_along_off_other(b@, c, gx, gy, 1, -1, 1, 1, m.0 as int, m.1 as int);
            }
            if slide_move_along(b@, gx, gy, -1, 1, c, m.0 as int, m.1 as int) {
                lemma_along_off_other(b@, c, gx, gy, -1, 1, 1, 1, m.0 as int, m.1 as int);
            }
        }
    }
    slide_ray(b, &mut moves, px, py, 1, 1, c);
    proof {
        assert forall|m: (usize, usize)| #[trigger]
            moves@.contains(m) implies !on_ray(gx, gy, 0, -1, m.0 as int, m.1 as int) by {
            if slide_move_along(b@, gx, gy, -1, -1, c, m.0 as int, m.1 as int) {
                lemma_along_off_other(b@, c, gx, gy, -1, -1, 0, -1, m.0 as int, m.1 as int);
            }
            if slide_move_along(b@, gx, gy, 1, -1, c, m.0 as int, m.1 as int) {
                lemma_along_off_other(b@, c, gx, gy, 1, -1, 0, -1, m.0 as int, m.1 as int);
            }
            if slide_move_along(b@, gx, gy, -1, 1, c, m.0 as int, m.1 as int) {
                lemma_along_off_other(b@, c, gx, gy, -1, 1, 0, -1, m.0 as int, m.1 as int);
            }
            if slide_move_along(b@, gx, gy, 1, 1, c, m.0 as int, m.1 as int) {
                lemma_along_off_other(b@, c, gx, gy, 1, 1, 0, -1, m.0 as int, m.1 as int);
            }
        }
    }
    slide_ray(b, &mut moves, px, py, 0, -1, c);
    proof {
        assert forall|m: (usize, usize)| #[trigger]
            moves@.contains(m) implies !on_ray(gx, gy, -1, 0, m.0 as int, m.1 as int) by {
            if slide_move_along(b@, gx, gy, -1, -1, c, m.0 as int, m.1 as int) {
                lemma_along_off_other(b@, c, gx, gy, -1, -1, -1, 0, m.0 as int, m.1 as int);
            }
            if slide_move_along(b@, gx, gy, 1, -1, c, m.0 as int, m.1 as int) {
                lemma_along_off_other(b@, c, gx, gy, 1, -1, -1, 0, m.0 as int, m.1 as int);
            }
            if slide_move_along(b@, gx, gy, -1, 1, c, m.0 as int, m.1 as int) {
                lemma_along_off_other(b@, c, gx, gy, -1, 1, -1, 0, m.0 as int, m.1 as int);
            }
            if slide_move_along(b@, gx, gy, 1, 1, c, m.0 as int, m.1 as int) {
                lemma_along_off_other(b@, c, gx, gy, 1, 1, -1, 0, m.0 as int, m.1 as int);
            }
            if slide_move_along(b@, gx, gy, 0, -1, c, m.0 as int, m.1 as int) {
                lemma_along_off_other(b@, c, gx, gy, 0, -1, -1, 0, m.0 as int, m.1 as int);
            }
        }
    }
    slide_ray(b, &mut moves, px, py, -1, 0, c);
    proof {
        assert forall|m: (usize, usize)| #[trigger]
            moves@.contains(m) implies !on_ray(gx, gy, 1, 0, m.0 as int, m.1 as int) by {
            if slide_move_along(b@, gx, gy, -1, -1, c, m.0 as int, m.1 as int) {
                lemma_along_off_other(b@, c, gx, gy, -1, -1, 1, 0, m.0 as int, m.1 as int);
            }
            if slide_move_along(b@, gx, gy, 1, -1, c, m.0 as int, m.1 as int) {
                lemma_along_off_other(b@, c, gx, gy, 1, -1, 1, 0, m.0 as int, m.1 as int);
            }
            if slide_move_along(b@, gx, gy, -1, 1, c, m.0 as int, m.1 as int) {
                lemma_along_off_other(b@, c, gx, gy, -1, 1, 1, 0, m.0 as int, m.1 as int);
            }
            if slide_move_along(b@, gx, gy, 1, 1, c, m.0 as int, m.1 as int) {
                lemma_along_off_other(b@, c, gx, gy, 1, 1, 1, 0, m.0 as int, m.1 as int);
            }
            if slide_move_along(b@, gx, gy, 0, -1, c, m.0 as int, m.1 as int) {
                lemma_along_off_other(b@, c, gx, gy, 0, -1, 1, 0, m.0 as int, m.1 as int);
            }
            if slide_move_along(b@, gx, gy, -1, 0, c, m.0 as int, m.1 as int) {
                lemma_along_off_other(b@, c, gx, gy, -1, 0, 1, 0, m.0 as int, m.1 as int);
            }
        }
    }
    slide_ray(b, &mut moves, px, py, 1, 0, c);
    proof {
        assert forall|m: (usize, usize)| #[trigger]
            moves@.contains(m) implies !on_ray(gx, gy, 0, 1, m.0 as int, m.1 as int) by {
            if slide_move_along(b@, gx, gy, -1, -1, c, m.0 as int, m.1 as int) {
                lemma_along_off_other(b@, c, gx, gy, -1, -1, 0, 1, m.0 as int, m.1 as int);
            }
            if slide_move_along(b@, gx, gy, 1, -1, c, m.0 as int, m.1 as int) {
                lemma_along_off_other(b@, c, gx, gy, 1, -1, 0, 1, m.0 as int, m.1 as int);
            }
            if slide_move_along(b@, gx, gy, -1, 1, c, m.0 as int, m.1 as int) {
                lemma_along_off_other(b@, c, gx, gy, -1, 1, 0, 1, m.0 as int, m.1 as int);
            }
            if slide_move_along(b@, gx, gy, 1, 1, c, m.0 as int, m.1 as int) {
                lemma_along_off_other(b@, c, gx, gy, 1, 1, 0, 1, m.0 as int, m.1 as int);
            }
            if slide_move_along(b@, gx, gy, 0, -1, c, m.0 as int, m.1 as int) {
                lemma_along_off_other(b@, c, gx, gy, 0, -1, 0, 1, m.0 as int, m.1 as int);
            }
            if slide_move_along(b@, gx, gy, -1, 0, c, m.0 as int, m.1 as int) {
                lemma_along_off_other(b@, c, gx, gy, -1, 0, 0, 1, m.0 as int, m.1 as int);
            }
            if slide_move_along(b@, gx, gy, 1, 0, c, m.0 as int, m.1 as int) {
                lemma_along_off_other(b@, c, gx, gy, 1, 0, 0, 1, m.0 as int, m.1 as int);
            }
        }
    }
    slide_ray(b, &mut moves, px, py, 0, 1, c);
    proof {
        assert(slide_dir(PieceType::Queen, -1, -1));
        assert(slide_dir(PieceType::Queen, 1, -1));
        assert(slide_dir(PieceType::Queen, -1, 1));
        assert(slide_dir(PieceType::Queen, 1, 1));
        assert(slide_dir(PieceType::Queen, 0, -1));
        assert(slide_dir(PieceType::Queen, -1, 0));
        assert(slide_dir(PieceType::Queen, 1, 0));
        assert(slide_dir(PieceType::Queen, 0, 1));
        assert forall|m: (usize, usize)| #[trigger]
            moves@.contains(m) <==> slide_move(
            b@,
            gx,
            gy,
            c,
            PieceType::Queen,
            m.0 as int,
            m.1 as int,
        ) by {
            if slide_move(b@, gx, gy, c, PieceType::Queen, m.0 as int, m.1 as int) {
                let (dx, dy) = choose|dx: int, dy: int|
                    #[trigger] slide_dir(PieceType::Queen, dx, dy) && slide_move_along(
                    b@,
                    gx,
                    gy,
                    dx,
                    dy,
                    c,
                    m.0 as int,
                    m.1 as int,
                );
            }
        }
    }
    moves
}

impl Game {
    /// All pseudo-legal destinations for the occupant of (pos_x, pos_y): a
    /// duplicate-free list holding exactly the squares that `move_allowed`
    /// admits, or `EmptySquare` when the named square holds no piece.
    pub fn get_possible_moves(&self, pos_x: usize, pos_y: usize) -> (r: Result<
        Vec<(usize, usize)>,
        EmptySquare,
    >)
        requires
            pos_x <= 7,
            pos_y <= 7,
        ensures
            r is Ok <==> piece_at(self@, pos_x as int, pos_y as int) is Some,
            r matches Ok(moves) ==> {
                &&& moves@.no_duplicates()
                &&& forall|m: (usize, usize)| #[trigger]
                    moves@.contains(m) <==> move_allowed(
                        self@,
                        pos_x as int,
                        pos_y as int,
                        m.0 as int,
                        m.1 as int,
                    )
                &&& forall|i: int|
                    0 <= i < moves@.len() ==> (#[trigger] moves@[i]).0 <= 7 && moves@[i].1 <= 7
                &&& forall|m: (usize, usize)| #[trigger]
                    moves@.contains(m) && piece_at(self@, m.0 as int, m.1 as int) is Some
                        ==> piece_at(self@, m.0 as int, m.1 as int).unwrap().color != piece_at(
                        self@,
                        pos_x as int,
                        pos_y as int,
                    ).unwrap().color
            },
    {
        let b = self.board_array();
        let piece = match b[8 * pos_x + pos_y] {
            None => { return Err(EmptySquare) },
            Some(p) => p,
        };
        let moves = match piece.piece_type {
            PieceType::Pawn => pawn_moves(b, pos_x, pos_y, piece.color),
            PieceType::Knight => knight_moves(b, pos_x, pos_y, piece.color),
            PieceType::King => king_moves(b, pos_x, pos_y, piece.color),
            PieceType::Bishop => bishop_moves(b, pos_x, pos_y, piece.color),
            PieceType::Rook => rook_moves(b, pos_x, pos_y, piece.color),
            PieceType::Queen => queen_moves(b, pos_x, pos_y, piece.color),
        };
        proof {
            assert forall|i: int|
                0 <= i < moves@.len() implies (#[trigger] moves@[i]).0 <= 7 && moves@[i].1
                <= 7 by {
                assert(moves@.contains(moves@[i]));
                crate::laws::lemma_moves_in_bounds(
                    self@,
                    pos_x as int,
                    pos_y as int,
                    moves@[i].0 as int,
                    moves@[i].1 as int,
                );
            }
            assert forall|m: (usize, usize)| #[trigger]
                moves@.contains(m) && piece_at(self@, m.0 as int, m.1 as int) is Some implies
                piece_at(self@, m.0 as int, m.1 as int).unwrap().color != piece_at(
                self@,
                pos_x as int,
                pos_y as int,
            ).unwrap().color by {
                crate::laws::lemma_no_self_capture(
                    self@,
                    pos_x as int,
                    pos_y as int,
                    m.0 as int,
                    m.1 as int,
                );
            }
        }
        Ok(moves)
    }
}

} // verus!
