//! General properties of move generation, stated and proved once and for all:
//! determinism, bounds closure, no self-capture, sliding-ray blocking, and the
//! pawn double-step gate.

use vstd::prelude::*;

use crate::board::Color;
use crate::board::Piece;
use crate::board::PieceType;
use crate::board::in_bounds;
use crate::board::piece_at;
use crate::moves::lemma_along_off_other;
use crate::moves::lemma_unit_scale;
use crate::moves::move_allowed;
use crate::moves::on_ray;
use crate::moves::ray_clear;
use crate::moves::ray_hits;
use crate::moves::ray_occupant;
use crate::moves::slide_dir;
use crate::moves::slide_move_along;
use crate::moves::square_open_to;

verus! {

/// Determinism: any two results that each hold exactly the pseudo-legal
/// destinations of (px, py) on board b are equal as sets, so repeating a
/// query can never change the answer.
pub proof fn lemma_moves_deterministic(
    b: Seq<Option<Piece>>,
    px: int,
    py: int,
    m1: Seq<(usize, usize)>,
    m2: Seq<(usize, usize)>,
)
    requires
        forall|m: (usize, usize)| #[trigger]
            m1.contains(m) <==> move_allowed(b, px, py, m.0 as int, m.1 as int),
        forall|m: (usize, usize)| #[trigger]
            m2.contains(m) <==> move_allowed(b, px, py, m.0 as int, m.1 as int),
    ensures
        m1.to_set() == m2.to_set(),
{
    assert(m1.to_set() =~= m2.to_set());
}

/// Bounds closure: every pseudo-legal destination lies on the board.
pub proof fn lemma_moves_in_bounds(b: Seq<Option<Piece>>, px: int, py: int, tx: int, ty: int)
    requires
        move_allowed(b, px, py, tx, ty),
    ensures
        in_bounds(tx, ty),
{
    let p = piece_at(b, px, py).unwrap();
    if p.piece_type is Bishop || p.piece_type is Rook || p.piece_type is Queen {
        let (dx, dy) = choose|dx: int, dy: int|
            #[trigger] slide_dir(p.piece_type, dx, dy) && slide_move_along(
                b,
                px,
                py,
                dx,
                dy,
                p.color,
                tx,
                ty,
            );
        let k = choose|k: int|
            k >= 1 && #[trigger] ray_hits(px, py, dx, dy, k, tx, ty) && in_bounds(tx, ty)
                && ray_clear(b, px, py, dx, dy, k) && square_open_to(b, tx, ty, p.color);
    }
}

/// No self-capture: a pseudo-legal destination never holds a piece of the
/// mover's own color.
pub proof fn lemma_no_self_capture(b: Seq<Option<Piece>>, px: int, py: int, tx: int, ty: int)
    requires
        move_allowed(b, px, py, tx, ty),
        piece_at(b, tx, ty) is Some,
    ensures
        piece_at(b, px, py) is Some,
        piece_at(b, tx, ty).unwrap().color != piece_at(b, px, py).unwrap().color,
{
    let p = piece_at(b, px, py).unwrap();
    if p.piece_type is Bishop || p.piece_type is Rook || p.piece_type is Queen {
        let (dx, dy) = choose|dx: int, dy: int|
            #[trigger] slide_dir(p.piece_type, dx, dy) && slide_move_along(
                b,
                px,
                py,
                dx,
                dy,
                p.color,
                tx,
                ty,
            );
        let k = choose|k: int|
            k >= 1 && #[trigger] ray_hits(px, py, dx, dy, k, tx, ty) && in_bounds(tx, ty)
                && ray_clear(b, px, py, dx, dy, k) && square_open_to(b, tx, ty, p.color);
    }
}

/// Sliding-ray blocking: for a bishop, rook or queen, an occupied square k
/// steps out along a direction shadows every square farther out on that same
/// ray, whatever the blocker's color.
pub proof fn lemma_sliding_ray_blocked(
    b: Seq<Option<Piece>>,
    px: int,
    py: int,
    dx: int,
    dy: int,
    k: int,
    j: int,
    tx: int,
    ty: int,
)
    requires
        piece_at(b, px, py) is Some,
        piece_at(b, px, py).unwrap().piece_type is Bishop || piece_at(
            b,
            px,
            py,
        ).unwrap().piece_type is Rook || piece_at(b, px, py).unwrap().piece_type is Queen,
        -1 <= dx <= 1,
        -1 <= dy <= 1,
        !(dx == 0 && dy == 0),
        1 <= k < j,
        ray_occupant(b, px, py, dx, dy, k) is Some,
        ray_hits(px, py, dx, dy, j, tx, ty),
    ensures
        !move_allowed(b, px, py, tx, ty),
{
    assert(on_ray(px, py, dx, dy, tx, ty));
    if move_allowed(b, px, py, tx, ty) {
        let p = piece_at(b, px, py).unwrap();
        let (ux, uy) = choose|ux: int, uy: int|
            #[trigger] slide_dir(p.piece_type, ux, uy) && slide_move_along(
                b,
                px,
                py,
                ux,
                uy,
                p.color,
                tx,
                ty,
            );
        if ux == dx && uy == dy {
            let k2 = choose|k2: int|
                k2 >= 1 && #[trigger] ray_hits(px, py, dx, dy, k2, tx, ty) && in_bounds(tx, ty)
                    && ray_clear(b, px, py, dx, dy, k2) && square_open_to(b, tx, ty, p.color);
            lemma_unit_scale(dx, k2);
            lemma_unit_scale(dx, j);
            lemma_unit_scale(dy, k2);
            lemma_unit_scale(dy, j);
            assert(k2 == j);
            assert(ray_occupant(b, px, py, dx, dy, k) is None);
            assert(false);
        } else {
            lemma_along_off_other(b, p.color, px, py, ux, uy, dx, dy, tx, ty);
            assert(false);
        }
    }
}

/// Pawn double-step gating, first half: a white pawn on its home rank of an
/// otherwise empty board reaches exactly the one- and two-step squares ahead.
pub proof fn lemma_pawn_home_rank(b: Seq<Option<Piece>>, x: int)
    requires
        0 <= x <= 7,
        piece_at(b, x, 6) == Some(Piece { piece_type: PieceType::Pawn, color: Color::White }),
        forall|i: int, j: int|
            in_bounds(i, j) && !(i == x && j == 6) ==> #[trigger] piece_at(b, i, j) is None,
    ensures
        forall|tx: int, ty: int| #[trigger]
            move_allowed(b, x, 6, tx, ty) <==> ((tx == x && ty == 5) || (tx == x && ty == 4)),
{
    assert forall|tx: int, ty: int| #[trigger]
        move_allowed(b, x, 6, tx, ty) <==> ((tx == x && ty == 5) || (tx == x && ty == 4)) by {
        if tx == x && (ty == 5 || ty == 4) {
            assert(piece_at(b, tx, ty) is None);
        }
        if move_allowed(b, x, 6, tx, ty) && (tx == x - 1 || tx == x + 1) && in_bounds(tx, ty) {
            assert(piece_at(b, tx, ty) is None);
        }
    }
}

/// Pawn double-step gating, second half: a white pawn off its home rank on an
/// otherwise empty board reaches only the single square ahead.
pub proof fn lemma_pawn_off_home_rank(b: Seq<Option<Piece>>, x: int)
    requires
        0 <= x <= 7,
        piece_at(b, x, 5) == Some(Piece { piece_type: PieceType::Pawn, color: Color::White }),
        forall|i: int, j: int|
            in_bounds(i, j) && !(i == x && j == 5) ==> #[trigger] piece_at(b, i, j) is None,
    ensures
        forall|tx: int, ty: int| #[trigger]
            move_allowed(b, x, 5, tx, ty) <==> (tx == x && ty == 4),
{
    assert forall|tx: int, ty: int| #[trigger]
        move_allowed(b, x, 5, tx, ty) <==> (tx == x && ty == 4) by {
        if tx == x && ty == 4 {
            assert(piece_at(b, tx, ty) is None);
        }
        if move_allowed(b, x, 5, tx, ty) && (tx == x - 1 || tx == x + 1) && in_bounds(tx, ty) {
            assert(piece_at(b, tx, ty) is None);
        }
    }
}

} // verus!
