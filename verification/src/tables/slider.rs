//! Sliding pieces: what a rook or a bishop attacks along its rays, computed by
//! walking the rays, and the squares on which a blocker matters.

use vstd::prelude::*;
use vstd::wrapping::u64_specs::wrapping_mul;
use crate::bits::{
    bit, count_below, count_ones, group_bits, has_bit, lemma_bits_equal, popcount, single_mask,
};
use crate::board::Bitboard;
use crate::magic::{
    blocker_boards, is_perfect, is_subset, lemma_restrict, lemma_shift_bound, magic_hash,
    slab_hash, Magic,
};
use crate::tables::{file_of, on_board, rank_of, square_at};

verus! {

/// The two kinds of piece that slide along rays of their own.
#[derive(Debug, Clone, Copy, PartialEq, Eq, Structural)]
pub enum Slider {
    Bishop,
    Rook,
}

/// `n` steps of a unit stride `d` (one of -1, 0, 1).
pub open spec fn stride(d: int, n: int) -> int {
    if d == 1 {
        n
    } else if d == -1 {
        -n
    } else {
        0
    }
}

/// `(df, dr)` is one of the eight directions.
pub open spec fn is_direction(df: int, dr: int) -> bool {
    -1 <= df <= 1 && -1 <= dr <= 1 && (df != 0 || dr != 0)
}

/// `n` steps from square `s` in direction `(df, dr)` stay on the board.
pub open spec fn steps_on_board(s: int, df: int, dr: int, n: int) -> bool {
    on_board(file_of(s) + stride(df, n), rank_of(s) + stride(dr, n))
}

/// The square `n` steps from `s` in direction `(df, dr)`.
pub open spec fn step(s: int, df: int, dr: int, n: int) -> int {
    square_at(file_of(s) + stride(df, n), rank_of(s) + stride(dr, n))
}

/// The first `n - 1` squares of the ray hold no member of `occ`.
pub open spec fn clear_path(s: int, df: int, dr: int, occ: u64, n: int) -> bool {
    forall|m: int| 1 <= m < n ==> !bit(occ, #[trigger] step(s, df, dr, m))
}

/// Square `t` is the `n`-th square of the ray, and no earlier square of the
/// ray is occupied.
pub open spec fn ray_hits(s: int, df: int, dr: int, occ: u64, n: int, t: int) -> bool {
    &&& 1 <= n < 8
    &&& steps_on_board(s, df, dr, n)
    &&& step(s, df, dr, n) == t
    &&& clear_path(s, df, dr, occ, n)
}

/// Walking from `s` in direction `(df, dr)` and stopping at the first
/// occupied square, that square included, passes over `t`.
pub open spec fn ray_reaches(s: int, df: int, dr: int, occ: u64, t: int) -> bool {
    exists|n: int| ray_hits(s, df, dr, occ, n, t)
}

/// Walking the four rays of the piece from `s`, each up to and including its
/// first occupied square, passes over `t`.
pub open spec fn slider_reaches(kind: Slider, s: int, occ: u64, t: int) -> bool {
    match kind {
        Slider::Rook => ray_reaches(s, 1, 0, occ, t) || ray_reaches(s, -1, 0, occ, t)
            || ray_reaches(s, 0, 1, occ, t) || ray_reaches(s, 0, -1, occ, t),
        Slider::Bishop => ray_reaches(s, 1, 1, occ, t) || ray_reaches(s, -1, 1, occ, t)
            || ray_reaches(s, 1, -1, occ, t) || ray_reaches(s, -1, -1, occ, t),
    }
}

/// Square `k` is on the ray and is not the ray's last square on the board.
pub open spec fn inner_ray_square(s: int, df: int, dr: int, k: int) -> bool {
    exists|m: int| 1 <= m < 8 && steps_on_board(s, df, dr, m + 1) && #[trigger] step(s, df, dr, m) == k
}

/// A blocker on square `k` can shorten a ray of the piece on `s`.
pub open spec fn relevant(kind: Slider, s: int, k: int) -> bool {
    match kind {
        Slider::Rook => inner_ray_square(s, 1, 0, k) || inner_ray_square(s, -1, 0, k)
            || inner_ray_square(s, 0, 1, k) || inner_ray_square(s, 0, -1, k),
        Slider::Bishop => inner_ray_square(s, 1, 1, k) || inner_ray_square(s, -1, 1, k)
            || inner_ray_square(s, 1, -1, k) || inner_ray_square(s, -1, -1, k),
    }
}

/// Steps that stay on the board stay on it all the way, and land on distinct squares.
pub proof fn lemma_steps(s: int, df: int, dr: int, n: int, m: int)
    requires
        0 <= s < 64,
        is_direction(df, dr),
        0 <= m <= n,
        steps_on_board(s, df, dr, n),
    ensures
        steps_on_board(s, df, dr, m),
        0 <= step(s, df, dr, m) < 64,
        n < 8,
        m < n ==> step(s, df, dr, m) != step(s, df, dr, n),
        step(s, df, dr, 0) == s,
        file_of(step(s, df, dr, m)) == file_of(s) + stride(df, m),
        rank_of(step(s, df, dr, m)) == rank_of(s) + stride(dr, m),
{
}

/// The squares that the ray from `sq` in direction `(df, dr)` passes over,
/// up to and including the first member of `occ`.
pub fn ray_attacks(sq: u8, df: i8, dr: i8, occ: u64) -> (a: u64)
    requires
        sq < 64,
        is_direction(df as int, dr as int),
    ensures
        forall|t: int| bit(a, t) == ray_reaches(sq as int, df as int, dr as int, occ, t),
{
    let ghost s: int = sq as int;
    let ghost d: int = df as int;
    let ghost e: int = dr as int;
    let mut a: u64 = 0;
    let mut f: i8 = (sq % 8) as i8 + df;
    let mut r: i8 = (sq / 8) as i8 + dr;
    let ghost mut n: int = 1;
    proof {
        broadcast use group_bits;

    }
    while 0 <= f && f < 8 && 0 <= r && r < 8
        invariant
            0 <= s < 64,
            s == sq,
            d == df,
            e == dr,
            is_direction(d, e),
            1 <= n <= 8,
            f == file_of(s) + stride(d, n),
            r == rank_of(s) + stride(e, n),
            clear_path(s, d, e, occ, n),
            n > 1 ==> steps_on_board(s, d, e, n - 1),
            forall|t: int| bit(a, t) == exists|m: int| 1 <= m < n && #[trigger] step(s, d, e, m) == t,
        decreases 8 - n,
    {
        proof {
            broadcast use group_bits;

            lemma_steps(s, d, e, n, n);
        }
        let k: u8 = (r * 8 + f) as u8;
        let ghost before = a;
        a = a | single_mask(k);
        assert(k == step(s, d, e, n));
        assert forall|t: int| bit(a, t) == exists|m: int|
            1 <= m < n + 1 && #[trigger] step(s, d, e, m) == t by {
            if bit(a, t) {
                if bit(before, t) {
                    let m = choose|m: int| 1 <= m < n && #[trigger] step(s, d, e, m) == t;
                    assert(1 <= m < n + 1 && step(s, d, e, m) == t);
                } else {
                    assert(step(s, d, e, n) == t);
                }
            }
            if exists|m: int| 1 <= m < n + 1 && #[trigger] step(s, d, e, m) == t {
                let m = choose|m: int| 1 <= m < n + 1 && #[trigger] step(s, d, e, m) == t;
                if m < n {
                    assert(bit(before, t));
                }
            }
        }
        if has_bit(occ, k) {
            proof {
                assert forall|t: int| bit(a, t) == ray_reaches(s, d, e, occ, t) by {
                    if bit(a, t) {
                        let m = choose|m: int| 1 <= m < n + 1 && #[trigger] step(s, d, e, m) == t;
                        lemma_steps(s, d, e, n, m);
                        assert(ray_hits(s, d, e, occ, m, t));
                    }
                    if ray_reaches(s, d, e, occ, t) {
                        let m = choose|m: int| ray_hits(s, d, e, occ, m, t);
                        if m > n {
                            assert(!bit(occ, step(s, d, e, n)));
                        }
                        assert(1 <= m < n + 1 && step(s, d, e, m) == t);
                    }
                }
            }
            return a;
        }
        f = f + df;
        r = r + dr;
        proof {
            assert forall|m: int| 1 <= m < n + 1 implies !bit(occ, #[trigger] step(s, d, e, m)) by {}
            n = n + 1;
        }
    }
    proof {
        assert forall|t: int| bit(a, t) == ray_reaches(s, d, e, occ, t) by {
            if bit(a, t) {
                let m = choose|m: int| 1 <= m < n && #[trigger] step(s, d, e, m) == t;
                lemma_steps(s, d, e, n - 1, m);
                assert(ray_hits(s, d, e, occ, m, t));
            }
            if ray_reaches(s, d, e, occ, t) {
                let m = choose|m: int| ray_hits(s, d, e, occ, m, t);
                if m >= n {
                    lemma_steps(s, d, e, m, n);
                }
                assert(1 <= m < n && step(s, d, e, m) == t);
            }
        }
    }
    a
}

/// What a slider on `sq` attacks when `occ` is occupied, by walking its four rays.
pub fn slow_attacks(kind: Slider, sq: u8, occ: u64) -> (a: u64)
    requires
        sq < 64,
    ensures
        forall|t: int| bit(a, t) == slider_reaches(kind, sq as int, occ, t),
        a != 0,
{
    broadcast use group_bits;

    let a: u64 = match kind {
        Slider::Rook => ray_attacks(sq, 1, 0, occ) | ray_attacks(sq, -1, 0, occ) | ray_attacks(
            sq,
            0,
            1,
            occ,
        ) | ray_attacks(sq, 0, -1, occ),
        Slider::Bishop => ray_attacks(sq, 1, 1, occ) | ray_attacks(sq, -1, 1, occ) | ray_attacks(
            sq,
            1,
            -1,
            occ,
        ) | ray_attacks(sq, -1, -1, occ),
    };
    proof {
        lemma_slider_reaches_some(kind, sq as int, occ);
        let t = choose|t: int| slider_reaches(kind, sq as int, occ, t);
        assert(bit(a, t));
    }
    a
}

/// A slider always attacks some square: a neighbour along one of its rays is on the board.
pub proof fn lemma_slider_reaches_some(kind: Slider, s: int, occ: u64)
    requires
        0 <= s < 64,
    ensures
        exists|t: int| slider_reaches(kind, s, occ, t),
{
    let df: int = if file_of(s) < 7 {
        1
    } else {
        -1
    };
    let dr: int = if rank_of(s) < 7 {
        1
    } else {
        -1
    };
    match kind {
        Slider::Rook => {
            let t = step(s, df, 0, 1);
            assert(ray_hits(s, df, 0, occ, 1, t));
            assert(slider_reaches(kind, s, occ, t));
        },
        Slider::Bishop => {
            let t = step(s, df, dr, 1);
            assert(ray_hits(s, df, dr, occ, 1, t));
            assert(slider_reaches(kind, s, occ, t));
        },
    }
}

/// The squares of the ray from `sq` in direction `(df, dr)` other than its last.
pub fn ray_inner(sq: u8, df: i8, dr: i8) -> (a: u64)
    requires
        sq < 64,
        is_direction(df as int, dr as int),
    ensures
        forall|k: int| bit(a, k) == inner_ray_square(sq as int, df as int, dr as int, k),
{
    let ghost s: int = sq as int;
    let ghost d: int = df as int;
    let ghost e: int = dr as int;
    let mut a: u64 = 0;
    let mut f: i8 = (sq % 8) as i8 + df;
    let mut r: i8 = (sq / 8) as i8 + dr;
    let ghost mut n: int = 1;
    proof {
        broadcast use group_bits;

    }
    while 0 <= f + df && f + df < 8 && 0 <= r + dr && r + dr < 8 && 0 <= f && f < 8 && 0 <= r && r < 8
        invariant
            0 <= s < 64,
            s == sq,
            d == df,
            e == dr,
            is_direction(d, e),
            1 <= n <= 8,
            f == file_of(s) + stride(d, n),
            r == rank_of(s) + stride(e, n),
            -1 <= f <= 8,
            -1 <= r <= 8,
            n > 1 ==> steps_on_board(s, d, e, n),
            forall|k: int| bit(a, k) == exists|m: int| 1 <= m < n && #[trigger] step(s, d, e, m) == k,
        decreases 8 - n,
    {
        proof {
            broadcast use group_bits;

            lemma_steps(s, d, e, n + 1, n);
        }
        let k: u8 = (r * 8 + f) as u8;
        let ghost before = a;
        a = a | single_mask(k);
        assert(k == step(s, d, e, n));
        assert forall|t: int| bit(a, t) == exists|m: int|
            1 <= m < n + 1 && #[trigger] step(s, d, e, m) == t by {
            if bit(a, t) {
                if bit(before, t) {
                    let m = choose|m: int| 1 <= m < n && #[trigger] step(s, d, e, m) == t;
                    assert(1 <= m < n + 1 && step(s, d, e, m) == t);
                } else {
                    assert(step(s, d, e, n) == t);
                }
            }
            if exists|m: int| 1 <= m < n + 1 && #[trigger] step(s, d, e, m) == t {
                let m = choose|m: int| 1 <= m < n + 1 && #[trigger] step(s, d, e, m) == t;
                if m < n {
                    assert(bit(before, t));
                }
            }
        }
        f = f + df;
        r = r + dr;
        proof {
            n = n + 1;
        }
    }
    proof {
        assert forall|k: int| bit(a, k) == inner_ray_square(s, d, e, k) by {
            if bit(a, k) {
                let m = choose|m: int| 1 <= m < n && #[trigger] step(s, d, e, m) == k;
                lemma_steps(s, d, e, n, m + 1);
                assert(1 <= m < 8 && steps_on_board(s, d, e, m + 1) && step(s, d, e, m) == k);
            }
            if inner_ray_square(s, d, e, k) {
                let m = choose|m: int|
                    1 <= m < 8 && steps_on_board(s, d, e, m + 1) && #[trigger] step(s, d, e, m) == k;
                if m >= n {
                    lemma_steps(s, d, e, m + 1, n + 1);
                    lemma_steps(s, d, e, m + 1, n);
                }
                assert(1 <= m < n && step(s, d, e, m) == k);
            }
        }
    }
    a
}

/// The squares on which a blocker can shorten a ray of the slider on `sq`.
pub fn relevant_mask(kind: Slider, sq: u8) -> (a: u64)
    requires
        sq < 64,
    ensures
        forall|k: int| bit(a, k) == relevant(kind, sq as int, k),
{
    broadcast use group_bits;

    match kind {
        Slider::Rook => ray_inner(sq, 1, 0) | ray_inner(sq, -1, 0) | ray_inner(sq, 0, 1)
            | ray_inner(sq, 0, -1),
        Slider::Bishop => ray_inner(sq, 1, 1) | ray_inner(sq, -1, 1) | ray_inner(sq, 1, -1)
            | ray_inner(sq, -1, -1),
    }
}

/// Only blockers on inner squares of a ray shorten it.
pub proof fn lemma_ray_relevant(s: int, df: int, dr: int, occ: u64, mask: u64, t: int)
    requires
        0 <= s < 64,
        is_direction(df, dr),
        forall|k: int| inner_ray_square(s, df, dr, k) ==> bit(mask, k),
    ensures
        ray_reaches(s, df, dr, occ & mask, t) == ray_reaches(s, df, dr, occ, t),
{
    broadcast use group_bits;

    assert forall|n: int| ray_hits(s, df, dr, occ & mask, n, t) == ray_hits(
        s,
        df,
        dr,
        occ,
        n,
        t,
    ) by {
        if 1 <= n < 8 && steps_on_board(s, df, dr, n) {
            assert forall|m: int| 1 <= m < n implies bit(occ & mask, #[trigger] step(s, df, dr, m))
                == bit(occ, step(s, df, dr, m)) by {
                lemma_steps(s, df, dr, n, m + 1);
                assert(inner_ray_square(s, df, dr, step(s, df, dr, m)));
            }
        }
    }
    if ray_reaches(s, df, dr, occ & mask, t) {
        let n = choose|n: int| ray_hits(s, df, dr, occ & mask, n, t);
        assert(ray_hits(s, df, dr, occ, n, t));
    }
    if ray_reaches(s, df, dr, occ, t) {
        let n = choose|n: int| ray_hits(s, df, dr, occ, n, t);
        assert(ray_hits(s, df, dr, occ & mask, n, t));
    }
}

/// What a slider attacks depends on the occupancy of its relevant squares only.
pub proof fn lemma_slider_relevant(kind: Slider, s: int, occ: u64, mask: u64, t: int)
    requires
        0 <= s < 64,
        forall|k: int| relevant(kind, s, k) ==> bit(mask, k),
    ensures
        slider_reaches(kind, s, occ & mask, t) == slider_reaches(kind, s, occ, t),
{
    match kind {
        Slider::Rook => {
            lemma_ray_relevant(s, 1, 0, occ, mask, t);
            lemma_ray_relevant(s, -1, 0, occ, mask, t);
            lemma_ray_relevant(s, 0, 1, occ, mask, t);
            lemma_ray_relevant(s, 0, -1, occ, mask, t);
        },
        Slider::Bishop => {
            lemma_ray_relevant(s, 1, 1, occ, mask, t);
            lemma_ray_relevant(s, -1, 1, occ, mask, t);
            lemma_ray_relevant(s, 1, -1, occ, mask, t);
            lemma_ray_relevant(s, -1, -1, occ, mask, t);
        },
    }
}

/// A slider does not attack its own square, and attacks squares of the board only.
pub proof fn lemma_slider_reaches_other(kind: Slider, s: int, occ: u64, t: int)
    requires
        0 <= s < 64,
        slider_reaches(kind, s, occ, t),
    ensures
        t != s,
        0 <= t < 64,
{
    assert forall|df: int, dr: int| is_direction(df, dr) && #[trigger] ray_reaches(s, df, dr, occ, t)
        implies t != s && 0 <= t < 64 by {
        let n = choose|n: int| ray_hits(s, df, dr, occ, n, t);
        lemma_steps(s, df, dr, n, 0);
        lemma_steps(s, df, dr, n, n);
    }
}

/// The most relevant squares that a square can have: a slab has at most `2^16` entries.
pub const MAX_RELEVANT_BITS: u32 = 16;

/// The number of squares below `n` of which `p` holds.
pub open spec fn count_where(p: spec_fn(int) -> bool, n: int) -> nat
    decreases n,
{
    if n <= 0 {
        0
    } else {
        count_where(p, n - 1) + if p(n - 1) {
            1nat
        } else {
            0nat
        }
    }
}

/// A set whose members satisfy `p` has no more members than `p` has squares.
pub proof fn lemma_count_le(m: u64, p: spec_fn(int) -> bool, n: int)
    requires
        forall|k: int| 0 <= k < n && #[trigger] bit(m, k) ==> p(k),
    ensures
        count_below(m, n) <= count_where(p, n),
    decreases n,
{
    if n > 0 {
        lemma_count_le(m, p, n - 1);
    }
}

/// Squares of which one of two things holds are no more than those of the
/// one and those of the other together.
pub proof fn lemma_count_or(p: spec_fn(int) -> bool, q: spec_fn(int) -> bool, n: int)
    ensures
        count_where(|k: int| p(k) || q(k), n) <= count_where(p, n) + count_where(q, n),
    decreases n,
{
    if n > 0 {
        lemma_count_or(p, q, n - 1);
    }
}

/// Squares that all lie from `a` up to `b` are no more than `b - a`.
pub proof fn lemma_count_interval(p: spec_fn(int) -> bool, a: int, b: int, n: int)
    requires
        a <= b,
        forall|k: int| #[trigger] p(k) ==> a <= k < b,
    ensures
        count_where(p, n) <= b - a,
        n <= b ==> count_where(p, n) <= if n <= a {
            0
        } else {
            n - a
        },
    decreases n,
{
    if n > 0 {
        lemma_count_interval(p, a, b, n - 1);
    }
}

/// Where `p` holds of at most one square of each rank, it holds of at most
/// `j` squares of the first `j` ranks, and of one more, if of any, among
/// the first `i` squares of the next rank.
pub proof fn lemma_count_one_per_rank(p: spec_fn(int) -> bool, j: int, i: int)
    requires
        0 <= j,
        0 <= i <= 8,
        forall|a: int, b: int| #[trigger] p(a) && #[trigger] p(b) && a / 8 == b / 8 ==> a == b,
    ensures
        count_where(p, 8 * j + i) <= j + if exists|k: int| 8 * j <= k < 8 * j + i && #[trigger] p(k) {
            1int
        } else {
            0int
        },
        count_where(p, 8 * j + i) <= j + 1,
    decreases j, i,
{
    if i > 0 {
        lemma_count_one_per_rank(p, j, i - 1);
        let k = 8 * j + i - 1;
        if p(k) {
            if exists|k0: int| 8 * j <= k0 < 8 * j + i - 1 && #[trigger] p(k0) {
                let k0 = choose|k0: int| 8 * j <= k0 < 8 * j + i - 1 && #[trigger] p(k0);
                assert(k0 / 8 == k / 8);
            }
            assert(8 * j <= k < 8 * j + i && p(k));
        } else {
            if exists|k0: int| 8 * j <= k0 < 8 * j + i - 1 && #[trigger] p(k0) {
                let k0 = choose|k0: int| 8 * j <= k0 < 8 * j + i - 1 && #[trigger] p(k0);
                assert(8 * j <= k0 < 8 * j + i && p(k0));
            }
        }
    } else if j > 0 {
        lemma_count_one_per_rank(p, j - 1, 8);
    }
}

/// A relevant square lies on one of the piece's two lines through `s`:
/// for a rook its rank and its file, for a bishop its two diagonals.
pub open spec fn on_first_line(kind: Slider, s: int, k: int) -> bool {
    match kind {
        Slider::Rook => rank_of(k) == rank_of(s),
        Slider::Bishop => file_of(k) - rank_of(k) == file_of(s) - rank_of(s),
    }
}

/// The square lies on the second of the piece's two lines through `s`.
pub open spec fn on_second_line(kind: Slider, s: int, k: int) -> bool {
    match kind {
        Slider::Rook => file_of(k) == file_of(s),
        Slider::Bishop => file_of(k) + rank_of(k) == file_of(s) + rank_of(s),
    }
}

/// An inner square of a ray lies on the board, on the line of the ray.
pub proof fn lemma_inner_ray_line(s: int, df: int, dr: int, k: int)
    requires
        0 <= s < 64,
        is_direction(df, dr),
        inner_ray_square(s, df, dr, k),
    ensures
        0 <= k < 64,
        dr == 0 ==> rank_of(k) == rank_of(s),
        df == 0 ==> file_of(k) == file_of(s),
        df == dr && df != 0 ==> file_of(k) - rank_of(k) == file_of(s) - rank_of(s),
        df == -dr && df != 0 ==> file_of(k) + rank_of(k) == file_of(s) + rank_of(s),
{
    let m = choose|m: int|
        1 <= m < 8 && steps_on_board(s, df, dr, m + 1) && #[trigger] step(s, df, dr, m) == k;
    lemma_steps(s, df, dr, m + 1, m);
}

/// **Few relevant squares.** A square has at most 16 relevant squares.
pub proof fn lemma_relevant_count(kind: Slider, s: int, m: u64)
    requires
        0 <= s < 64,
        is_relevant_mask(kind, s, m),
    ensures
        popcount(m) <= 16,
{
    let p = |k: int| 0 <= k < 64 && on_first_line(kind, s, k);
    let q = |k: int| 0 <= k < 64 && on_second_line(kind, s, k);
    let pq = |k: int| p(k) || q(k);
    assert forall|k: int| 0 <= k < 64 && #[trigger] bit(m, k) implies pq(k) by {
        assert(relevant(kind, s, k));
        match kind {
            Slider::Rook => {
                if inner_ray_square(s, 1, 0, k) {
                    lemma_inner_ray_line(s, 1, 0, k);
                } else if inner_ray_square(s, -1, 0, k) {
                    lemma_inner_ray_line(s, -1, 0, k);
                } else if inner_ray_square(s, 0, 1, k) {
                    lemma_inner_ray_line(s, 0, 1, k);
                } else {
                    lemma_inner_ray_line(s, 0, -1, k);
                }
            },
            Slider::Bishop => {
                if inner_ray_square(s, 1, 1, k) {
                    lemma_inner_ray_line(s, 1, 1, k);
                } else if inner_ray_square(s, -1, 1, k) {
                    lemma_inner_ray_line(s, -1, 1, k);
                } else if inner_ray_square(s, 1, -1, k) {
                    lemma_inner_ray_line(s, 1, -1, k);
                } else {
                    lemma_inner_ray_line(s, -1, -1, k);
                }
            },
        }
    }
    lemma_count_le(m, pq, 64);
    lemma_count_or(p, q, 64);
    assert(count_where(|k: int| p(k) || q(k), 64) == count_where(pq, 64)) by {
        lemma_count_same(|k: int| p(k) || q(k), pq, 64);
    }
    match kind {
        Slider::Rook => {
            lemma_count_interval(p, 8 * rank_of(s), 8 * rank_of(s) + 8, 64);
        },
        Slider::Bishop => {
            lemma_count_one_per_rank(p, 7, 8);
        },
    }
    lemma_count_one_per_rank(q, 7, 8);
    assert(count_where(p, 64) <= 8);
    assert(count_where(q, 64) <= 8);
}

/// Two properties that hold of the same squares hold of equally many.
pub proof fn lemma_count_same(p: spec_fn(int) -> bool, q: spec_fn(int) -> bool, n: int)
    requires
        forall|k: int| #[trigger] p(k) == q(k),
    ensures
        count_where(p, n) == count_where(q, n),
    decreases n,
{
    if n > 0 {
        lemma_count_same(p, q, n - 1);
    }
}

/// `m` is the set of the squares that are relevant for the slider on `s`.
pub open spec fn is_relevant_mask(kind: Slider, s: int, m: u64) -> bool {
    forall|k: int| bit(m, k) == relevant(kind, s, k)
}

/// The multipliers allow an attack table to be built: each square's
/// multiplier hashes the subsets of the square's relevant squares without
/// a collision.
pub open spec fn buildable(kind: Slider, nums: Seq<u64>) -> bool {
    forall|s: int, m: u64|
        0 <= s < 64 && #[trigger] is_relevant_mask(kind, s, m) ==> is_perfect(m, nums[s])
}

/// The hashing data of square `s` finds, for every occupancy, an entry of
/// the table that holds what the slider on `s` attacks under that occupancy.
pub open spec fn magic_entry_wf(kind: Slider, table: Seq<u64>, magic: Magic, s: int) -> bool {
    &&& is_relevant_mask(kind, s, magic.mask)
    &&& forall|occ: u64| 0 <= #[trigger] magic.index_of(occ) < table.len()
    &&& forall|occ: u64, t: int| #[trigger]
        bit(table[magic.index_of(occ)], t) == slider_reaches(kind, s, occ, t)
}

/// The table and the hashing data of all 64 squares answer every lookup with
/// the attacks found by walking the rays.
pub open spec fn magic_table_wf(kind: Slider, table: Seq<u64>, magics: Seq<Magic>) -> bool {
    &&& magics.len() == 64
    &&& forall|s: int| 0 <= s < 64 ==> magic_entry_wf(kind, table, #[trigger] magics[s], s)
}

/// A square has one set of relevant squares.
pub proof fn lemma_relevant_mask_unique(kind: Slider, s: int, a: u64, b: u64)
    requires
        is_relevant_mask(kind, s, a),
        is_relevant_mask(kind, s, b),
    ensures
        a == b,
{
    lemma_bits_equal(a, b);
}

/// Entries appended to the table do not disturb the lookups of earlier squares.
pub proof fn lemma_entry_wf_extends(kind: Slider, old_table: Seq<u64>, table: Seq<u64>, magic: Magic, s: int)
    requires
        magic_entry_wf(kind, old_table, magic, s),
        old_table.len() <= table.len(),
        forall|p: int| 0 <= p < old_table.len() ==> table[p] == old_table[p],
    ensures
        magic_entry_wf(kind, table, magic, s),
{
    assert forall|occ: u64, t: int| #[trigger]
        bit(table[magic.index_of(occ)], t) == slider_reaches(kind, s, occ, t) by {
        assert(0 <= magic.index_of(occ) < old_table.len());
        assert(bit(old_table[magic.index_of(occ)], t) == slider_reaches(kind, s, occ, t));
    }
}

/// Appends the slab of square `sq` to the table and fills it: for every subset
/// of the relevant squares, the entry that the multiplier hashes it to gets the
/// attacks under that subset. Gives the square's hashing data, or nothing if
/// two subsets share an entry.
pub fn fill_slab(kind: Slider, sq: u8, mask: Bitboard, multiplier: u64, table: &mut Vec<Bitboard>) -> (r:
    Option<Magic>)
    requires
        sq < 64,
        is_relevant_mask(kind, sq as int, mask),
        popcount(mask) <= 16,
        old(table)@.len() + 65536 <= usize::MAX,
    ensures
        r is Some == is_perfect(mask, multiplier),
        r is Some ==> {
            &&& old(table)@.len() < final(table)@.len() <= old(table)@.len() + 65536
            &&& forall|p: int| 0 <= p < old(table)@.len() ==> final(table)@[p] == old(table)@[p]
            &&& magic_entry_wf(kind, final(table)@, r->0, sq as int)
            &&& r->0.multiplier == multiplier
            &&& r->0.table_offset == old(table)@.len()
        },
{
    let bits: u32 = count_ones(mask);
    let shift: u8 = (64 - bits) as u8;
    let size: usize = (1u64 << (bits as u64)) as usize;
    proof {
        if bits >= 1 {
            lemma_shift_bound(0, shift as u64, bits as u64);
        } else {
            assert(1u64 << 0u64 == 1) by (bit_vector);
        }
    }
    let offset: usize = table.len();
    let mut i: usize = 0;
    while i < size
        invariant
            i <= size <= 65536,
            offset + 65536 <= usize::MAX,
            offset == old(table)@.len(),
            table@.len() == offset + i,
            forall|p: int| 0 <= p < offset ==> table@[p] == old(table)@[p],
            forall|p: int| offset <= p < offset + i ==> table@[p] == 0,
        decreases size - i,
    {
        table.push(0);
        i = i + 1;
    }
    let magic: Magic = Magic::new(mask, multiplier, shift, offset as u64);
    let blockers: Vec<Bitboard> = blocker_boards(mask);
    let mut i: usize = 0;
    while i < blockers.len()
        invariant
            i <= blockers@.len(),
            sq < 64,
            1 <= size <= 65536,
            offset + 65536 <= usize::MAX,
            offset == old(table)@.len(),
            bits == popcount(mask),
            bits <= 16,
            shift == 64 - bits,
            bits >= 1 ==> size == (1u64 << (bits as u64)),
            bits == 0 ==> size == 1,
            magic == (Magic { mask, multiplier, right_shift: shift, table_offset: offset as u64 }),
            table@.len() == offset + size,
            forall|j: int| 0 <= j < blockers@.len() ==> is_subset(#[trigger] blockers@[j], mask),
            forall|j: int, k: int| 0 <= j < k < blockers@.len() ==> blockers@[j] < blockers@[k],
            forall|p: int| 0 <= p < offset ==> table@[p] == old(table)@[p],
            forall|p: int|
                offset <= p < offset + size && #[trigger] table@[p] != 0 ==> exists|j: int|
                    0 <= j < i && magic.index_of(#[trigger] blockers@[j]) == p,
            forall|j: int|
                0 <= j < i ==> {
                    &&& offset <= magic.index_of(#[trigger] blockers@[j]) < offset + size
                    &&& table@[magic.index_of(blockers@[j])] != 0
                    &&& forall|t: int|
                        bit(table@[magic.index_of(blockers@[j])], t) == slider_reaches(
                            kind,
                            sq as int,
                            blockers@[j],
                            t,
                        )
                },
            forall|j: int, k: int|
                0 <= j < k < i ==> magic.index_of(#[trigger] blockers@[j]) != magic.index_of(
                    #[trigger] blockers@[k],
                ),
        decreases blockers@.len() - i,
    {
        let b: u64 = blockers[i];
        proof {
            if bits >= 1 {
                lemma_shift_bound(wrapping_mul(b & mask, multiplier), shift as u64, bits as u64);
            }
            assert(magic_hash(mask, b, multiplier, shift) < size);
        }
        let idx: usize = magic.as_index(b);
        if table[idx] != 0 {
            proof {
                let j = choose|j: int| 0 <= j < i && magic.index_of(#[trigger] blockers@[j]) == idx;
                assert(blockers@[j] < blockers@[i as int]);
                assert(slab_hash(mask, blockers@[j], multiplier) == slab_hash(mask, b, multiplier));
            }
            return None;
        }
        let att: u64 = slow_attacks(kind, sq, b);
        let ghost before = table@;
        table.set(idx, att);
        proof {
            assert forall|p: int|
                offset <= p < offset + size && #[trigger] table@[p] != 0 implies exists|j: int|
                0 <= j < i + 1 && magic.index_of(#[trigger] blockers@[j]) == p by {
                if p == idx {
                    assert(magic.index_of(blockers@[i as int]) == p);
                } else {
                    assert(before[p] != 0);
                    let j = choose|j: int| 0 <= j < i && magic.index_of(#[trigger] blockers@[j]) == p;
                    assert(0 <= j < i + 1 && magic.index_of(blockers@[j]) == p);
                }
            }
            assert forall|j: int| 0 <= j < i + 1 implies {
                &&& offset <= magic.index_of(#[trigger] blockers@[j]) < offset + size
                &&& table@[magic.index_of(blockers@[j])] != 0
                &&& forall|t: int|
                    bit(table@[magic.index_of(blockers@[j])], t) == slider_reaches(
                        kind,
                        sq as int,
                        blockers@[j],
                        t,
                    )
            } by {
                if j < i {
                    assert(before[magic.index_of(blockers@[j])] != 0);
                }
            }
            assert forall|j: int, k: int| 0 <= j < k < i + 1 implies magic.index_of(
                #[trigger] blockers@[j],
            ) != magic.index_of(#[trigger] blockers@[k]) by {
                if k == i {
                    assert(before[magic.index_of(blockers@[j])] != 0);
                }
            }
        }
        i = i + 1;
    }
    proof {
        assert forall|a: u64, b: u64|
            is_subset(a, mask) && is_subset(b, mask) && a != b implies #[trigger] slab_hash(
            mask,
            a,
            multiplier,
        ) != #[trigger] slab_hash(mask, b, multiplier) by {
            let j = choose|j: int| 0 <= j < blockers@.len() && blockers@[j] == a;
            let k = choose|k: int| 0 <= k < blockers@.len() && blockers@[k] == b;
            assert(blockers@.contains(a) && blockers@.contains(b));
            if j < k {
                assert(magic.index_of(blockers@[j]) != magic.index_of(blockers@[k]));
            } else {
                assert(magic.index_of(blockers@[k]) != magic.index_of(blockers@[j]));
            }
        }
        assert forall|occ: u64| 0 <= #[trigger] magic.index_of(occ) < table@.len() by {
            lemma_restrict(occ, mask);
            let x = occ & mask;
            assert(blockers@.contains(x));
            let j = choose|j: int| 0 <= j < blockers@.len() && blockers@[j] == x;
            assert(magic.index_of(blockers@[j]) == magic.index_of(occ));
        }
        assert forall|occ: u64, t: int| #[trigger]
            bit(table@[magic.index_of(occ)], t) == slider_reaches(kind, sq as int, occ, t) by {
            lemma_restrict(occ, mask);
            let x = occ & mask;
            assert(blockers@.contains(x));
            let j = choose|j: int| 0 <= j < blockers@.len() && blockers@[j] == x;
            assert(magic.index_of(blockers@[j]) == magic.index_of(occ));
            lemma_slider_relevant(kind, sq as int, occ, mask, t);
        }
    }
    Some(magic)
}

/// Builds the attack table of a slider and the hashing data of its 64
/// squares from the square's multipliers.
pub fn build_magics(kind: Slider, nums: &[u64; 64]) -> (r: Option<(Vec<Bitboard>, [Magic; 64])>)
    ensures
        r is Some == buildable(kind, nums@),
        match r {
            Some((table, magics)) => magic_table_wf(kind, table@, magics@) && forall|s: int|
                0 <= s < 64 ==> (#[trigger] magics@[s]).multiplier == nums@[s],
            None => true,
        },
{
    let mut table: Vec<Bitboard> = Vec::new();
    let mut magics: [Magic; 64] = [Magic::default(); 64];
    let mut sq: usize = 0;
    while sq < 64
        invariant
            sq <= 64,
            table@.len() <= sq * 65536,
            forall|s: int|
                0 <= s < sq ==> magic_entry_wf(kind, table@, #[trigger] magics@[s], s) && magics@[s].multiplier
                    == nums@[s],
            forall|s: int, m: u64|
                0 <= s < sq && #[trigger] is_relevant_mask(kind, s, m) ==> is_perfect(m, nums@[s]),
        decreases 64 - sq,
    {
        let mask: u64 = relevant_mask(kind, sq as u8);
        proof {
            assert(is_relevant_mask(kind, sq as int, mask));
            lemma_relevant_count(kind, sq as int, mask);
        }
        let ghost old_table = table@;
        let ghost old_magics = magics@;
        match fill_slab(kind, sq as u8, mask, nums[sq], &mut table) {
            None => {
                return None;
            },
            Some(magic) => {
                magics[sq] = magic;
            },
        }
        proof {
            assert forall|s: int| 0 <= s < sq + 1 implies magic_entry_wf(
                kind,
                table@,
                #[trigger] magics@[s],
                s,
            ) && magics@[s].multiplier == nums@[s] by {
                if s < sq {
                    assert(magics@[s] == old_magics[s]);
                    lemma_entry_wf_extends(kind, old_table, table@, magics@[s], s);
                }
            }
            assert forall|s: int, m: u64|
                0 <= s < sq + 1 && #[trigger] is_relevant_mask(kind, s, m) implies is_perfect(
                m,
                nums@[s],
            ) by {
                if s == sq {
                    lemma_relevant_mask_unique(kind, s, m, mask);
                }
            }
        }
        sq = sq + 1;
    }
    Some((table, magics))
}

} // verus!
