//! The round-based game-score circuit.
//!
//! Each table row is one round: advice columns `x` and `y` hold the two
//! players' moves (in `{0, 1, 2}`), and the accumulator column carries the
//! running score, written one row below the round (rotation `+1`), so a
//! single region holds the whole game. Two zero-check gadgets decide "y
//! wins" (`(y+2-x)*(y-1-x) == 0`) and "draw" (`y-x == 0`); the round gate
//! forces the next accumulator cell to grow by `6*win + 3*draw + y + 1`,
//! and two cubic range gates confine the moves to `{0, 1, 2}`. The first
//! accumulator cell is pinned to zero through a fixed-column constant with
//! a copy constraint (the explicit constant-equality choice), and the
//! final cell is bound to the public instance row of the last round.

use crate::assign::{Assignment, Region};
use crate::checker::{check, satisfied, CheckResult};
use crate::chips::is_zero::{is_gate_shape, is_output_shape, output_target, IsZeroChip, IsZeroConfig};
use crate::expr::{const_val, Cell, ColKind, Column, Expr};
use crate::field::{fadd, fmul, fsub, Fe, MODULUS};
use crate::system::{lemma_expr_ok_monotone, ConstraintSystem, Error, Gate};
use crate::value::{v_add, v_mul, v_sub, Value};
use vstd::prelude::*;

verus! {

/// The "y wins" discriminant: `(y+2-x) * (y-1-x)` in the field; the round
/// is a win for `y` exactly when it vanishes.
pub open spec fn y_wins_val(x: u64, y: u64) -> u64 {
    fmul(fsub(fadd(y, 2), x), fsub(fsub(y, 1), x))
}

/// The score one round adds: 6 for a win, 3 for a draw, plus `y + 1`.
pub open spec fn round_score(x: u64, y: u64) -> u64 {
    fadd(
        fadd(
            if y_wins_val(x, y) == 0 {
                6u64
            } else if fsub(y, x) == 0 {
                3u64
            } else {
                0u64
            },
            y,
        ),
        1,
    )
}

/// The accumulator after `i` rounds.
pub open spec fn total_score(xs: Seq<u64>, ys: Seq<u64>, i: nat) -> u64
    decreases i,
{
    if i == 0 {
        0
    } else {
        fadd(total_score(xs, ys, (i - 1) as nat), round_score(xs[i - 1], ys[i - 1]))
    }
}

/// Round-score correctness, recurrence form: the accumulator after round
/// `i` is the accumulator after round `i-1` plus that round's score.
pub proof fn lemma_score_accumulation(xs: Seq<u64>, ys: Seq<u64>, i: nat)
    requires
        1 <= i,
    ensures
        total_score(xs, ys, i) == fadd(
            total_score(xs, ys, (i - 1) as nat),
            round_score(xs[i - 1], ys[i - 1]),
        ),
{
}

/// Round-score correctness, case form: over moves in `{0, 1, 2}` the
/// round adds `6 + y + 1` when `y` beats `x` (rock < paper < scissors <
/// rock), `3 + y + 1` on a draw, and `y + 1` otherwise.
pub proof fn lemma_round_score_cases(x: u64, y: u64)
    requires
        x < 3,
        y < 3,
    ensures
        round_score(x, y) == ({
            let wins = (x == 0 && y == 1) || (x == 1 && y == 2) || (x == 2 && y == 0);
            if wins {
                (7 + y) as u64
            } else if x == y {
                (4 + y) as u64
            } else {
                (1 + y) as u64
            }
        }),
{
    assert(MODULUS == 101);
    assert(fadd(0, 2) == 2);
    assert(fsub(2, 0) == 2);
    assert(fsub(0, 1) == 100);
    assert(fsub(100, 0) == 100);
    assert(fmul(2, 100) == 99);
    assert(y_wins_val(0, 0) == 99);
    assert(fsub(0, 0) == 0);
    assert(fadd(3, 0) == 3);
    assert(fadd(3, 1) == 4);
    assert(round_score(0, 0) == 4);
    assert(fadd(1, 2) == 3);
    assert(fsub(3, 0) == 3);
    assert(fsub(1, 1) == 0);
    assert(fsub(0, 0) == 0);
    assert(fmul(3, 0) == 0);
    assert(y_wins_val(0, 1) == 0);
    assert(fsub(1, 0) == 1);
    assert(fadd(6, 1) == 7);
    assert(fadd(7, 1) == 8);
    assert(round_score(0, 1) == 8);
    assert(fadd(2, 2) == 4);
    assert(fsub(4, 0) == 4);
    assert(fsub(2, 1) == 1);
    assert(fsub(1, 0) == 1);
    assert(fmul(4, 1) == 4);
    assert(y_wins_val(0, 2) == 4);
    assert(fsub(2, 0) == 2);
    assert(fadd(0, 2) == 2);
    assert(fadd(2, 1) == 3);
    assert(round_score(0, 2) == 3);
    assert(fadd(0, 2) == 2);
    assert(fsub(2, 1) == 1);
    assert(fsub(0, 1) == 100);
    assert(fsub(100, 1) == 99);
    assert(fmul(1, 99) == 99);
    assert(y_wins_val(1, 0) == 99);
    assert(fsub(0, 1) == 100);
    assert(fadd(0, 0) == 0);
    assert(fadd(0, 1) == 1);
    assert(round_score(1, 0) == 1);
    assert(fadd(1, 2) == 3);
    assert(fsub(3, 1) == 2);
    assert(fsub(1, 1) == 0);
    assert(fsub(0, 1) == 100);
    assert(fmul(2, 100) == 99);
    assert(y_wins_val(1, 1) == 99);
    assert(fsub(1, 1) == 0);
    assert(fadd(3, 1) == 4);
    assert(fadd(4, 1) == 5);
    assert(round_score(1, 1) == 5);
    assert(fadd(2, 2) == 4);
    assert(fsub(4, 1) == 3);
    assert(fsub(2, 1) == 1);
    assert(fsub(1, 1) == 0);
    assert(fmul(3, 0) == 0);
    assert(y_wins_val(1, 2) == 0);
    assert(fsub(2, 1) == 1);
    assert(fadd(6, 2) == 8);
    assert(fadd(8, 1) == 9);
    assert(round_score(1, 2) == 9);
    assert(fadd(0, 2) == 2);
    assert(fsub(2, 2) == 0);
    assert(fsub(0, 1) == 100);
    assert(fsub(100, 2) == 98);
    assert(fmul(0, 98) == 0);
    assert(y_wins_val(2, 0) == 0);
    assert(fsub(0, 2) == 99);
    assert(fadd(6, 0) == 6);
    assert(fadd(6, 1) == 7);
    assert(round_score(2, 0) == 7);
    assert(fadd(1, 2) == 3);
    assert(fsub(3, 2) == 1);
    assert(fsub(1, 1) == 0);
    assert(fsub(0, 2) == 99);
    assert(fmul(1, 99) == 99);
    assert(y_wins_val(2, 1) == 99);
    assert(fsub(1, 2) == 100);
    assert(fadd(0, 1) == 1);
    assert(fadd(1, 1) == 2);
    assert(round_score(2, 1) == 2);
    assert(fadd(2, 2) == 4);
    assert(fsub(4, 2) == 2);
    assert(fsub(2, 1) == 1);
    assert(fsub(1, 2) == 100);
    assert(fmul(2, 100) == 99);
    assert(y_wins_val(2, 2) == 99);
    assert(fsub(2, 2) == 0);
    assert(fadd(3, 2) == 5);
    assert(fadd(5, 1) == 6);
    assert(round_score(2, 2) == 6);
}

/// Range enforcement: for any field value outside `{0, 1, 2}` the cubic
/// `x * (x-1) * (x-2)` does not vanish, so the range gate reports a
/// violation at that row.
pub proof fn lemma_range_cubic(x: u64)
    requires
        x < MODULUS,
        x != 0,
        x != 1,
        x != 2,
    ensures
        fmul(fmul(x, fsub(x, 1)), fsub(x, 2)) != 0,
{
    let p: int = MODULUS as int;
    assert(fsub(x, 1) == x - 1) by {
        vstd::arithmetic::div_mod::lemma_mod_add_multiples_vanish((x - 1) as int, p);
        vstd::arithmetic::div_mod::lemma_small_mod((x - 1) as nat, p as nat);
    }
    assert(fsub(x, 2) == x - 2) by {
        vstd::arithmetic::div_mod::lemma_mod_add_multiples_vanish((x - 2) as int, p);
        vstd::arithmetic::div_mod::lemma_small_mod((x - 2) as nat, p as nat);
    }
    crate::field::lemma_no_zero_divisors(x, (x - 1) as u64);
    crate::field::lemma_no_zero_divisors(fmul(x, (x - 1) as u64), (x - 2) as u64);
}

/// Configuration of the game chip: the three game columns, the round
/// selector, the public instance column, the fixed column backing the
/// initial-zero constant, and the two zero-check gadgets.
#[derive(Debug)]
pub struct AdventConfig {
    pub col_x: Column,
    pub col_y: Column,
    pub col_accum: Column,
    pub selector: Column,
    pub instance: Column,
    pub constant: Column,
    pub y_wins: IsZeroConfig,
    pub is_draw: IsZeroConfig,
}

/// The configuration names in-range columns of the right kinds; the five
/// advice columns (three game columns and the two gadget helpers) are
/// pairwise distinct.
pub open spec fn advent_cfg_ok(cfg: AdventConfig, asg: Assignment) -> bool {
    &&& cfg.col_x.kind == ColKind::Advice && cfg.col_x.index < asg.n_advice
    &&& cfg.col_y.kind == ColKind::Advice && cfg.col_y.index < asg.n_advice
    &&& cfg.col_accum.kind == ColKind::Advice && cfg.col_accum.index < asg.n_advice
    &&& cfg.y_wins.value_inv.kind == ColKind::Advice && cfg.y_wins.value_inv.index < asg.n_advice
    &&& cfg.is_draw.value_inv.kind == ColKind::Advice && cfg.is_draw.value_inv.index
        < asg.n_advice
    &&& cfg.selector.kind == ColKind::Selector && cfg.selector.index < asg.n_selectors
    &&& cfg.instance.kind == ColKind::Instance && cfg.instance.index < asg.n_instance
    &&& cfg.constant.kind == ColKind::Fixed && cfg.constant.index < asg.n_fixed
    &&& cfg.col_x.index != cfg.col_y.index
    &&& cfg.col_x.index != cfg.col_accum.index
    &&& cfg.col_x.index != cfg.y_wins.value_inv.index
    &&& cfg.col_x.index != cfg.is_draw.value_inv.index
    &&& cfg.col_y.index != cfg.col_accum.index
    &&& cfg.col_y.index != cfg.y_wins.value_inv.index
    &&& cfg.col_y.index != cfg.is_draw.value_inv.index
    &&& cfg.col_accum.index != cfg.y_wins.value_inv.index
    &&& cfg.col_accum.index != cfg.is_draw.value_inv.index
    &&& cfg.y_wins.value_inv.index != cfg.is_draw.value_inv.index
}


/// The target of the "y wins" gadget, spelled with the tree vocabulary:
/// `((y + 2) + (-x)) * ((y + (-1)) + (-x))`.
pub open spec fn is_yw_target(e: Expr, cx: Column, cy: Column) -> bool {
    match e {
        Expr::Mul(l, r) => (match *l {
            Expr::Add(ab, nx) => (match *ab {
                Expr::Add(qy, c2) => *qy == Expr::Query(cy, 0) && *c2 == Expr::Constant(
                    Fe { rep: 2 },
                ),
                _ => false,
            }) && (match *nx {
                Expr::Neg(qx) => *qx == Expr::Query(cx, 0),
                _ => false,
            }),
            _ => false,
        }) && (match *r {
            Expr::Add(ym, nx) => (match *ym {
                Expr::Add(qy, nc) => *qy == Expr::Query(cy, 0) && (match *nc {
                    Expr::Neg(c1) => *c1 == Expr::Constant(Fe { rep: 1 }),
                    _ => false,
                }),
                _ => false,
            }) && (match *nx {
                Expr::Neg(qx) => *qx == Expr::Query(cx, 0),
                _ => false,
            }),
            _ => false,
        }),
        _ => false,
    }
}

/// The target of the draw gadget: `y + (-x)`.
pub open spec fn is_draw_target(e: Expr, cx: Column, cy: Column) -> bool {
    match e {
        Expr::Add(qy, nx) => *qy == Expr::Query(cy, 0) && (match *nx {
            Expr::Neg(qx) => *qx == Expr::Query(cx, 0),
            _ => false,
        }),
        _ => false,
    }
}

/// A column query minus a small constant: `c + (-k)`.
pub open spec fn is_minus_const(e: Expr, c: Column, k: u64) -> bool {
    match e {
        Expr::Add(q, n) => *q == Expr::Query(c, 0) && (match *n {
            Expr::Neg(cc) => *cc == Expr::Constant(Fe { rep: k }),
            _ => false,
        }),
        _ => false,
    }
}

/// The cubic range expression over a column: `c * (c - 1) * (c - 2)`.
pub open spec fn is_cubic(e: Expr, c: Column) -> bool {
    match e {
        Expr::Mul(l, w2) => (match *l {
            Expr::Mul(q, w1) => *q == Expr::Query(c, 0) && is_minus_const(*w1, c, 1),
            _ => false,
        }) && is_minus_const(*w2, c, 2),
        _ => false,
    }
}

/// A selector-weighted cubic range constraint: `s * (c*(c-1)*(c-2))`.
pub open spec fn is_cubic_gated(p: Expr, sel: Column, c: Column) -> bool {
    match p {
        Expr::Mul(s, cu) => *s == Expr::Query(sel, 0) && is_cubic(*cu, c),
        _ => false,
    }
}

/// The accumulation constraint of the round gate:
/// `s * (accum[next] - (yw_out*6 + draw_out*3 + y + 1 + accum[cur]))`.
pub open spec fn is_round_poly(
    p: Expr,
    sel: Column,
    cy: Column,
    ca: Column,
    yw_out: Expr,
    draw_out: Expr,
) -> bool {
    match p {
        Expr::Mul(s, u7) => *s == Expr::Query(sel, 0) && (match *u7 {
            Expr::Add(outq, n6) => *outq == Expr::Query(ca, 1) && (match *n6 {
                Expr::Neg(u6) => match *u6 {
                    Expr::Add(u5, acc) => *acc == Expr::Query(ca, 0) && (match *u5 {
                        Expr::Add(u4, c1) => *c1 == Expr::Constant(Fe { rep: 1 }) && (match *u4 {
                            Expr::Add(u3, qy) => *qy == Expr::Query(cy, 0) && (match *u3 {
                                Expr::Add(u1, u2) => (match *u1 {
                                    Expr::Mul(w, c6) => *w == yw_out && *c6 == Expr::Constant(
                                        Fe { rep: 6 },
                                    ),
                                    _ => false,
                                }) && (match *u2 {
                                    Expr::Mul(d, c3) => *d == draw_out && *c3 == Expr::Constant(
                                        Fe { rep: 3 },
                                    ),
                                    _ => false,
                                }),
                                _ => false,
                            }),
                            _ => false,
                        }),
                        _ => false,
                    }),
                    _ => false,
                },
                _ => false,
            }),
            _ => false,
        }),
        _ => false,
    }
}

/// The whole registered shape of the game chip: two zero-check gates over
/// the win and draw targets, then the round gate with the accumulation
/// constraint and the two cubic range constraints.
pub open spec fn advent_gates_ok(cfg: AdventConfig, g1: Gate, g2: Gate, g3: Gate) -> bool {
    let q_sel = Expr::Query(cfg.selector, 0);
    let yw_t = output_target(cfg.y_wins.is_zero_expr);
    let dr_t = output_target(cfg.is_draw.is_zero_expr);
    &&& is_yw_target(yw_t, cfg.col_x, cfg.col_y)
    &&& is_draw_target(dr_t, cfg.col_x, cfg.col_y)
    &&& is_output_shape(cfg.y_wins.is_zero_expr, yw_t, cfg.y_wins.value_inv)
    &&& is_output_shape(cfg.is_draw.is_zero_expr, dr_t, cfg.is_draw.value_inv)
    &&& g1.name == "is_zero" && g1.polys@.len() == 1 && is_gate_shape(
        g1.polys@[0],
        q_sel,
        yw_t,
        cfg.y_wins.value_inv,
    )
    &&& g2.name == "is_zero" && g2.polys@.len() == 1 && is_gate_shape(
        g2.polys@[0],
        q_sel,
        dr_t,
        cfg.is_draw.value_inv,
    )
    &&& g3.name == "round" && g3.polys@.len() == 3
    &&& is_round_poly(g3.polys@[0], cfg.selector, cfg.col_y, cfg.col_accum,
        cfg.y_wins.is_zero_expr, cfg.is_draw.is_zero_expr)
    &&& is_cubic_gated(g3.polys@[1], cfg.selector, cfg.col_x)
    &&& is_cubic_gated(g3.polys@[2], cfg.selector, cfg.col_y)
}

/// The game chip.
pub struct AdventChip {
    pub config: AdventConfig,
}

impl AdventChip {
    pub fn construct(config: AdventConfig) -> (r: AdventChip)
        ensures
            r.config == config,
    {
        AdventChip { config }
    }

    /// Wire the two zero-check gadgets, enable equality where copies and
    /// the constant binding need it, and register the round gate (the
    /// accumulation constraint and the two cubic range constraints).
    pub fn configure(
        meta: &mut ConstraintSystem,
        col_x: Column,
        col_y: Column,
        col_accum: Column,
        instance: Column,
        constant: Column,
    ) -> (r: AdventConfig)
        requires
            old(meta).wf(),
            col_x.kind == ColKind::Advice && col_x.index < old(meta).num_advice,
            col_y.kind == ColKind::Advice && col_y.index < old(meta).num_advice,
            col_accum.kind == ColKind::Advice && col_accum.index < old(meta).num_advice,
            instance.kind == ColKind::Instance && instance.index < old(meta).num_instance,
            constant.kind == ColKind::Fixed && constant.index < old(meta).num_fixed,
            old(meta).num_advice + 2 < usize::MAX,
            old(meta).num_selectors < usize::MAX,
        ensures
            final(meta).wf(),
            r.col_x == col_x && r.col_y == col_y && r.col_accum == col_accum,
            r.instance == instance && r.constant == constant,
            r.selector == (Column { kind: ColKind::Selector, index: old(meta).num_selectors }),
            r.y_wins.value_inv == (Column {
                kind: ColKind::Advice,
                index: old(meta).num_advice,
            }),
            r.is_draw.value_inv == (Column {
                kind: ColKind::Advice,
                index: (old(meta).num_advice + 1) as usize,
            }),
            final(meta).num_advice == old(meta).num_advice + 2,
            final(meta).num_fixed == old(meta).num_fixed,
            final(meta).num_instance == old(meta).num_instance,
            final(meta).num_selectors == old(meta).num_selectors + 1,
            final(meta).eq_enabled(col_accum),
            final(meta).eq_enabled(instance),
            final(meta).eq_enabled(constant),
            forall|d: Column|
                d != col_accum && d != instance && d != constant
                    ==> final(meta).eq_enabled(d) == old(meta).eq_enabled(d),
            final(meta).gates@.len() == old(meta).gates@.len() + 3,
            forall|i: int|
                0 <= i < old(meta).gates@.len() ==> final(meta).gates@[i] == old(meta).gates@[i],
            advent_gates_ok(
                r,
                final(meta).gates@[old(meta).gates@.len() as int],
                final(meta).gates@[old(meta).gates@.len() as int + 1],
                final(meta).gates@[old(meta).gates@.len() as int + 2],
            ),
    {
        let selector = meta.add_selector();
        meta.enable_equality(col_accum);
        meta.enable_equality(instance);
        meta.enable_equality(constant);
        let x_cur = Expr::query(col_x, 0);
        let y_cur = Expr::query(col_y, 0);
        // yWins <==> (y+2-x) * (y-1-x) == 0
        let t1 = y_cur.clone().add(const_val(2));
        proof {
            assert(meta.expr_ok(*(t1->Add_0)));
            assert(meta.expr_ok(*(t1->Add_1)));
            assert(meta.expr_ok(t1));
        }
        let t2 = t1.sub(x_cur.clone());
        proof {
            assert(meta.expr_ok(*((*(t2->Add_1))->Neg_0)));
            assert(meta.expr_ok(*(t2->Add_1)));
            assert(meta.expr_ok(t2));
        }
        let t3 = y_cur.clone().sub(const_val(1));
        proof {
            assert(meta.expr_ok(*(t3->Add_0)));
            assert(meta.expr_ok(*((*(t3->Add_1))->Neg_0)));
            assert(meta.expr_ok(*(t3->Add_1)));
            assert(meta.expr_ok(t3));
        }
        let t4 = t3.sub(x_cur.clone());
        proof {
            assert(meta.expr_ok(*((*(t4->Add_1))->Neg_0)));
            assert(meta.expr_ok(*(t4->Add_1)));
            assert(meta.expr_ok(t4));
        }
        let yw_value = t2.mul(t4);
        proof {
            assert(meta.expr_ok(yw_value));
            assert(meta.expr_ok(Expr::Query(selector, 0)));
            assert(is_yw_target(yw_value, col_x, col_y));
        }
        let y_wins = IsZeroChip::configure(meta, Expr::query(selector, 0), yw_value);
        let ghost mid1 = *meta;
        // isDraw <==> y - x == 0
        let draw_value = y_cur.clone().sub(x_cur.clone());
        proof {
            assert(meta.expr_ok(*(draw_value->Add_0)));
            assert(meta.expr_ok(*((*(draw_value->Add_1))->Neg_0)));
            assert(meta.expr_ok(*(draw_value->Add_1)));
            assert(meta.expr_ok(draw_value));
            assert(meta.expr_ok(Expr::Query(selector, 0)));
            assert(is_draw_target(draw_value, col_x, col_y));
        }
        let is_draw = IsZeroChip::configure(meta, Expr::query(selector, 0), draw_value);
        proof {
            lemma_expr_ok_monotone(mid1, *meta, y_wins.is_zero_expr);
        }
        // out = y_wins * 6 + is_draw * 3 + y + 1 + accum, stored one row below
        let s = Expr::query(selector, 0);
        let out = Expr::query(col_accum, 1);
        let accum = Expr::query(col_accum, 0);
        let u1 = y_wins.expr().mul(const_val(6));
        proof {
            assert(meta.expr_ok(*(u1->Mul_1)));
            assert(meta.expr_ok(u1));
        }
        let u2 = is_draw.expr().mul(const_val(3));
        proof {
            assert(meta.expr_ok(*(u2->Mul_1)));
            assert(meta.expr_ok(u2));
        }
        let u3 = u1.add(u2);
        proof {
            assert(meta.expr_ok(u3));
        }
        let u4 = u3.add(y_cur.clone());
        proof {
            assert(meta.expr_ok(*(u4->Add_1)));
            assert(meta.expr_ok(u4));
        }
        let u5 = u4.add(const_val(1));
        proof {
            assert(meta.expr_ok(*(u5->Add_1)));
            assert(meta.expr_ok(u5));
        }
        let u6 = u5.add(accum);
        proof {
            assert(meta.expr_ok(*(u6->Add_1)));
            assert(meta.expr_ok(u6));
        }
        let u7 = out.sub(u6);
        proof {
            assert(meta.expr_ok(*(u7->Add_0)));
            assert(meta.expr_ok(*((*(u7->Add_1))->Neg_0)));
            assert(meta.expr_ok(*(u7->Add_1)));
            assert(meta.expr_ok(u7));
        }
        let p1 = s.clone().mul(u7);
        proof {
            assert(meta.expr_ok(*(p1->Mul_0)));
            assert(meta.expr_ok(p1));
        }
        let p2 = s.clone().mul(cubic(col_x, meta));
        let p3 = s.clone().mul(cubic(col_y, meta));
        proof {
            assert(meta.expr_ok(*(p2->Mul_0)));
            assert(meta.expr_ok(p2));
            assert(meta.expr_ok(*(p3->Mul_0)));
            assert(meta.expr_ok(p3));
        }
        proof {
            assert(is_round_poly(p1, selector, col_y, col_accum, y_wins.is_zero_expr,
                is_draw.is_zero_expr));
        }
        let mut polys: Vec<Expr> = Vec::new();
        polys.push(p1);
        polys.push(p2);
        polys.push(p3);
        meta.create_gate("round", polys);
        proof {
            assert forall|d: Column|
                d != col_accum && d != instance && d != constant implies meta.eq_enabled(d) == old(
                meta,
            ).eq_enabled(d) by {
                if d.kind == ColKind::Advice && d.index < old(meta).num_advice {
                    assert(d.index != col_accum.index);
                }
            }
            let base = old(meta).gates@.len() as int;
            let g1 = meta.gates@[base];
            let g2 = meta.gates@[base + 1];
            let g3 = meta.gates@[base + 2];
            assert(output_target(y_wins.is_zero_expr) == yw_value);
            assert(output_target(is_draw.is_zero_expr) == draw_value);
            assert(is_yw_target(yw_value, col_x, col_y));
            assert(is_draw_target(draw_value, col_x, col_y));
            assert(g1.name == "is_zero" && g1.polys@.len() == 1);
            assert(is_gate_shape(g1.polys@[0], Expr::Query(selector, 0), yw_value,
                y_wins.value_inv));
            assert(g2.name == "is_zero" && g2.polys@.len() == 1);
            assert(is_gate_shape(g2.polys@[0], Expr::Query(selector, 0), draw_value,
                is_draw.value_inv));
            assert(g3.name == "round" && g3.polys@.len() == 3);
            assert(is_round_poly(g3.polys@[0], selector, col_y, col_accum, y_wins.is_zero_expr,
                is_draw.is_zero_expr));
            assert(is_cubic_gated(g3.polys@[1], selector, col_x));
            assert(is_cubic_gated(g3.polys@[2], selector, col_y));
        }
        AdventConfig {
            col_x,
            col_y,
            col_accum,
            selector,
            instance,
            constant,
            y_wins,
            is_draw,
        }
    }
}

/// The cubic range expression `c * (c-1) * (c-2)` over a declared advice
/// column: it vanishes exactly on `{0, 1, 2}`.
fn cubic(col: Column, meta: &ConstraintSystem) -> (r: Expr)
    requires
        meta.col_declared(col),
    ensures
        meta.expr_ok(r),
        is_cubic(r, col),
{
    let q = Expr::query(col, 0);
    let w1 = q.clone().sub(const_val(1));
    proof {
        assert(meta.expr_ok(*(w1->Add_0)));
        assert(meta.expr_ok(*((*(w1->Add_1))->Neg_0)));
        assert(meta.expr_ok(*(w1->Add_1)));
        assert(meta.expr_ok(w1));
    }
    let w2 = q.clone().sub(const_val(2));
    proof {
        assert(meta.expr_ok(*(w2->Add_0)));
        assert(meta.expr_ok(*((*(w2->Add_1))->Neg_0)));
        assert(meta.expr_ok(*(w2->Add_1)));
        assert(meta.expr_ok(w2));
    }
    let r = q.mul(w1).mul(w2);
    proof {
        assert(meta.expr_ok(*((*(r->Mul_0))->Mul_0)));
        assert(meta.expr_ok(*(r->Mul_0)));
        assert(meta.expr_ok(r));
        assert(is_minus_const(*((*(r->Mul_0))->Mul_1), col, 1));
        assert(is_minus_const(*(r->Mul_1), col, 2));
        assert(is_cubic(r, col));
    }
    r
}

/// Every value in the sequence is concrete.
pub open spec fn all_known(vs: Seq<Value>) -> bool {
    forall|i: int| 0 <= i < vs.len() ==> (#[trigger] vs[i]) is Known
}

/// The field representatives of a sequence of known values.
pub open spec fn reps(vs: Seq<Value>) -> Seq<u64> {
    Seq::new(vs.len(), |i: int| vs[i]->Known_0.rep)
}

/// The value the engine writes for one round's score: the concrete round
/// score when both moves are known, the unknown placeholder otherwise.
pub open spec fn v_round(x: Value, y: Value) -> Value {
    match (x, y) {
        (Value::Known(fx), Value::Known(fy)) => Value::Known(
            Fe { rep: round_score(fx.rep, fy.rep) },
        ),
        _ => Value::Unknown,
    }
}

/// The value handed to the "y wins" gadget for one round:
/// `(y + 2 - x) * (y - 1 - x)` over possibly-unknown moves.
pub open spec fn v_yw(x: Value, y: Value) -> Value {
    v_mul(
        v_sub(v_add(y, Value::Known(Fe { rep: 2 })), x),
        v_sub(v_sub(y, Value::Known(Fe { rep: 1 })), x),
    )
}

/// The value handed to the draw gadget for one round: `y - x`.
pub open spec fn v_draw(x: Value, y: Value) -> Value {
    v_sub(y, x)
}

/// What a zero-check helper cell holds for a given target value: unknown
/// for an unknown target, the additive identity for a zero target, and a
/// multiplicative inverse of the target otherwise.
pub open spec fn helper_ok(cell: Value, target: Value) -> bool {
    match target {
        Value::Unknown => cell is Unknown,
        Value::Known(f) => if f.rep == 0 {
            cell == Value::Known(Fe { rep: 0 })
        } else {
            cell is Known && fmul(cell->Known_0.rep, f.rep) == 1
        },
    }
}

/// Everything synthesis writes into the value tables for a game of
/// `xs.len()` rounds: the moves, the accumulator chain, the round
/// selectors, and the two gadget helper columns.
pub open spec fn game_tables_ok(
    cfg: AdventConfig,
    xs: Seq<Value>,
    ys: Seq<Value>,
    a: Assignment,
) -> bool {
    &&& forall|i: int| 0 <= i < xs.len() ==> a.advice_at(cfg.col_x.index as int, i) == xs[i]
    &&& forall|i: int| 0 <= i < ys.len() ==> a.advice_at(cfg.col_y.index as int, i) == ys[i]
    &&& forall|i: int|
        0 <= i <= xs.len() ==> a.advice_at(cfg.col_accum.index as int, i) == acc_spec(
            xs,
            ys,
            i as nat,
        )
    &&& forall|i: int|
        0 <= i < xs.len() ==> helper_ok(
            a.advice_at(cfg.y_wins.value_inv.index as int, i),
            v_yw(xs[i], ys[i]),
        )
    &&& forall|i: int|
        0 <= i < xs.len() ==> helper_ok(
            a.advice_at(cfg.is_draw.value_inv.index as int, i),
            v_draw(xs[i], ys[i]),
        )
    &&& forall|ci: int, ri: int|
        0 <= ci < a.n_advice && 0 <= ri < a.n_rows && !(ri < xs.len() && (ci == cfg.col_x.index
            || ci == cfg.col_y.index || ci == cfg.y_wins.value_inv.index || ci
            == cfg.is_draw.value_inv.index)) && !(ri <= xs.len() && ci == cfg.col_accum.index)
            ==> a.advice_at(ci, ri) == Value::Known(Fe { rep: 0 })
    &&& forall|ci: int, ri: int|
        0 <= ci < a.n_selectors && 0 <= ri < a.n_rows ==> a.selector_at(ci, ri) == (ci
            == cfg.selector.index && ri < xs.len())
}

/// The accumulator value after `i` rounds, at the value level: seeded
/// with the additive identity and grown by one round score per round.
pub open spec fn acc_spec(xs: Seq<Value>, ys: Seq<Value>, i: nat) -> Value
    decreases i,
{
    if i == 0 {
        Value::Known(Fe { rep: 0 })
    } else {
        v_add(acc_spec(xs, ys, (i - 1) as nat), v_round(xs[i - 1], ys[i - 1]))
    }
}

/// On fully known inputs the value-level accumulator is exactly the
/// field-level total score.
pub proof fn lemma_acc_spec_known(xs: Seq<Value>, ys: Seq<Value>, i: nat)
    requires
        i <= xs.len(),
        i <= ys.len(),
        all_known(xs),
        all_known(ys),
        forall|j: int| 0 <= j < xs.len() ==> (#[trigger] xs[j])->Known_0.wf(),
        forall|j: int| 0 <= j < ys.len() ==> (#[trigger] ys[j])->Known_0.wf(),
    ensures
        acc_spec(xs, ys, i) == Value::Known(Fe { rep: total_score(reps(xs), reps(ys), i) }),
    decreases i,
{
    if i > 0 {
        lemma_acc_spec_known(xs, ys, (i - 1) as nat);
    }
}

impl AdventChip {
    /// Fill the whole game in a single region of `N + 1` rows: per round
    /// the selector, the two moves, the two gadget helper cells, and the
    /// next accumulator cell one row below; the first accumulator cell is
    /// seeded with the constant zero. Returns the final accumulator cell.
    /// Fails iff the table has fewer than `N + 1` rows.
    #[verifier::rlimit(100)]
    pub fn assign(&self, asg: &mut Assignment, cs: &ConstraintSystem, xs: &Vec<Value>, ys: &Vec<
        Value,
    >) -> (r: Result<Cell, Error>)
        requires
            old(asg).wf(),
            old(asg).shape_of(*cs),
            cs.wf(),
            advent_cfg_ok(self.config, *old(asg)),
            cs.eq_enabled(self.config.col_accum),
            cs.eq_enabled(self.config.constant),
            old(asg).next_row == 0,
            forall|i: int|
                0 <= i < old(asg).advice@.len() ==> old(asg).advice@[i] == Value::Known(
                    Fe { rep: 0 },
                ),
            forall|i: int| 0 <= i < old(asg).selectors@.len() ==> old(asg).selectors@[i] == false,
            xs@.len() == ys@.len(),
            xs@.len() < usize::MAX,
            forall|i: int| 0 <= i < xs@.len() ==> (#[trigger] xs@[i]).wf(),
            forall|i: int| 0 <= i < ys@.len() ==> (#[trigger] ys@[i]).wf(),
        ensures
            final(asg).wf(),
            final(asg).shape_of(*cs),
            final(asg).n_rows == old(asg).n_rows,
            final(asg).bindings == old(asg).bindings,
            r is Ok <==> 1 <= xs@.len() && xs@.len() + 1 <= old(asg).n_rows,
            xs@.len() == 0 ==> r == Err::<Cell, Error>(Error::Synthesis) && *final(asg) == *old(
                asg,
            ),
            1 <= xs@.len() && r is Err ==> r == Err::<Cell, Error>(Error::RegionBoundsError),
            r matches Ok(out) ==> ({
                let nn = xs@.len() as int;
                let cfg = self.config;
                &&& out == (Cell { col: cfg.col_accum, row: xs@.len() as usize })
                &&& game_tables_ok(cfg, xs@, ys@, *final(asg))
                &&& final(asg).copies@ == old(asg).copies@.push(
                    (
                        Cell { col: cfg.col_accum, row: 0 },
                        Cell { col: cfg.constant, row: 0 },
                    ),
                )
                &&& final(asg).fixed@ == old(asg).fixed@.update(
                    cfg.constant.index * old(asg).n_rows + 0,
                    Value::Known(Fe { rep: 0 }),
                )
                &&& final(asg).next_row == xs@.len() + 1
            }),
    {
        let n = xs.len();
        if n == 0 {
            return Err(Error::Synthesis);
        }
        let region = match asg.assign_region("rps game", n + 1) {
            Ok(reg) => reg,
            Err(e) => {
                return Err(e);
            },
        };
        let y_wins_chip = IsZeroChip::construct(self.config.y_wins.clone());
        let is_draw_chip = IsZeroChip::construct(self.config.is_draw.clone());
        let col_x = self.config.col_x;
        let col_y = self.config.col_y;
        let col_accum = self.config.col_accum;
        let selector = self.config.selector;
        let constant = self.config.constant;
        let mut accum_value = Value::known(Fe::zero());
        let mut out_cell = Cell { col: col_accum, row: 0 };
        proof {
            let nr = asg.n_rows as int;
            assert forall|ci: int, ri: int|
                0 <= ci < asg.n_advice && 0 <= ri < asg.n_rows implies asg.advice_at(ci, ri)
                == Value::Known(Fe { rep: 0 }) by {
                crate::assign::lemma_flat_index(ci, ri, asg.n_advice as int, nr);
                assert(old(asg).advice_at(ci, ri) == Value::Known(Fe { rep: 0 }));
            }
            assert forall|ci: int, ri: int|
                0 <= ci < asg.n_selectors && 0 <= ri < asg.n_rows implies asg.selector_at(ci, ri)
                == false by {
                crate::assign::lemma_flat_index(ci, ri, asg.n_selectors as int, nr);
                assert(old(asg).selector_at(ci, ri) == false);
            }
        }
        let mut row: usize = 0;
        while row < n
            invariant
                asg.wf(),
                asg.shape_of(*cs),
                cs.wf(),
                advent_cfg_ok(self.config, *asg),
                cs.eq_enabled(self.config.col_accum),
                cs.eq_enabled(self.config.constant),
                col_x == self.config.col_x,
                col_y == self.config.col_y,
                col_accum == self.config.col_accum,
                selector == self.config.selector,
                constant == self.config.constant,
                y_wins_chip.config == self.config.y_wins,
                is_draw_chip.config == self.config.is_draw,
                n == xs@.len() == ys@.len(),
                1 <= n < usize::MAX,
                forall|i: int| 0 <= i < xs@.len() ==> (#[trigger] xs@[i]).wf(),
                forall|i: int| 0 <= i < ys@.len() ==> (#[trigger] ys@[i]).wf(),
                row <= n,
                region.start == 0,
                region.len == n + 1,
                region.start + region.len <= asg.n_rows,
                asg.next_row == n + 1,
                asg.n_rows == old(asg).n_rows,
                asg.n_advice == old(asg).n_advice,
                asg.n_fixed == old(asg).n_fixed,
                asg.n_instance == old(asg).n_instance,
                asg.n_selectors == old(asg).n_selectors,
                asg.bindings == old(asg).bindings,
                accum_value == acc_spec(xs@, ys@, row as nat),
                accum_value.wf(),
                row >= 1 ==> out_cell == (Cell { col: col_accum, row }),
                forall|i: int|
                    0 <= i < row ==> asg.advice_at(col_x.index as int, i) == xs@[i],
                forall|i: int|
                    0 <= i < row ==> asg.advice_at(col_y.index as int, i) == ys@[i],
                forall|i: int|
                    row >= 1 && 0 <= i <= row ==> asg.advice_at(col_accum.index as int, i)
                        == acc_spec(xs@, ys@, i as nat),
                forall|ci: int, ri: int|
                    0 <= ci < asg.n_advice && 0 <= ri < asg.n_rows && !(ri < row && (ci
                        == col_x.index || ci == col_y.index || ci
                        == self.config.y_wins.value_inv.index || ci
                        == self.config.is_draw.value_inv.index)) && !(ri <= row && ci
                        == col_accum.index) ==> asg.advice_at(ci, ri) == Value::Known(
                        Fe { rep: 0 },
                    ),
                forall|ci: int, ri: int|
                    0 <= ci < asg.n_selectors && 0 <= ri < asg.n_rows ==> asg.selector_at(ci, ri)
                        == (ci == selector.index && ri < row),
                forall|i: int|
                    0 <= i < row ==> helper_ok(
                        asg.advice_at(self.config.y_wins.value_inv.index as int, i),
                        v_yw(xs@[i], ys@[i]),
                    ),
                forall|i: int|
                    0 <= i < row ==> helper_ok(
                        asg.advice_at(self.config.is_draw.value_inv.index as int, i),
                        v_draw(xs@[i], ys@[i]),
                    ),
                row == 0 ==> asg.copies == old(asg).copies && asg.fixed == old(asg).fixed,
                row >= 1 ==> asg.copies@ == old(asg).copies@.push(
                    (
                        Cell { col: col_accum, row: 0 },
                        Cell { col: constant, row: 0 },
                    ),
                ),
                row >= 1 ==> asg.fixed@ == old(asg).fixed@.update(
                    constant.index * old(asg).n_rows + 0,
                    Value::Known(Fe { rep: 0 }),
                ),
            decreases n - row,
        {
            let res = self.assign_round(asg, cs, region, row, xs[row], ys[row], accum_value);
            let rc = match res {
                Ok(t) => t,
                Err(e) => {
                    return Err(e);
                },
            };
            proof {
                assert(rc.1 == acc_spec(xs@, ys@, (row + 1) as nat)) by {
                    assert(acc_spec(xs@, ys@, (row + 1) as nat) == v_add(
                        acc_spec(xs@, ys@, row as nat),
                        v_round(xs@[row as int], ys@[row as int]),
                    ));
                }
            }
            out_cell = rc.0;
            accum_value = rc.1;
            row = row + 1;
        }
        Ok(out_cell)
    }

    /// Bind the final accumulator cell to a row of the public instance
    /// column.
    pub fn expose_public(&self, asg: &mut Assignment, cs: &ConstraintSystem, cell: Cell, round: usize) -> (r: Result<(), Error>)
        requires
            old(asg).wf(),
            old(asg).shape_of(*cs),
            cs.wf(),
            advent_cfg_ok(self.config, *old(asg)),
            old(asg).cell_ok(cell),
            round < old(asg).n_rows,
        ensures
            final(asg).wf(),
            r is Ok <==> cs.eq_enabled(cell.col) && cs.eq_enabled(self.config.instance),
            r is Ok ==> final(asg).bindings@ == old(asg).bindings@.push(
                (cell, self.config.instance.index, round),
            ) && final(asg).advice == old(asg).advice && final(asg).fixed == old(asg).fixed
                && final(asg).selectors == old(asg).selectors && final(asg).copies == old(
                asg,
            ).copies && final(asg).next_row == old(asg).next_row && final(asg).n_rows == old(
                asg,
            ).n_rows && final(asg).n_advice == old(asg).n_advice && final(asg).n_fixed == old(
                asg,
            ).n_fixed && final(asg).n_instance == old(asg).n_instance && final(asg).n_selectors
                == old(asg).n_selectors,
            r is Err ==> *final(asg) == *old(asg) && r == Err::<(), Error>(
                Error::EqualityNotEnabledError,
            ),
    {
        asg.expose_public(cs, cell, self.config.instance, round)
    }
}

/// Distinct cells of the flat table have distinct indices.
proof fn lemma_neq_one(c1: int, r1: int, c2: int, r2: int, n: int)
    requires
        0 <= r1 < n,
        0 <= r2 < n,
        0 <= c1,
        0 <= c2,
        c1 != c2 || r1 != r2,
    ensures
        c1 * n + r1 != c2 * n + r2,
{
    if c1 * n + r1 == c2 * n + r2 {
        crate::assign::lemma_flat_index_injective(c1, r1, c2, r2, n);
    }
}


impl AdventChip {
    /// One round's writes: the selector, the two moves, the two gadget
    /// helpers, the next accumulator cell, and (in round zero) the
    /// constant-backed initial accumulator. Never fails under the stated
    /// preconditions, and leaves every cell it does not name untouched.
    #[verifier::rlimit(100)]
    fn assign_round(
        &self,
        asg: &mut Assignment,
        cs: &ConstraintSystem,
        region: Region,
        row: usize,
        x: Value,
        y: Value,
        accum_value: Value,
    ) -> (r: Result<(Cell, Value), Error>)
        requires
            old(asg).wf(),
            old(asg).shape_of(*cs),
            cs.wf(),
            advent_cfg_ok(self.config, *old(asg)),
            cs.eq_enabled(self.config.col_accum),
            cs.eq_enabled(self.config.constant),
            region.start == 0,
            region.start + region.len <= old(asg).n_rows,
            row + 1 < region.len,
            x.wf(),
            y.wf(),
            accum_value.wf(),
        ensures
            final(asg).wf(),
            final(asg).n_rows == old(asg).n_rows,
            final(asg).n_advice == old(asg).n_advice,
            final(asg).n_fixed == old(asg).n_fixed,
            final(asg).n_instance == old(asg).n_instance,
            final(asg).n_selectors == old(asg).n_selectors,
            final(asg).bindings == old(asg).bindings,
            final(asg).next_row == old(asg).next_row,
            r is Ok,
            r matches Ok(rc) ==> ({
                let cfg = self.config;
                let xi = cfg.col_x.index as int;
                let yi = cfg.col_y.index as int;
                let ai = cfg.col_accum.index as int;
                let si = cfg.selector.index as int;
                let w1 = cfg.y_wins.value_inv.index as int;
                let w2 = cfg.is_draw.value_inv.index as int;
                let rr = row as int;
                &&& rc.0 == (Cell { col: cfg.col_accum, row: (row + 1) as usize })
                &&& rc.1 == v_add(accum_value, v_round(x, y))
                &&& rc.1.wf()
                &&& final(asg).advice_at(xi, rr) == x
                &&& final(asg).advice_at(yi, rr) == y
                &&& final(asg).advice_at(ai, rr + 1) == rc.1
                &&& (row == 0 ==> final(asg).advice_at(ai, 0) == Value::Known(Fe { rep: 0 }))
                &&& helper_ok(final(asg).advice_at(w1, rr), v_yw(x, y))
                &&& helper_ok(final(asg).advice_at(w2, rr), v_draw(x, y))
                &&& (row == 0 ==> final(asg).copies@ == old(asg).copies@.push(
                    (
                        Cell { col: cfg.col_accum, row: 0 },
                        Cell { col: cfg.constant, row: 0 },
                    ),
                ))
                &&& (row != 0 ==> final(asg).copies == old(asg).copies)
                &&& (row == 0 ==> final(asg).fixed@ == old(asg).fixed@.update(
                    cfg.constant.index * old(asg).n_rows + 0,
                    Value::Known(Fe { rep: 0 }),
                ))
                &&& (row != 0 ==> final(asg).fixed == old(asg).fixed)
                &&& forall|ci: int, ri: int|
                    0 <= ci < final(asg).n_advice && 0 <= ri < final(asg).n_rows && !(ri == rr && (
                    ci == xi || ci == yi || ci == w1 || ci == w2)) && !(ri == rr + 1 && ci == ai)
                        && !(row == 0 && ri == 0 && ci == ai) ==> final(asg).advice_at(ci, ri)
                        == old(asg).advice_at(ci, ri)
                &&& final(asg).selector_at(si, rr)
                &&& forall|ci: int, ri: int|
                    0 <= ci < final(asg).n_selectors && 0 <= ri < final(asg).n_rows && !(ri == rr
                        && ci == si) ==> final(asg).selector_at(ci, ri) == old(asg).selector_at(
                        ci,
                        ri,
                    )
            }),
    {
        match self.write_moves(asg, cs, region, row, x, y) {
            Ok(_) => {},
            Err(e) => {
                return Err(e);
            },
        }
        let rc = match self.write_round_values(asg, region, row, x, y, accum_value) {
            Ok(t) => t,
            Err(e) => {
                return Err(e);
            },
        };
        Ok(rc)
    }

    /// First half of one round: the selector, the two move cells, and (in
    /// round zero) the constant-backed initial accumulator cell.
    #[verifier::rlimit(100)]
    fn write_moves(
        &self,
        asg: &mut Assignment,
        cs: &ConstraintSystem,
        region: Region,
        row: usize,
        x: Value,
        y: Value,
    ) -> (r: Result<(), Error>)
        requires
            old(asg).wf(),
            old(asg).shape_of(*cs),
            cs.wf(),
            advent_cfg_ok(self.config, *old(asg)),
            cs.eq_enabled(self.config.col_accum),
            cs.eq_enabled(self.config.constant),
            region.start == 0,
            region.start + region.len <= old(asg).n_rows,
            row + 1 < region.len,
            x.wf(),
            y.wf(),
        ensures
            final(asg).wf(),
            final(asg).shape_of(*cs),
            final(asg).n_rows == old(asg).n_rows,
            final(asg).n_advice == old(asg).n_advice,
            final(asg).n_fixed == old(asg).n_fixed,
            final(asg).n_instance == old(asg).n_instance,
            final(asg).n_selectors == old(asg).n_selectors,
            final(asg).bindings == old(asg).bindings,
            final(asg).next_row == old(asg).next_row,
            r is Ok,
            ({
                let cfg = self.config;
                let xi = cfg.col_x.index as int;
                let yi = cfg.col_y.index as int;
                let ai = cfg.col_accum.index as int;
                let si = cfg.selector.index as int;
                let rr = row as int;
                &&& final(asg).advice_at(xi, rr) == x
                &&& final(asg).advice_at(yi, rr) == y
                &&& (row == 0 ==> final(asg).advice_at(ai, 0) == Value::Known(Fe { rep: 0 }))
                &&& (row == 0 ==> final(asg).copies@ == old(asg).copies@.push(
                    (
                        Cell { col: cfg.col_accum, row: 0 },
                        Cell { col: cfg.constant, row: 0 },
                    ),
                ))
                &&& (row != 0 ==> final(asg).copies == old(asg).copies)
                &&& (row == 0 ==> final(asg).fixed@ == old(asg).fixed@.update(
                    cfg.constant.index * old(asg).n_rows + 0,
                    Value::Known(Fe { rep: 0 }),
                ))
                &&& (row != 0 ==> final(asg).fixed == old(asg).fixed)
                &&& forall|ci: int, ri: int|
                    0 <= ci < final(asg).n_advice && 0 <= ri < final(asg).n_rows && !(ri == rr && (
                    ci == xi || ci == yi)) && !(row == 0 && ri == 0 && ci == ai) ==> final(asg).advice_at(ci, ri) == old(asg).advice_at(ci, ri)
                &&& final(asg).selector_at(si, rr)
                &&& forall|ci: int, ri: int|
                    0 <= ci < final(asg).n_selectors && 0 <= ri < final(asg).n_rows && !(ri == rr
                        && ci == si) ==> final(asg).selector_at(ci, ri) == old(asg).selector_at(
                        ci,
                        ri,
                    )
            }),
    {
        let col_x = self.config.col_x;
        let col_y = self.config.col_y;
        let col_accum = self.config.col_accum;
        let selector = self.config.selector;
        let constant = self.config.constant;
        match asg.enable_selector(selector, region, row) {
            Ok(_) => {},
            Err(e) => {
                return Err(e);
            },
        }
        if row == 0 {
            match asg.assign_advice_from_constant(cs, region, col_accum, 0, Fe::zero(), constant) {
                Ok(_) => {},
                Err(e) => {
                    return Err(e);
                },
            }
        }
        match asg.assign_advice(region, col_x, row, x) {
            Ok(_) => {},
            Err(e) => {
                return Err(e);
            },
        }
        match asg.assign_advice(region, col_y, row, y) {
            Ok(_) => {},
            Err(e) => {
                return Err(e);
            },
        }
        proof {
            let nrows = asg.n_rows as int;
            let na = asg.n_advice as int;
            let xi = col_x.index as int;
            let yi = col_y.index as int;
            let ai = col_accum.index as int;
            let si = selector.index as int;
            let rr = row as int;
            crate::assign::lemma_flat_index(xi, rr, na, nrows);
            crate::assign::lemma_flat_index(yi, rr, na, nrows);
            crate::assign::lemma_flat_index(ai, 0, na, nrows);
            lemma_neq_one(xi, rr, yi, rr, nrows);
            if !(row == 0 && xi == ai) {
                lemma_neq_one(xi, rr, ai, 0, nrows);
            }
            if !(row == 0 && yi == ai) {
                lemma_neq_one(yi, rr, ai, 0, nrows);
            }
            assert(asg.advice_at(xi, rr) == x);
            assert(asg.advice_at(yi, rr) == y);
            if row == 0 {
                assert(asg.advice_at(ai, 0) == Value::Known(Fe { rep: 0 }));
            }
            assert forall|ci: int, ri: int|
                0 <= ci < asg.n_advice && 0 <= ri < asg.n_rows && !(ri == rr && (ci == xi || ci
                    == yi)) && !(row == 0 && ri == 0 && ci == ai) implies asg.advice_at(ci, ri)
                == old(asg).advice_at(ci, ri) by {
                crate::assign::lemma_flat_index(ci, ri, na, nrows);
                lemma_neq_one(ci, ri, xi, rr, nrows);
                lemma_neq_one(ci, ri, yi, rr, nrows);
                if !(ri == 0 && ci == ai) {
                    lemma_neq_one(ci, ri, ai, 0, nrows);
                }
            }
            crate::assign::lemma_flat_index(si, rr, asg.n_selectors as int, nrows);
            assert(asg.selector_at(si, rr));
            assert forall|ci: int, ri: int|
                0 <= ci < asg.n_selectors && 0 <= ri < asg.n_rows && !(ri == rr && ci
                    == si) implies asg.selector_at(ci, ri) == old(asg).selector_at(ci, ri) by {
                crate::assign::lemma_flat_index(ci, ri, asg.n_selectors as int, nrows);
                lemma_neq_one(ci, ri, si, rr, nrows);
            }
        }
        Ok(())
    }

    /// Second half of one round: the two zero-check helper cells and the
    /// next accumulator cell, grown by the round's score.
    #[verifier::rlimit(100)]
    fn write_round_values(
        &self,
        asg: &mut Assignment,
        region: Region,
        row: usize,
        x: Value,
        y: Value,
        accum_value: Value,
    ) -> (r: Result<(Cell, Value), Error>)
        requires
            old(asg).wf(),
            advent_cfg_ok(self.config, *old(asg)),
            region.start == 0,
            region.start + region.len <= old(asg).n_rows,
            row + 1 < region.len,
            x.wf(),
            y.wf(),
            accum_value.wf(),
        ensures
            final(asg).wf(),
            final(asg).n_rows == old(asg).n_rows,
            final(asg).n_advice == old(asg).n_advice,
            final(asg).n_fixed == old(asg).n_fixed,
            final(asg).n_instance == old(asg).n_instance,
            final(asg).n_selectors == old(asg).n_selectors,
            final(asg).bindings == old(asg).bindings,
            final(asg).next_row == old(asg).next_row,
            final(asg).selectors == old(asg).selectors,
            r is Ok,
            r matches Ok(rc) ==> ({
                let cfg = self.config;
                let ai = cfg.col_accum.index as int;
                let w1 = cfg.y_wins.value_inv.index as int;
                let w2 = cfg.is_draw.value_inv.index as int;
                let rr = row as int;
                &&& rc.0 == (Cell { col: cfg.col_accum, row: (row + 1) as usize })
                &&& rc.1 == v_add(accum_value, v_round(x, y))
                &&& rc.1.wf()
                &&& final(asg).advice_at(ai, rr + 1) == rc.1
                &&& helper_ok(final(asg).advice_at(w1, rr), v_yw(x, y))
                &&& helper_ok(final(asg).advice_at(w2, rr), v_draw(x, y))
                &&& final(asg).copies == old(asg).copies
                &&& final(asg).fixed == old(asg).fixed
                &&& forall|ci: int, ri: int|
                    0 <= ci < final(asg).n_advice && 0 <= ri < final(asg).n_rows && !(ri == rr && (
                    ci == w1 || ci == w2)) && !(ri == rr + 1 && ci == ai) ==> final(asg).advice_at(ci, ri) == old(asg).advice_at(ci, ri)
            }),
    {
        let col_accum = self.config.col_accum;
        let y_wins_chip = IsZeroChip::construct(self.config.y_wins.clone());
        let is_draw_chip = IsZeroChip::construct(self.config.is_draw.clone());
        let two = Value::known(Fe::from_u64(2));
        let one = Value::known(Fe::one());
        let yw_value = y.add(two).sub(x).mul(y.sub(one).sub(x));
        let yw = match y_wins_chip.assign(asg, region, row, yw_value) {
            Ok(v) => v,
            Err(e) => {
                return Err(e);
            },
        };
        let dr_value = y.sub(x);
        let dr = match is_draw_chip.assign(asg, region, row, dr_value) {
            Ok(v) => v,
            Err(e) => {
                return Err(e);
            },
        };
        let part: Value = match (yw, dr) {
            (Value::Known(w), Value::Known(d)) => Value::known(
                Fe::from_u64(
                    if w.rep == 1 {
                        6
                    } else if d.rep == 1 {
                        3
                    } else {
                        0
                    },
                ),
            ),
            _ => Value::unknown(),
        };
        let round = part.add(y).add(Value::known(Fe::one()));
        proof {
            assert(round == v_round(x, y)) by {
                if x is Known && y is Known {
                    let xr = x->Known_0.rep;
                    let yr = y->Known_0.rep;
                    assert(yw_value == Value::Known(Fe { rep: y_wins_val(xr, yr) }));
                    assert(dr_value == Value::Known(Fe { rep: fsub(yr, xr) }));
                    assert(round_score(xr, yr) == fadd(
                        fadd(
                            if y_wins_val(xr, yr) == 0 {
                                6u64
                            } else if fsub(yr, xr) == 0 {
                                3u64
                            } else {
                                0u64
                            },
                            yr,
                        ),
                        1,
                    ));
                }
            }
        }
        let new_accum = accum_value.add(round);
        let oc = match asg.assign_advice(region, col_accum, row + 1, new_accum) {
            Ok(c) => c,
            Err(e) => {
                return Err(e);
            },
        };
        proof {
            let nrows = asg.n_rows as int;
            let na = asg.n_advice as int;
            let ai = col_accum.index as int;
            let w1 = self.config.y_wins.value_inv.index as int;
            let w2 = self.config.is_draw.value_inv.index as int;
            let rr = row as int;
            crate::assign::lemma_flat_index(w1, rr, na, nrows);
            crate::assign::lemma_flat_index(w2, rr, na, nrows);
            crate::assign::lemma_flat_index(ai, rr + 1, na, nrows);
            lemma_neq_one(w1, rr, w2, rr, nrows);
            lemma_neq_one(w1, rr, ai, rr + 1, nrows);
            lemma_neq_one(w2, rr, ai, rr + 1, nrows);
            assert(asg.advice_at(ai, rr + 1) == new_accum);
            assert(yw_value == v_yw(x, y));
            assert(dr_value == v_draw(x, y));
            assert(helper_ok(asg.advice_at(w1, rr), v_yw(x, y)));
            assert(helper_ok(asg.advice_at(w2, rr), v_draw(x, y)));
            assert forall|ci: int, ri: int|
                0 <= ci < asg.n_advice && 0 <= ri < asg.n_rows && !(ri == rr && (ci == w1 || ci
                    == w2)) && !(ri == rr + 1 && ci == ai) implies asg.advice_at(ci, ri) == old(asg).advice_at(ci, ri) by {
                crate::assign::lemma_flat_index(ci, ri, na, nrows);
                lemma_neq_one(ci, ri, w1, rr, nrows);
                lemma_neq_one(ci, ri, w2, rr, nrows);
                lemma_neq_one(ci, ri, ai, rr + 1, nrows);
            }
        }
        Ok((oc, new_accum))
    }
}


/// The game circuit: the two players' move sequences (unknown in the
/// shape-only pass), with the final score bound to the public instance
/// row of the last round.
pub struct AdventCircuit {
    pub xs: Vec<Value>,
    pub ys: Vec<Value>,
}

impl AdventCircuit {
    /// The shape-only twin of this circuit: all moves unknown.
    pub fn without_witnesses(&self) -> (r: AdventCircuit)
        ensures
            r.xs@.len() == self.xs@.len(),
            r.ys@.len() == self.ys@.len(),
            forall|i: int| 0 <= i < r.xs@.len() ==> r.xs@[i] is Unknown,
            forall|i: int| 0 <= i < r.ys@.len() ==> r.ys@[i] is Unknown,
    {
        let mut xs: Vec<Value> = Vec::new();
        let mut ys: Vec<Value> = Vec::new();
        let mut i: usize = 0;
        let n = self.xs.len();
        while i < n
            invariant
                i <= n,
                xs@.len() == i,
                forall|j: int| 0 <= j < i ==> xs@[j] is Unknown,
            decreases n - i,
        {
            xs.push(Value::Unknown);
            i = i + 1;
        }
        let mut i: usize = 0;
        let m = self.ys.len();
        while i < m
            invariant
                i <= m,
                ys@.len() == i,
                forall|j: int| 0 <= j < i ==> ys@[j] is Unknown,
            decreases m - i,
        {
            ys.push(Value::Unknown);
            i = i + 1;
        }
        AdventCircuit { xs, ys }
    }

    /// Declare the circuit's columns on a fresh system and wire the chip.
    pub fn configure(meta: &mut ConstraintSystem) -> (r: AdventConfig)
        requires
            old(meta).wf(),
            old(meta).num_advice == 0,
            old(meta).num_fixed == 0,
            old(meta).num_instance == 0,
            old(meta).num_selectors == 0,
            old(meta).gates@.len() == 0,
        ensures
            final(meta).wf(),
            final(meta).num_advice == 5,
            final(meta).num_fixed == 1,
            final(meta).num_instance == 1,
            final(meta).num_selectors == 1,
            r.col_x == (Column { kind: ColKind::Advice, index: 0 }),
            r.col_y == (Column { kind: ColKind::Advice, index: 1 }),
            r.col_accum == (Column { kind: ColKind::Advice, index: 2 }),
            r.y_wins.value_inv == (Column { kind: ColKind::Advice, index: 3 }),
            r.is_draw.value_inv == (Column { kind: ColKind::Advice, index: 4 }),
            r.instance == (Column { kind: ColKind::Instance, index: 0 }),
            r.constant == (Column { kind: ColKind::Fixed, index: 0 }),
            r.selector == (Column { kind: ColKind::Selector, index: 0 }),
            final(meta).eq_enabled(r.col_accum),
            final(meta).eq_enabled(r.instance),
            final(meta).eq_enabled(r.constant),
            !final(meta).eq_enabled(r.col_x),
            !final(meta).eq_enabled(r.col_y),
            !final(meta).eq_enabled(r.y_wins.value_inv),
            !final(meta).eq_enabled(r.is_draw.value_inv),
            final(meta).gates@.len() == 3,
            advent_gates_ok(r, final(meta).gates@[0], final(meta).gates@[1], final(meta).gates@[2]),
    {
        let col_x = meta.add_advice_column();
        let col_y = meta.add_advice_column();
        let col_accum = meta.add_advice_column();
        let instance = meta.add_instance_column();
        let constant = meta.add_fixed_column();
        let ghost mid = *meta;
        let r = AdventChip::configure(meta, col_x, col_y, col_accum, instance, constant);
        proof {
            assert(!mid.eq_enabled(col_x));
            assert(!mid.eq_enabled(col_y));
            assert(!mid.eq_enabled(Column { kind: ColKind::Advice, index: 3 }));
            assert(!mid.eq_enabled(Column { kind: ColKind::Advice, index: 4 }));
        }
        r
    }

    /// Drive the assignment engine: every round in one region, then bind
    /// the final accumulator cell to the instance row of the last round.
    /// Fails iff the table has fewer than `N + 1` rows.
    #[verifier::rlimit(100)]
    pub fn synthesize(&self, config: AdventConfig, cs: &ConstraintSystem, asg: &mut Assignment) -> (r: Result<(), Error>)
        requires
            old(asg).wf(),
            old(asg).shape_of(*cs),
            cs.wf(),
            advent_cfg_ok(config, *old(asg)),
            cs.eq_enabled(config.col_accum),
            cs.eq_enabled(config.instance),
            cs.eq_enabled(config.constant),
            old(asg).next_row == 0,
            old(asg).bindings@.len() == 0,
            forall|i: int|
                0 <= i < old(asg).advice@.len() ==> old(asg).advice@[i] == Value::Known(
                    Fe { rep: 0 },
                ),
            forall|i: int| 0 <= i < old(asg).selectors@.len() ==> old(asg).selectors@[i] == false,
            self.xs@.len() == self.ys@.len(),
            self.xs@.len() < usize::MAX,
            forall|i: int| 0 <= i < self.xs@.len() ==> (#[trigger] self.xs@[i]).wf(),
            forall|i: int| 0 <= i < self.ys@.len() ==> (#[trigger] self.ys@[i]).wf(),
        ensures
            final(asg).wf(),
            final(asg).shape_of(*cs),
            final(asg).n_rows == old(asg).n_rows,
            r is Ok <==> 1 <= self.xs@.len() && self.xs@.len() + 1 <= old(asg).n_rows,
            self.xs@.len() == 0 ==> r == Err::<(), Error>(Error::Synthesis) && *final(asg)
                == *old(asg),
            1 <= self.xs@.len() && r is Err ==> r == Err::<(), Error>(Error::RegionBoundsError),
            r is Ok ==> ({
                let nn = self.xs@.len() as int;
                &&& game_tables_ok(config, self.xs@, self.ys@, *final(asg))
                &&& final(asg).copies@ == old(asg).copies@.push(
                    (
                        Cell { col: config.col_accum, row: 0 },
                        Cell { col: config.constant, row: 0 },
                    ),
                )
                &&& final(asg).fixed@ == old(asg).fixed@.update(
                    config.constant.index * old(asg).n_rows + 0,
                    Value::Known(Fe { rep: 0 }),
                )
                &&& final(asg).next_row == self.xs@.len() + 1
                &&& final(asg).bindings@.len() == 1
                &&& final(asg).bindings@[0] == (
                    Cell { col: config.col_accum, row: self.xs@.len() as usize },
                    config.instance.index,
                    (self.xs@.len() - 1) as usize,
                )
            }),
    {
        let chip = AdventChip::construct(config);
        let out_cell = match chip.assign(asg, cs, &self.xs, &self.ys) {
            Ok(c) => c,
            Err(e) => {
                return Err(e);
            },
        };
        let ghost pre = *asg;
        let n = self.xs.len();
        match chip.expose_public(asg, cs, out_cell, n - 1) {
            Ok(_) => {},
            Err(e) => {
                return Err(e);
            },
        }
        proof {
            lemma_same_tables(pre, *asg, config, self.xs@, self.ys@);
        }
        Ok(())
    }
}

/// Claims about the value tables carry over to any assignment holding
/// the same advice and selector tables (binding a public cell touches
/// neither).
#[verifier::rlimit(100)]
proof fn lemma_same_tables(
    pre: Assignment,
    post: Assignment,
    cfg: AdventConfig,
    xs: Seq<Value>,
    ys: Seq<Value>,
)
    requires
        post.advice == pre.advice,
        post.selectors == pre.selectors,
        post.n_rows == pre.n_rows,
        post.n_advice == pre.n_advice,
        post.n_selectors == pre.n_selectors,
        xs.len() == ys.len(),
        game_tables_ok(cfg, xs, ys, pre),
    ensures
        game_tables_ok(cfg, xs, ys, post),
{
    assert forall|c: int, r: int| #[trigger] post.advice_at(c, r) == pre.advice_at(c, r) by {}
    assert forall|c: int, r: int| #[trigger] post.selector_at(c, r) == pre.selector_at(c, r) by {}
}

/// Build the game circuit and its public instance column from plain
/// integers: the moves become known witness values, and the instance
/// column is all zeros but for the declared final score at the last
/// round's row.
pub fn make_circuit(xs: &Vec<u64>, ys: &Vec<u64>, out: u64) -> (r: (AdventCircuit, Vec<Fe>))
    requires
        xs@.len() == ys@.len(),
        1 <= xs@.len(),
    ensures
        r.0.xs@.len() == xs@.len(),
        r.0.ys@.len() == ys@.len(),
        forall|i: int|
            0 <= i < xs@.len() ==> r.0.xs@[i] == Value::Known(Fe { rep: xs@[i] % MODULUS }),
        forall|i: int|
            0 <= i < ys@.len() ==> r.0.ys@[i] == Value::Known(Fe { rep: ys@[i] % MODULUS }),
        r.1@.len() == xs@.len(),
        forall|i: int| 0 <= i < xs@.len() - 1 ==> r.1@[i] == (Fe { rep: 0 }),
        r.1@[xs@.len() - 1] == (Fe { rep: out % MODULUS }),
        forall|i: int| 0 <= i < r.1@.len() ==> (#[trigger] r.1@[i]).wf(),
{
    let n = xs.len();
    let mut cxs: Vec<Value> = Vec::new();
    let mut cys: Vec<Value> = Vec::new();
    let mut i: usize = 0;
    while i < n
        invariant
            i <= n,
            n == xs@.len() == ys@.len(),
            cxs@.len() == i,
            cys@.len() == i,
            forall|j: int| 0 <= j < i ==> cxs@[j] == Value::Known(Fe { rep: xs@[j] % MODULUS }),
            forall|j: int| 0 <= j < i ==> cys@[j] == Value::Known(Fe { rep: ys@[j] % MODULUS }),
        decreases n - i,
    {
        cxs.push(Value::known(Fe::from_u64(xs[i])));
        cys.push(Value::known(Fe::from_u64(ys[i])));
        i = i + 1;
    }
    let mut outs: Vec<Fe> = Vec::new();
    let mut i: usize = 0;
    while i < n - 1
        invariant
            n >= 1,
            i <= n - 1,
            outs@.len() == i,
            forall|j: int| 0 <= j < i ==> outs@[j] == (Fe { rep: 0 }),
        decreases n - i,
    {
        outs.push(Fe::zero());
        i = i + 1;
    }
    outs.push(Fe::from_u64(out));
    (AdventCircuit { xs: cxs, ys: cys }, outs)
}

/// The system and assignment `run_game` hands to the checker, pinned
/// completely: the concrete columns, the three registered gates (the two
/// zero-checks and the round gate), the full value tables, the single
/// constant-zero copy constraint, the all-zero fixed column, and the one
/// public binding of the final accumulator cell.
pub open spec fn game_built(
    cs: ConstraintSystem,
    asg: Assignment,
    cfg: AdventConfig,
    xs: Seq<Value>,
    ys: Seq<Value>,
    n_rows: int,
) -> bool {
    &&& cs.wf()
    &&& cs.num_advice == 5 && cs.num_fixed == 1 && cs.num_instance == 1 && cs.num_selectors == 1
    &&& cs.gates@.len() == 3
    &&& cfg.col_x == (Column { kind: ColKind::Advice, index: 0 })
    &&& cfg.col_y == (Column { kind: ColKind::Advice, index: 1 })
    &&& cfg.col_accum == (Column { kind: ColKind::Advice, index: 2 })
    &&& cfg.y_wins.value_inv == (Column { kind: ColKind::Advice, index: 3 })
    &&& cfg.is_draw.value_inv == (Column { kind: ColKind::Advice, index: 4 })
    &&& cfg.instance == (Column { kind: ColKind::Instance, index: 0 })
    &&& cfg.constant == (Column { kind: ColKind::Fixed, index: 0 })
    &&& cfg.selector == (Column { kind: ColKind::Selector, index: 0 })
    &&& advent_gates_ok(cfg, cs.gates@[0], cs.gates@[1], cs.gates@[2])
    &&& asg.wf() && asg.shape_of(cs) && asg.n_rows == n_rows
    &&& game_tables_ok(cfg, xs, ys, asg)
    &&& asg.copies@.len() == 1
    &&& asg.copies@[0] == ((
        Cell { col: cfg.col_accum, row: 0 },
        Cell { col: cfg.constant, row: 0 },
    ))
    &&& forall|i: int| 0 <= i < asg.fixed@.len() ==> asg.fixed@[i] == Value::Known(Fe { rep: 0 })
    &&& asg.bindings@.len() == 1
    &&& asg.bindings@[0] == ((
        Cell { col: cfg.col_accum, row: xs.len() as usize },
        0usize,
        (xs.len() - 1) as usize,
    ))
}

/// Configure, synthesize and check the game circuit against its public
/// instance column in a table of `n_rows` rows. The verdict is pinned:
/// it is the checker's verdict on a system-assignment pair built exactly
/// as [`game_built`] states; and when it is success, the accumulated
/// score after the last round equals the declared output at the last
/// round's instance row.
pub fn run_game(n_rows: usize, circuit: &AdventCircuit, public: &Vec<Fe>) -> (r: Result<
    CheckResult,
    Error,
>)
    requires
        1 <= n_rows,
        5 * n_rows <= usize::MAX,
        circuit.xs@.len() == circuit.ys@.len(),
        circuit.xs@.len() < usize::MAX,
        public@.len() == circuit.xs@.len(),
        forall|i: int| 0 <= i < public@.len() ==> (#[trigger] public@[i]).wf(),
        forall|i: int| 0 <= i < circuit.xs@.len() ==> (#[trigger] circuit.xs@[i]).wf(),
        forall|i: int| 0 <= i < circuit.ys@.len() ==> (#[trigger] circuit.ys@[i]).wf(),
    ensures
        r is Ok <==> 1 <= circuit.xs@.len() && circuit.xs@.len() + 1 <= n_rows,
        circuit.xs@.len() == 0 ==> r == Err::<CheckResult, Error>(Error::Synthesis),
        1 <= circuit.xs@.len() && r is Err ==> r == Err::<CheckResult, Error>(
            Error::RegionBoundsError,
        ),
        r matches Ok(cr) ==> (cr == CheckResult::Satisfied ==> acc_spec(
            circuit.xs@,
            circuit.ys@,
            circuit.xs@.len() as nat,
        ) == Value::Known(public@[circuit.xs@.len() - 1])),
        r matches Ok(cr) ==> forall|i: int|
            0 <= i < circuit.xs@.len() && (#[trigger] out_of_range(circuit.xs@[i])
                || out_of_range(circuit.ys@[i])) ==> cr != CheckResult::Satisfied,
        r matches Ok(cr) ==> exists|
            cs: ConstraintSystem,
            asg: Assignment,
            cfg: AdventConfig,
            inst: Seq<Vec<Fe>>,
        |
            #[trigger] game_built(cs, asg, cfg, circuit.xs@, circuit.ys@, n_rows as int)
                && #[trigger] crate::checker::inst_padded(inst, public@, n_rows as int) && cr
                == crate::checker::check_spec(cs, asg, inst),
{
    let mut cs = ConstraintSystem::new();
    let config = AdventCircuit::configure(&mut cs);
    let mut asg = crate::assign::Assignment::new(&cs, n_rows);
    match circuit.synthesize(config, &cs, &mut asg) {
        Ok(_) => {},
        Err(e) => {
            return Err(e);
        },
    }
    let inst_col = crate::checker::pad_column(public, n_rows);
    let mut inst: Vec<Vec<Fe>> = Vec::new();
    inst.push(inst_col);
    let result = check(&cs, &asg, &inst);
    proof {
        if result == CheckResult::Satisfied {
            assert(satisfied(cs, asg, inst@));
            let b0 = asg.bindings@[0];
            assert(crate::checker::binding_ok(asg, inst@, b0));
            let nn = circuit.xs@.len() as int;
            assert(asg.cell_value(
                Cell { col: Column { kind: ColKind::Advice, index: 2 }, row: nn as usize },
            ) == Value::Known(inst@[0]@[nn - 1]));
            assert(inst@[0]@[nn - 1] == public@[nn - 1]);
        }
        assert forall|i: int| 0 <= i < asg.fixed@.len() implies asg.fixed@[i] == Value::Known(
            Fe { rep: 0 },
        ) by {}
        assert(game_built(cs, asg, config, circuit.xs@, circuit.ys@, n_rows as int));
        assert(crate::checker::inst_padded(inst@, public@, n_rows as int));
        assert forall|i: int|
            0 <= i < circuit.xs@.len() && (#[trigger] out_of_range(circuit.xs@[i])
                || out_of_range(circuit.ys@[i])) implies result != CheckResult::Satisfied by {
            assert(asg.selector_at(config.selector.index as int, i));
            lemma_range_violation(cs, asg, config, inst@, circuit.xs@, circuit.ys@, i);
        }
    }
    Ok(result)
}

/// A known move outside `{0, 1, 2}`.
pub open spec fn out_of_range(v: Value) -> bool {
    v is Known && v->Known_0.rep != 0 && v->Known_0.rep != 1 && v->Known_0.rep != 2
}

/// Evaluation of a selector-weighted cubic range polynomial, unfolded
/// along its pinned shape.
proof fn lemma_cubic_gate_eval(
    asg: Assignment,
    inst: Seq<Vec<Fe>>,
    p: Expr,
    sel: Column,
    c: Column,
    row: int,
)
    requires
        is_cubic_gated(p, sel, c),
    ensures
        crate::checker::eval_expr(asg, inst, p, row) == ({
            let qc = crate::checker::query_value(asg, inst, c, row);
            v_mul(
                crate::checker::query_value(asg, inst, sel, row),
                v_mul(
                    v_mul(qc, v_add(qc, crate::value::v_neg(Value::Known(Fe { rep: 1 })))),
                    v_add(qc, crate::value::v_neg(Value::Known(Fe { rep: 2 }))),
                ),
            )
        }),
{
    let cu = *(p->Mul_1);
    let l = *(cu->Mul_0);
    let w1 = *(l->Mul_1);
    let w2 = *(cu->Mul_1);
    let qc = crate::checker::query_value(asg, inst, c, row);
    assert(crate::checker::eval_expr(asg, inst, *(p->Mul_0), row)
        == crate::checker::query_value(asg, inst, sel, row));
    assert(crate::checker::eval_expr(asg, inst, *(l->Mul_0), row) == qc);
    assert(crate::checker::eval_expr(asg, inst, *(w1->Add_0), row) == qc);
    assert(crate::checker::eval_expr(asg, inst, *((*(w1->Add_1))->Neg_0), row) == Value::Known(
        Fe { rep: 1 },
    ));
    assert(crate::checker::eval_expr(asg, inst, *(w1->Add_1), row) == crate::value::v_neg(
        Value::Known(Fe { rep: 1 }),
    ));
    assert(crate::checker::eval_expr(asg, inst, w1, row) == v_add(
        qc,
        crate::value::v_neg(Value::Known(Fe { rep: 1 })),
    ));
    assert(crate::checker::eval_expr(asg, inst, *(w2->Add_0), row) == qc);
    assert(crate::checker::eval_expr(asg, inst, *((*(w2->Add_1))->Neg_0), row) == Value::Known(
        Fe { rep: 2 },
    ));
    assert(crate::checker::eval_expr(asg, inst, *(w2->Add_1), row) == crate::value::v_neg(
        Value::Known(Fe { rep: 2 }),
    ));
    assert(crate::checker::eval_expr(asg, inst, w2, row) == v_add(
        qc,
        crate::value::v_neg(Value::Known(Fe { rep: 2 })),
    ));
    assert(crate::checker::eval_expr(asg, inst, l, row) == v_mul(qc, crate::checker::eval_expr(
        asg,
        inst,
        w1,
        row,
    )));
    assert(crate::checker::eval_expr(asg, inst, cu, row) == v_mul(
        crate::checker::eval_expr(asg, inst, l, row),
        crate::checker::eval_expr(asg, inst, w2, row),
    ));
}

/// Range enforcement at the verdict level: on a fully built game whose
/// moves are all known, a move outside `{0, 1, 2}` at any round makes
/// the round gate's cubic range constraint fail there, so the triple is
/// not satisfied and the checker never silently passes it.
#[verifier::rlimit(100)]
pub proof fn lemma_range_violation(
    cs: ConstraintSystem,
    asg: Assignment,
    cfg: AdventConfig,
    inst: Seq<Vec<Fe>>,
    xs: Seq<Value>,
    ys: Seq<Value>,
    i: int,
)
    requires
        cs.gates@.len() == 3,
        cs.gates@[2].polys@.len() == 3,
        is_cubic_gated(cs.gates@[2].polys@[1], cfg.selector, cfg.col_x),
        is_cubic_gated(cs.gates@[2].polys@[2], cfg.selector, cfg.col_y),
        0 <= i < xs.len(),
        xs.len() == ys.len(),
        xs.len() < asg.n_rows,
        forall|j: int|
            0 <= j < xs.len() ==> asg.advice_at(cfg.col_x.index as int, j) == #[trigger] xs[j],
        forall|j: int|
            0 <= j < ys.len() ==> asg.advice_at(cfg.col_y.index as int, j) == #[trigger] ys[j],
        asg.selector_at(cfg.selector.index as int, i),
        cfg.col_x.kind == ColKind::Advice,
        cfg.col_y.kind == ColKind::Advice,
        cfg.selector.kind == ColKind::Selector,
        xs[i].wf(),
        ys[i].wf(),
        out_of_range(xs[i]) || out_of_range(ys[i]),
    ensures
        !satisfied(cs, asg, inst),
{
    if satisfied(cs, asg, inst) {
        assert(0 <= i < asg.n_rows);
        let (col, pi, v) = if out_of_range(xs[i]) {
            assert(asg.advice_at(cfg.col_x.index as int, i) == xs[i]);
            (cfg.col_x, 1int, xs[i])
        } else {
            assert(asg.advice_at(cfg.col_y.index as int, i) == ys[i]);
            (cfg.col_y, 2int, ys[i])
        };
        let p = cs.gates@[2].polys@[pi];
        assert(is_cubic_gated(p, cfg.selector, col));
        assert(crate::checker::gate_poly_ok(asg, inst, p, i));
        lemma_cubic_gate_eval(asg, inst, p, cfg.selector, col, i);
        let qc = crate::checker::query_value(asg, inst, col, i);
        assert(crate::checker::query_value(asg, inst, cfg.selector, i) == Value::Known(
            Fe { rep: 1 },
        ));
        assert(qc == v);
        let xv = v->Known_0.rep;
        crate::field::lemma_sub_as_neg(xv, 1);
        crate::field::lemma_sub_as_neg(xv, 2);
        let cubic_val = fmul(fmul(xv, fsub(xv, 1)), fsub(xv, 2));
        assert(crate::checker::eval_expr(asg, inst, p, i) == Value::Known(
            Fe { rep: fmul(1, cubic_val) },
        ));
        assert(fmul(1, cubic_val) == cubic_val) by {
            vstd::arithmetic::div_mod::lemma_small_mod(cubic_val as nat, MODULUS as nat);
        }
        lemma_range_cubic(xv);
        assert(false);
    }
}

} // verus!
