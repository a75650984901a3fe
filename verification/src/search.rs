//! Counting the positions of the move tree (perft).

use vstd::prelude::*;
use crate::board::{
    BoardState,
    BoardModel,
    MoveRep,
    make_spec,
    make_undo_ok,
    lemma_make_stack,
    lemma_unmake_undoes_make,
};
use crate::generate::{generate, gen_spec, gen_ok};
use crate::tables::Tables;
use crate::tt::ZobKeys;
use crate::attacks::in_check_spec;
use crate::eval::{eval, material_spec, mobility_spec, piece_square_spec, WIN, DRAW};
use std::time::{Duration, Instant};

verus! {

/// The number of move sequences of length `depth` from board `b`: one for
/// depth zero, the number of moves for depth one, else the sum over the
/// moves of the count from the board after each.
pub open spec fn perft_spec(b: BoardModel, t: Tables, depth: nat) -> nat
    decreases depth, 0nat,
{
    if depth == 0 {
        1
    } else if depth == 1 {
        gen_spec(b, t).len()
    } else {
        perft_sum(b, t, gen_spec(b, t), (depth - 1) as nat)
    }
}

/// The sum over the moves `ms` of the counts at `depth` from the boards after
/// each.
pub open spec fn perft_sum(b: BoardModel, t: Tables, ms: Seq<MoveRep>, depth: nat) -> nat
    decreases depth, ms.len() + 1,
{
    if ms.len() == 0 {
        0
    } else {
        perft_sum(b, t, ms.drop_last(), depth) + perft_spec(make_spec(b, ms.last()), t, depth)
    }
}

/// What counting to `depth` asks of a board: every board reached before the
/// last level can generate its moves, and each move played is given back
/// exactly by taking it back.
pub open spec fn perft_ok(b: BoardModel, t: Tables, depth: nat) -> bool
    decreases depth,
{
    &&& gen_ok(b, t)
    &&& depth >= 2 ==> forall|i: int|
        0 <= i < gen_spec(b, t).len() ==> make_undo_ok(b, #[trigger] gen_spec(b, t)[i])
            && perft_ok(make_spec(b, gen_spec(b, t)[i]), t, (depth - 1) as nat)
}

/// Counts the move sequences of length `depth`; the board is played forward
/// and taken back, and ends as it began.
pub fn perft_search(board: &mut BoardState, tables: &Tables, zob_keys: &ZobKeys, depth: usize) -> (r:
    usize)
    requires
        tables.wf(),
        perft_ok(old(board)@, *tables, depth as nat),
        perft_spec(old(board)@, *tables, depth as nat) <= usize::MAX,
    ensures
        r == perft_spec(old(board)@, *tables, depth as nat),
        final(board)@ == old(board)@,
    decreases depth,
{
    let ghost b0 = board@;
    let ghost t = *tables;
    let moves = generate(board, tables);
    if depth == 1 {
        return moves.len();
    }
    if depth == 0 {
        return 1;
    }
    let mut node_count: usize = 0;
    let mut i: usize = 0;
    proof {
        assert(moves@.take(0) =~= Seq::<MoveRep>::empty());
    }
    while i < moves.len()
        invariant
            tables.wf(),
            t == *tables,
            depth >= 2,
            i <= moves@.len(),
            moves@ == gen_spec(b0, t),
            board@ == b0,
            perft_ok(b0, t, depth as nat),
            perft_spec(b0, t, depth as nat) <= usize::MAX,
            perft_spec(b0, t, depth as nat) == perft_sum(b0, t, moves@, (depth - 1) as nat),
            node_count == perft_sum(b0, t, moves@.take(i as int), (depth - 1) as nat),
            node_count <= perft_spec(b0, t, depth as nat),
        decreases moves@.len() - i,
    {
        let mv = moves[i];
        proof {
            assert(make_undo_ok(b0, moves@[i as int]));
            lemma_make_stack(b0, mv);
            lemma_unmake_undoes_make(b0, mv);
            lemma_perft_sum_prefix(b0, t, moves@, (depth - 1) as nat, i as int + 1);
            assert(moves@.take(i + 1).drop_last() =~= moves@.take(i as int));
            assert(moves@.take(i + 1).last() == mv);
        }
        board.make(&mv);
        let count = perft_search(board, tables, zob_keys, depth - 1);
        node_count = node_count + count;
        board.unmake(&mv);
        i = i + 1;
    }
    proof {
        assert(moves@.take(i as int) =~= moves@);
    }
    node_count
}

/// At depth zero each board counts once, so the sum is the number of moves.
proof fn lemma_perft_sum_depth_zero(b: BoardModel, t: Tables, ms: Seq<MoveRep>)
    ensures
        perft_sum(b, t, ms, 0) == ms.len(),
    decreases ms.len(),
{
    if ms.len() > 0 {
        lemma_perft_sum_depth_zero(b, t, ms.drop_last());
        assert(perft_spec(make_spec(b, ms.last()), t, 0) == 1);
        assert(perft_sum(b, t, ms, 0) == perft_sum(b, t, ms.drop_last(), 0) + perft_spec(
            make_spec(b, ms.last()),
            t,
            0,
        ));
    }
}

/// The count at `depth` for each move of the board, in the order generation
/// gives them, and the total: what perft shows. The board ends as it began.
pub fn perft_divide(board: &mut BoardState, tables: &Tables, zob_keys: &ZobKeys, depth: usize) -> (r:
    (Vec<(MoveRep, usize)>, usize))
    requires
        tables.wf(),
        depth >= 1,
        gen_ok(old(board)@, *tables),
        forall|i: int|
            0 <= i < gen_spec(old(board)@, *tables).len() ==> make_undo_ok(
                old(board)@,
                #[trigger] gen_spec(old(board)@, *tables)[i],
            ) && perft_ok(
                make_spec(old(board)@, gen_spec(old(board)@, *tables)[i]),
                *tables,
                (depth - 1) as nat,
            ),
        perft_spec(old(board)@, *tables, depth as nat) <= usize::MAX,
    ensures
        final(board)@ == old(board)@,
        r.0@.len() == gen_spec(old(board)@, *tables).len(),
        forall|i: int|
            0 <= i < r.0@.len() ==> (#[trigger] r.0@[i]).0 == gen_spec(old(board)@, *tables)[i]
                && r.0@[i].1 == perft_spec(
                make_spec(old(board)@, gen_spec(old(board)@, *tables)[i]),
                *tables,
                (depth - 1) as nat,
            ),
        r.1 == perft_spec(old(board)@, *tables, depth as nat),
{
    let ghost b0 = board@;
    let ghost t = *tables;
    let moves = generate(board, tables);
    proof {
        if depth == 1 {
            lemma_perft_sum_depth_zero(b0, t, moves@);
        }
        assert(moves@.take(0) =~= Seq::<MoveRep>::empty());
    }
    let mut counts: Vec<(MoveRep, usize)> = Vec::new();
    let mut total: usize = 0;
    let mut i: usize = 0;
    while i < moves.len()
        invariant
            tables.wf(),
            t == *tables,
            depth >= 1,
            i <= moves@.len(),
            moves@ == gen_spec(b0, t),
            board@ == b0,
            forall|j: int|
                0 <= j < moves@.len() ==> make_undo_ok(b0, #[trigger] moves@[j]) && perft_ok(
                    make_spec(b0, moves@[j]),
                    t,
                    (depth - 1) as nat,
                ),
            perft_spec(b0, t, depth as nat) <= usize::MAX,
            perft_spec(b0, t, depth as nat) == perft_sum(b0, t, moves@, (depth - 1) as nat),
            total == perft_sum(b0, t, moves@.take(i as int), (depth - 1) as nat),
            counts@.len() == i,
            forall|j: int|
                0 <= j < i ==> (#[trigger] counts@[j]).0 == moves@[j] && counts@[j].1
                    == perft_spec(make_spec(b0, moves@[j]), t, (depth - 1) as nat),
        decreases moves@.len() - i,
    {
        let mv = moves[i];
        proof {
            assert(make_undo_ok(b0, moves@[i as int]));
            lemma_make_stack(b0, mv);
            lemma_unmake_undoes_make(b0, mv);
            lemma_perft_sum_prefix(b0, t, moves@, (depth - 1) as nat, i as int + 1);
            assert(moves@.take(i + 1).drop_last() =~= moves@.take(i as int));
            assert(moves@.take(i + 1).last() == mv);
        }
        board.make(&mv);
        let count = perft_search(board, tables, zob_keys, depth - 1);
        board.unmake(&mv);
        total = total + count;
        counts.push((mv, count));
        i = i + 1;
    }
    proof {
        assert(moves@.take(i as int) =~= moves@);
    }
    (counts, total)
}

/// A prefix of the moves sums to no more than all of them.
proof fn lemma_perft_sum_prefix(b: BoardModel, t: Tables, ms: Seq<MoveRep>, depth: nat, k: int)
    requires
        0 <= k <= ms.len(),
    ensures
        perft_sum(b, t, ms.take(k), depth) <= perft_sum(b, t, ms, depth),
    decreases ms.len() - k,
{
    if k < ms.len() {
        lemma_perft_sum_prefix(b, t, ms, depth, k + 1);
        assert(ms.take(k + 1).drop_last() =~= ms.take(k));
    } else {
        assert(ms.take(k) =~= ms);
    }
}

/// A point in time, read from the machine's monotonic clock.
#[verifier::external_type_specification]
#[verifier::external_body]
pub struct ExInstant(Instant);

/// Calls `Instant::elapsed`: the time since `t` (it depends on the clock, so
/// nothing is stated of it).
#[verifier::external_body]
fn elapsed(t: &Instant) -> Duration {
    t.elapsed()
}

/// Calls `Duration::as_millis`: the whole milliseconds of a duration
/// (nothing is stated of it here).
#[verifier::external_body]
fn as_millis(d: &Duration) -> u128 {
    d.as_millis()
}

/// Whether `elapsed_ms` milliseconds exceed the `duration` allowed.
pub fn time_exceeded(elapsed_ms: u128, duration: u128) -> (r: bool)
    ensures
        r == (elapsed_ms > duration),
{
    elapsed_ms > duration
}

/// Whether the time allowed since `timer` has run out: the whole
/// milliseconds elapsed since `timer` (read from the clock and handed to
/// `time_exceeded`) exceed `duration`; never without both a timer and a
/// duration. What is stated of a timed answer is what holds for every
/// reading: no reading exceeds the greatest duration.
pub fn timer_check(timer: Option<Instant>, duration: Option<u128>) -> (r: bool)
    ensures
        timer.is_none() || duration.is_none() ==> !r,
        r ==> duration.unwrap() < u128::MAX,
{
    match (timer, duration) {
        (Some(t), Some(d)) => {
            let ms = as_millis(&elapsed(&t));
            time_exceeded(ms, d)
        },
        _ => false,
    }
}

/// The time to spend on a move, in milliseconds: a twentieth of the side to
/// move's clock plus half its increment.
pub fn time_to_spend(white_to_move: bool, w_time: u64, b_time: u64, w_inc: u64, b_inc: u64) -> (r:
    u128)
    ensures
        r == if white_to_move {
            w_time / 20 + w_inc / 2
        } else {
            b_time / 20 + b_inc / 2
        },
{
    if white_to_move {
        (w_time / 20 + w_inc / 2) as u128
    } else {
        (b_time / 20 + b_inc / 2) as u128
    }
}

/// Negation that maps the least value to the greatest.
pub open spec fn neg_sat(x: isize) -> isize {
    if x == isize::MIN {
        isize::MAX
    } else {
        (-x) as isize
    }
}

/// Negation that maps the least value to the greatest.
fn saturating_neg(x: isize) -> (r: isize)
    ensures
        r == neg_sat(x),
{
    if x == isize::MIN {
        isize::MAX
    } else {
        -x
    }
}

/// The moves of a board, as generation gives them.
#[verifier::opaque]
pub open spec fn moves_of(b: BoardModel, t: Tables) -> Seq<MoveRep> {
    gen_spec(b, t)
}

/// The generated moves are the moves of the board.
proof fn lemma_moves_of(b: BoardModel, t: Tables, v: Seq<MoveRep>)
    requires
        v == gen_spec(b, t),
    ensures
        v == moves_of(b, t),
{
    reveal(moves_of);
}

/// The evaluation computed is the static evaluation.
proof fn lemma_eval_spec(b: BoardModel, n: nat, last: nat, v: isize)
    requires
        v == material_spec(b) + mobility_spec(n, last) + piece_square_spec(b),
    ensures
        v == eval_spec(b, n, last),
{
    reveal(eval_spec);
}

/// The static evaluation of a board whose move count is `n`, the last
/// count being `last`.
#[verifier::opaque]
pub open spec fn eval_spec(b: BoardModel, n: nat, last: nat) -> isize {
    (material_spec(b) + mobility_spec(n, last) + piece_square_spec(b)) as isize
}

/// The value quiescence search gives a board, with the number of positions
/// it visits: the static evaluation at depth zero or when it already reaches
/// `beta`, else the best of it and the negated values of the captures (the
/// moves onto an occupied square), stopping at the first that reaches
/// `beta`.
pub open spec fn q_spec(b: BoardModel, t: Tables, alpha: isize, beta: isize, depth: nat, last: nat) -> (
    isize,
    nat,
)
    decreases depth, moves_of(b, t).len() + 1,
{
    let moves = moves_of(b, t);
    let initial = eval_spec(b, moves.len(), last);
    if depth == 0 || initial >= beta {
        (initial, 1)
    } else {
        let a = if alpha < initial {
            initial
        } else {
            alpha
        };
        let (v, c) = q_loop(b, t, moves, 0, a, beta, initial, depth, moves.len());
        (v, c + 1)
    }
}

/// The rest of quiescence search's loop over the moves from index `i`.
pub open spec fn q_loop(
    b: BoardModel,
    t: Tables,
    moves: Seq<MoveRep>,
    i: int,
    alpha: isize,
    beta: isize,
    best: isize,
    depth: nat,
    n: nat,
) -> (isize, nat)
    decreases depth, moves.len() - i,
{
    if i >= moves.len() || depth == 0 {
        (best, 0)
    } else {
        let mv = moves[i];
        if mv.ending_square & b.occupancy() == 0 {
            q_loop(b, t, moves, i + 1, alpha, beta, best, depth, n)
        } else {
            let (child, c1) = q_spec(
                make_spec(b, mv),
                t,
                neg_sat(beta),
                neg_sat(alpha),
                (depth - 1) as nat,
                n,
            );
            let score = neg_sat(child);
            if score >= beta {
                (score, c1)
            } else {
                let (v, c2) = q_loop(
                    b,
                    t,
                    moves,
                    i + 1,
                    if score > alpha {
                        score
                    } else {
                        alpha
                    },
                    beta,
                    if score > best {
                        score
                    } else {
                        best
                    },
                    depth,
                    n,
                );
                (v, c1 + c2)
            }
        }
    }
}


/// One step of quiescence search's loop.
proof fn lemma_q_loop_step(
    b: BoardModel,
    t: Tables,
    moves: Seq<MoveRep>,
    i: int,
    alpha: isize,
    beta: isize,
    best: isize,
    depth: nat,
    n: nat,
)
    requires
        0 <= i < moves.len(),
        depth >= 1,
    ensures
        ({
            let mv = moves[i];
            let here = q_loop(b, t, moves, i, alpha, beta, best, depth, n);
            if mv.ending_square & b.occupancy() == 0 {
                here == q_loop(b, t, moves, i + 1, alpha, beta, best, depth, n)
            } else {
                let (child, c1) = q_spec(
                    make_spec(b, mv),
                    t,
                    neg_sat(beta),
                    neg_sat(alpha),
                    (depth - 1) as nat,
                    n,
                );
                let score = neg_sat(child);
                if score >= beta {
                    here == (score, c1)
                } else {
                    let next = q_loop(
                        b,
                        t,
                        moves,
                        i + 1,
                        if score > alpha {
                            score
                        } else {
                            alpha
                        },
                        beta,
                        if score > best {
                            score
                        } else {
                            best
                        },
                        depth,
                        n,
                    );
                    here == (next.0, c1 + next.1)
                }
            }
        }),
{
}

/// The end of quiescence search's loop gives the best value so far.
proof fn lemma_q_loop_end(
    b: BoardModel,
    t: Tables,
    moves: Seq<MoveRep>,
    i: int,
    alpha: isize,
    beta: isize,
    best: isize,
    depth: nat,
    n: nat,
)
    requires
        i >= moves.len(),
    ensures
        q_loop(b, t, moves, i, alpha, beta, best, depth, n) == (best, 0nat),
{
}

/// Quiescence search's first step.
proof fn lemma_q_spec_unfold(b: BoardModel, t: Tables, alpha: isize, beta: isize, depth: nat, last: nat)
    ensures
        ({
            let moves = moves_of(b, t);
            let initial = eval_spec(b, moves.len(), last);
            let here = q_spec(b, t, alpha, beta, depth, last);
            if depth == 0 || initial >= beta {
                here == (initial, 1nat)
            } else {
                let a = if alpha < initial {
                    initial
                } else {
                    alpha
                };
                let l = q_loop(b, t, moves, 0, a, beta, initial, depth, moves.len());
                here == (l.0, l.1 + 1)
            }
        }),
{
}

/// Quiescence search visits at least the board itself.
proof fn lemma_q_counts(b: BoardModel, t: Tables, alpha: isize, beta: isize, depth: nat, last: nat)
    ensures
        q_spec(b, t, alpha, beta, depth, last).1 >= 1,
{
}

/// `a + b`, held at `usize::MAX`: what a saturating counter that reads `a`
/// reads after `b` more steps.
pub open spec fn sat_count(a: nat, b: nat) -> nat {
    if a + b > usize::MAX {
        usize::MAX as nat
    } else {
        a + b
    }
}

/// What quiescence search asks of a board: each board it may visit can
/// generate its moves, and each capture played is given back exactly.
pub open spec fn q_ok(b: BoardModel, t: Tables, depth: nat) -> bool
    decreases depth,
{
    &&& gen_ok(b, t)
    &&& depth >= 1 ==> forall|i: int|
        0 <= i < moves_of(b, t).len() && #[trigger] moves_of(b, t)[i].ending_square & b.occupancy()
            != 0 ==> make_undo_ok(b, moves_of(b, t)[i]) && q_ok(
            make_spec(b, moves_of(b, t)[i]),
            t,
            (depth - 1) as nat,
        )
}


/// Quiescence search: the static evaluation, improved by captures until no
/// capture helps or the depth runs out. With a timer and a duration, the loop
/// over captures stops once the time is up.
#[verifier::rlimit(100)]
#[verifier::spinoff_prover]
fn quiescence(
    board: &mut BoardState,
    tables: &Tables,
    zob_keys: &ZobKeys,
    alpha: isize,
    beta: isize,
    depth: usize,
    timer: Option<Instant>,
    duration: Option<u128>,
    last_number_moves: usize,
    test_counter: &mut usize,
) -> (r: isize)
    requires
        tables.wf(),
        q_ok(old(board)@, *tables, depth as nat),
    ensures
        final(board)@ == old(board)@,
        *final(test_counter) >= *old(test_counter),
        r >= eval_spec(old(board)@, moves_of(old(board)@, *tables).len(), last_number_moves as nat),
        depth == 0 || eval_spec(old(board)@, moves_of(old(board)@, *tables).len(), last_number_moves as nat)
            >= beta ==> r == eval_spec(
            old(board)@,
            moves_of(old(board)@, *tables).len(),
            last_number_moves as nat,
        ),
        timer.is_none() || duration.is_none() ==> r == q_spec(
            old(board)@,
            *tables,
            alpha,
            beta,
            depth as nat,
            last_number_moves as nat,
        ).0 && *final(test_counter) == sat_count(
            *old(test_counter) as nat,
            q_spec(old(board)@, *tables, alpha, beta, depth as nat, last_number_moves as nat).1,
        ),
    decreases depth,
{
    let ghost b0 = board@;
    let ghost t = *tables;
    let ghost c0 = *test_counter;
    let ghost target = q_spec(b0, t, alpha, beta, depth as nat, last_number_moves as nat);
    let ghost no_timer = timer.is_none() || duration.is_none();
    proof {
        lemma_q_spec_unfold(b0, t, alpha, beta, depth as nat, last_number_moves as nat);
        lemma_q_counts(b0, t, alpha, beta, depth as nat, last_number_moves as nat);
    }
    *test_counter = (*test_counter).saturating_add(1);
    let moves = generate(board, tables);
    let number_moves = moves.len();
    let initial_eval = eval(board, tables, number_moves, last_number_moves);
    proof {
        lemma_moves_of(b0, t, moves@);
        lemma_eval_spec(b0, number_moves as nat, last_number_moves as nat, initial_eval);
    }
    if depth == 0 {
        return initial_eval;
    }
    let mut best_value = initial_eval;
    if initial_eval >= beta {
        return initial_eval;
    }
    let mut a = alpha;
    if a < initial_eval {
        a = initial_eval;
    }
    let mut i: usize = 0;
    let mut stopped = false;
    while i < moves.len() && !stopped
        invariant
            stopped ==> !no_timer,
            best_value >= initial_eval,
            initial_eval < beta,
            initial_eval == eval_spec(b0, moves@.len(), last_number_moves as nat),
            tables.wf(),
            t == *tables,
            depth >= 1,
            i <= moves@.len(),
            moves@ == moves_of(b0, t),
            number_moves == moves@.len(),
            board@ == b0,
            q_ok(b0, t, depth as nat),
            no_timer == (timer.is_none() || duration.is_none()),
            b0 == old(board)@,
            c0 == *old(test_counter),
            target == q_spec(b0, t, alpha, beta, depth as nat, last_number_moves as nat),
            *test_counter >= c0,
            no_timer ==> q_loop(b0, t, moves@, i as int, a, beta, best_value, depth as nat,
                number_moves as nat).0 == target.0 && sat_count(
                *test_counter as nat,
                q_loop(b0, t, moves@, i as int, a, beta, best_value, depth as nat,
                    number_moves as nat).1,
            ) == sat_count(c0 as nat, target.1),
        decreases moves@.len() - i + (if stopped {
            0int
        } else {
            1int
        }),
    {
        proof {
            lemma_q_loop_step(b0, t, moves@, i as int, a, beta, best_value, depth as nat,
                number_moves as nat);
        }
        if timer_check(timer, duration) {
            stopped = true;
            continue;
        }
        let mv = moves[i];
        if mv.ending_square & board.occupancy() == 0 {
            i = i + 1;
            continue;
        }
        proof {
            assert(make_undo_ok(b0, moves@[i as int]));
            lemma_make_stack(b0, mv);
            lemma_unmake_undoes_make(b0, mv);
        }
        let ghost before = *test_counter;
        board.make(&mv);
        let child = quiescence(
            board,
            tables,
            zob_keys,
            saturating_neg(beta),
            saturating_neg(a),
            depth - 1,
            timer,
            duration,
            number_moves,
            test_counter,
        );
        let score = saturating_neg(child);
        board.unmake(&mv);
        if score >= beta {
            return score;
        }
        if score > best_value {
            best_value = score;
        }
        if score > a {
            a = score;
        }
        i = i + 1;

    }
    proof {
        if !stopped {
            lemma_q_loop_end(b0, t, moves@, i as int, a, beta, best_value, depth as nat,
                number_moves as nat);
        }
    }
    best_value
}


/// The value alpha-beta search gives a board, with the number of boards it
/// hands to quiescence search and the number of positions quiescence search
/// visits: without moves, a draw, or a loss worse the sooner it comes when
/// in check; at depth zero, quiescence search's value; else the best negated
/// value of the moves, cut off at `beta`.
pub open spec fn nc_spec(
    b: BoardModel,
    t: Tables,
    alpha: isize,
    beta: isize,
    last: nat,
    depth: nat,
) -> (isize, nat, nat)
    decreases depth, moves_of(b, t).len() + 1,
{
    let moves = moves_of(b, t);
    if moves.len() == 0 {
        if !in_check_spec(b, t, b.white_to_move) {
            (DRAW, 0, 0)
        } else {
            ((-WIN * (depth + 1)) as isize, 0, 0)
        }
    } else if depth == 0 {
        let (v, c) = q_spec(b, t, alpha, beta, 10, moves.len());
        (v, 1, c)
    } else {
        nc_loop(b, t, moves, 0, alpha, beta, depth, moves.len())
    }
}

/// The rest of alpha-beta search's loop over the moves from index `i`.
pub open spec fn nc_loop(
    b: BoardModel,
    t: Tables,
    moves: Seq<MoveRep>,
    i: int,
    alpha: isize,
    beta: isize,
    depth: nat,
    n: nat,
) -> (isize, nat, nat)
    decreases depth, moves.len() - i,
{
    if i >= moves.len() || depth == 0 {
        (alpha, 0, 0)
    } else {
        let (cv, cn, cq) = nc_spec(
            make_spec(b, moves[i]),
            t,
            neg_sat(beta),
            neg_sat(alpha),
            n,
            (depth - 1) as nat,
        );
        let score = neg_sat(cv);
        if score >= beta {
            (beta, cn, cq)
        } else {
            let (v, n2, q2) = nc_loop(
                b,
                t,
                moves,
                i + 1,
                if score > alpha {
                    score
                } else {
                    alpha
                },
                beta,
                depth,
                n,
            );
            (v, cn + n2, cq + q2)
        }
    }
}

/// What alpha-beta search asks of a board: each board it may visit can
/// generate its moves, each move played is given back exactly, each board
/// handed to quiescence search meets what that asks, and the loss value of
/// the depth fits in `isize`.
pub open spec fn nc_ok(b: BoardModel, t: Tables, depth: nat) -> bool
    decreases depth,
{
    &&& gen_ok(b, t)
    &&& WIN * (depth + 1) <= isize::MAX
    &&& depth == 0 ==> q_ok(b, t, 10)
    &&& depth >= 1 ==> forall|i: int|
        0 <= i < moves_of(b, t).len() ==> make_undo_ok(b, #[trigger] moves_of(b, t)[i]) && nc_ok(
            make_spec(b, moves_of(b, t)[i]),
            t,
            (depth - 1) as nat,
        )
}

/// Alpha-beta search below the root: the value of the board for the side to
/// move. With a timer and a duration, it gives a draw once the time is up.
#[verifier::rlimit(100)]
#[verifier::spinoff_prover]
fn negamax_child(
    board: &mut BoardState,
    tables: &Tables,
    zob_keys: &ZobKeys,
    alpha: isize,
    beta: isize,
    last_number_of_moves: usize,
    depth: usize,
    timer: Option<Instant>,
    duration: Option<u128>,
    node_count: &mut usize,
    test_counter: &mut usize,
) -> (r: isize)
    requires
        tables.wf(),
        nc_ok(old(board)@, *tables, depth as nat),
    ensures
        final(board)@ == old(board)@,
        *final(node_count) >= *old(node_count),
        *final(test_counter) >= *old(test_counter),
        moves_of(old(board)@, *tables).len() == 0 ==> r == nc_spec(
            old(board)@,
            *tables,
            alpha,
            beta,
            last_number_of_moves as nat,
            depth as nat,
        ).0,
        moves_of(old(board)@, *tables).len() > 0 && depth == 0 ==> r >= eval_spec(
            old(board)@,
            moves_of(old(board)@, *tables).len(),
            moves_of(old(board)@, *tables).len(),
        ),
        moves_of(old(board)@, *tables).len() > 0 && depth >= 1 && alpha < beta ==> r == DRAW || alpha
            <= r <= beta,
        timer.is_none() || duration.is_none() ==> ({
            let (v, n, q) = nc_spec(
                old(board)@,
                *tables,
                alpha,
                beta,
                last_number_of_moves as nat,
                depth as nat,
            );
            &&& r == v
            &&& *final(node_count) == sat_count(*old(node_count) as nat, n)
            &&& *final(test_counter) == sat_count(*old(test_counter) as nat, q)
        }),
    decreases depth,
{
    let ghost b0 = board@;
    let ghost t = *tables;
    let ghost n0 = *node_count;
    let ghost c0 = *test_counter;
    let ghost no_timer = timer.is_none() || duration.is_none();
    let ghost target = nc_spec(b0, t, alpha, beta, last_number_of_moves as nat, depth as nat);
    let moves = generate(board, tables);
    proof {
        lemma_moves_of(b0, t, moves@);
        lemma_nc_unfold(b0, t, alpha, beta, last_number_of_moves as nat, depth as nat);
    }
    if moves.len() == 0 {
        if board.white_to_move {
            let black_attack_mask = board.black_attack_mask(tables);
            if black_attack_mask & board.white_king == 0 {
                return DRAW;
            } else {
                return -WIN * (depth + 1) as isize;
            }
        } else {
            let white_attack_mask = board.white_attack_mask(tables);
            if white_attack_mask & board.black_king == 0 {
                return DRAW;
            } else {
                return -WIN * (depth + 1) as isize;
            }
        }
    }
    if depth == 0 {
        *node_count = (*node_count).saturating_add(1);
        return quiescence(
            board,
            tables,
            zob_keys,
            alpha,
            beta,
            10,
            timer,
            duration,
            moves.len(),
            test_counter,
        );
    }
    let number_moves = moves.len();
    let mut a = alpha;
    let mut i: usize = 0;
    while i < moves.len()
        invariant
            tables.wf(),
            t == *tables,
            depth >= 1,
            i <= moves@.len(),
            moves@ == moves_of(b0, t),
            number_moves == moves@.len(),
            board@ == b0,
            b0 == old(board)@,
            n0 == *old(node_count),
            c0 == *old(test_counter),
            nc_ok(b0, t, depth as nat),
            no_timer == (timer.is_none() || duration.is_none()),
            target == nc_spec(b0, t, alpha, beta, last_number_of_moves as nat, depth as nat),
            target == nc_loop(b0, t, moves@, 0, alpha, beta, depth as nat, number_moves as nat),
            *node_count >= n0,
            *test_counter >= c0,
            alpha <= a,
            alpha < beta ==> a < beta,
            no_timer ==> ({
                let rest = nc_loop(b0, t, moves@, i as int, a, beta, depth as nat, number_moves as nat);
                &&& rest.0 == target.0
                &&& sat_count(*node_count as nat, rest.1) == sat_count(n0 as nat, target.1)
                &&& sat_count(*test_counter as nat, rest.2) == sat_count(c0 as nat, target.2)
            }),
        decreases moves@.len() - i,
    {
        proof {
            lemma_nc_loop_step(b0, t, moves@, i as int, a, beta, depth as nat, number_moves as nat);
        }
        match (timer, duration) {
            (Some(start), Some(allowed)) => {
                if as_millis(&elapsed(&start)) > allowed {
                    return DRAW;
                }
            },
            _ => {},
        }
        let mv = moves[i];
        proof {
            assert(make_undo_ok(b0, moves@[i as int]));
            lemma_make_stack(b0, mv);
            lemma_unmake_undoes_make(b0, mv);
        }
        board.make(&mv);
        let child = negamax_child(
            board,
            tables,
            zob_keys,
            saturating_neg(beta),
            saturating_neg(a),
            number_moves,
            depth - 1,
            timer,
            duration,
            node_count,
            test_counter,
        );
        let score = saturating_neg(child);
        board.unmake(&mv);
        if score >= beta {
            return beta;
        }
        if score > a {
            a = score;
        }
        i = i + 1;
    }
    proof {
        lemma_nc_loop_end(b0, t, moves@, i as int, a, beta, depth as nat, number_moves as nat);
    }
    a
}

/// Alpha-beta search's first step.
proof fn lemma_nc_unfold(b: BoardModel, t: Tables, alpha: isize, beta: isize, last: nat, depth: nat)
    ensures
        nc_spec(b, t, alpha, beta, last, depth) == (if moves_of(b, t).len() == 0 {
            if !in_check_spec(b, t, b.white_to_move) {
                (DRAW, 0nat, 0nat)
            } else {
                ((-WIN * (depth + 1)) as isize, 0nat, 0nat)
            }
        } else if depth == 0 {
            let (v, c) = q_spec(b, t, alpha, beta, 10, moves_of(b, t).len());
            (v, 1nat, c)
        } else {
            nc_loop(b, t, moves_of(b, t), 0, alpha, beta, depth, moves_of(b, t).len())
        }),
{
}

/// One step of alpha-beta search's loop.
proof fn lemma_nc_loop_step(
    b: BoardModel,
    t: Tables,
    moves: Seq<MoveRep>,
    i: int,
    alpha: isize,
    beta: isize,
    depth: nat,
    n: nat,
)
    requires
        0 <= i < moves.len(),
        depth >= 1,
    ensures
        ({
            let (cv, cn, cq) = nc_spec(
                make_spec(b, moves[i]),
                t,
                neg_sat(beta),
                neg_sat(alpha),
                n,
                (depth - 1) as nat,
            );
            let score = neg_sat(cv);
            let here = nc_loop(b, t, moves, i, alpha, beta, depth, n);
            if score >= beta {
                here == (beta, cn, cq)
            } else {
                let next = nc_loop(
                    b,
                    t,
                    moves,
                    i + 1,
                    if score > alpha {
                        score
                    } else {
                        alpha
                    },
                    beta,
                    depth,
                    n,
                );
                here == (next.0, cn + next.1, cq + next.2)
            }
        }),
{
}

/// The end of alpha-beta search's loop gives the window's lower bound.
proof fn lemma_nc_loop_end(
    b: BoardModel,
    t: Tables,
    moves: Seq<MoveRep>,
    i: int,
    alpha: isize,
    beta: isize,
    depth: nat,
    n: nat,
)
    requires
        i >= moves.len(),
    ensures
        nc_loop(b, t, moves, i, alpha, beta, depth, n) == (alpha, 0nat, 0nat),
{
}


/// The root of alpha-beta search from index `i`: the first move whose
/// negated value is the best so far, with the counts of the boards handed to
/// quiescence search and of the positions it visits.
pub open spec fn nm_loop(
    b: BoardModel,
    t: Tables,
    moves: Seq<MoveRep>,
    i: int,
    alpha: isize,
    best: MoveRep,
    depth: nat,
    n: nat,
) -> (MoveRep, nat, nat)
    decreases moves.len() - i,
{
    if i >= moves.len() || depth == 0 {
        (best, 0, 0)
    } else {
        let (cv, cn, cq) = nc_spec(
            make_spec(b, moves[i]),
            t,
            neg_sat(isize::MAX),
            neg_sat(alpha),
            n,
            (depth - 1) as nat,
        );
        let score = neg_sat(cv);
        if score > alpha && score >= isize::MAX {
            (moves[i], cn, cq)
        } else {
            let next = if score > alpha {
                nm_loop(b, t, moves, i + 1, score, moves[i], depth, n)
            } else {
                nm_loop(b, t, moves, i + 1, alpha, best, depth, n)
            };
            (next.0, cn + next.1, cq + next.2)
        }
    }
}

/// The move alpha-beta search picks at the root, with its counts.
pub open spec fn nm_spec(b: BoardModel, t: Tables, depth: nat) -> (MoveRep, nat, nat) {
    let moves = moves_of(b, t);
    nm_loop(b, t, moves, 0, isize::MIN, moves[0], depth, moves.len())
}

/// What alpha-beta search asks of the root: it has a move, every move is
/// given back exactly, and every board after a move meets what the search
/// below asks.
pub open spec fn nm_ok(b: BoardModel, t: Tables, depth: nat) -> bool {
    &&& depth >= 1
    &&& gen_ok(b, t)
    &&& moves_of(b, t).len() > 0
    &&& forall|i: int|
        0 <= i < moves_of(b, t).len() ==> make_undo_ok(b, #[trigger] moves_of(b, t)[i]) && nc_ok(
            make_spec(b, moves_of(b, t)[i]),
            t,
            (depth - 1) as nat,
        )
}

/// Alpha-beta search at the root: the best move for the side to move,
/// searched `depth` plies deep, the moves tried in the order generation gives
/// them. With a timer and a duration, the search below gives draws once the
/// time is up.
#[verifier::rlimit(100)]
#[verifier::spinoff_prover]
pub fn negamax(
    board: &mut BoardState,
    tables: &Tables,
    zob_keys: &ZobKeys,
    depth: usize,
    timer: Option<Instant>,
    duration: Option<u128>,
    test_counter: &mut usize,
) -> (r: Result<MoveRep, String>)
    requires
        tables.wf(),
        nm_ok(old(board)@, *tables, depth as nat),
    ensures
        final(board)@ == old(board)@,
        r is Ok,
        r matches Ok(mv) && moves_of(old(board)@, *tables).contains(mv),
        *final(test_counter) >= *old(test_counter),
        timer.is_none() || duration.is_none() ==> r == Ok::<MoveRep, String>(
            nm_spec(old(board)@, *tables, depth as nat).0,
        ) && *final(test_counter) == sat_count(
            *old(test_counter) as nat,
            nm_spec(old(board)@, *tables, depth as nat).2,
        ),
{
    let ghost b0 = board@;
    let ghost t = *tables;
    let ghost c0 = *test_counter;
    let ghost no_timer = timer.is_none() || duration.is_none();
    let moves = generate(board, tables);
    proof {
        lemma_moves_of(b0, t, moves@);
    }
    let ghost target = nm_spec(b0, t, depth as nat);
    let number_moves = moves.len();
    let mut best_move = moves[0];
    let ghost mut chosen: int = 0;
    let mut alpha = isize::MIN;
    let beta = isize::MAX;
    let mut node_count: usize = 0;
    let mut i: usize = 0;
    while i < moves.len()
        invariant
            tables.wf(),
            t == *tables,
            depth >= 1,
            beta == isize::MAX,
            i <= moves@.len(),
            moves@ == moves_of(b0, t),
            number_moves == moves@.len(),
            board@ == b0,
            b0 == old(board)@,
            c0 == *old(test_counter),
            nm_ok(b0, t, depth as nat),
            no_timer == (timer.is_none() || duration.is_none()),
            0 <= chosen < moves@.len(),
            best_move == moves@[chosen],
            target == nm_spec(b0, t, depth as nat),
            *test_counter >= c0,
            no_timer ==> ({
                let rest = nm_loop(b0, t, moves@, i as int, alpha, best_move, depth as nat,
                    number_moves as nat);
                &&& rest.0 == target.0
                &&& sat_count(*test_counter as nat, rest.2) == sat_count(c0 as nat, target.2)
            }),
        decreases moves@.len() - i,
    {
        let mv = moves[i];
        proof {
            lemma_nm_loop_step(b0, t, moves@, i as int, alpha, best_move, depth as nat,
                number_moves as nat);
            lemma_nc_loop_step(b0, t, moves@, i as int, alpha, beta, depth as nat,
                number_moves as nat);
            assert(make_undo_ok(b0, moves@[i as int]));
            lemma_make_stack(b0, mv);
            lemma_unmake_undoes_make(b0, mv);
        }
        board.make(&mv);
        let child = negamax_child(
            board,
            tables,
            zob_keys,
            saturating_neg(beta),
            saturating_neg(alpha),
            number_moves,
            depth - 1,
            timer,
            duration,
            &mut node_count,
            test_counter,
        );
        let score = saturating_neg(child);
        board.unmake(&mv);
        if score > alpha {
            alpha = score;
            if alpha >= beta {
                assert(moves@[i as int] == mv);
                return Ok(mv);
            }
            best_move = mv;
            proof {
                chosen = i as int;
            }
        }
        i = i + 1;
    }
    proof {
        lemma_nm_loop_end(b0, t, moves@, i as int, alpha, best_move, depth as nat,
            number_moves as nat);
        lemma_nc_loop_end(b0, t, moves@, i as int, alpha, beta, depth as nat, number_moves as nat);
    }
    assert(moves@[chosen] == best_move);
    Ok(best_move)
}

/// One step of alpha-beta search's root loop.
proof fn lemma_nm_loop_step(
    b: BoardModel,
    t: Tables,
    moves: Seq<MoveRep>,
    i: int,
    alpha: isize,
    best: MoveRep,
    depth: nat,
    n: nat,
)
    requires
        0 <= i < moves.len(),
        depth >= 1,
    ensures
        ({
            let (cv, cn, cq) = nc_spec(
                make_spec(b, moves[i]),
                t,
                neg_sat(isize::MAX),
                neg_sat(alpha),
                n,
                (depth - 1) as nat,
            );
            let score = neg_sat(cv);
            let here = nm_loop(b, t, moves, i, alpha, best, depth, n);
            if score > alpha && score >= isize::MAX {
                here == (moves[i], cn, cq)
            } else {
                let next = if score > alpha {
                    nm_loop(b, t, moves, i + 1, score, moves[i], depth, n)
                } else {
                    nm_loop(b, t, moves, i + 1, alpha, best, depth, n)
                };
                here == (next.0, cn + next.1, cq + next.2)
            }
        }),
{
}

/// The end of the root loop gives the best move found.
proof fn lemma_nm_loop_end(
    b: BoardModel,
    t: Tables,
    moves: Seq<MoveRep>,
    i: int,
    alpha: isize,
    best: MoveRep,
    depth: nat,
    n: nat,
)
    requires
        i >= moves.len(),
    ensures
        nm_loop(b, t, moves, i, alpha, best, depth, n) == (best, 0nat, 0nat),
{
}


/// What iterative deepening asks of the board: alpha-beta search can run at
/// every depth from one to `depth`.
pub open spec fn id_ok(b: BoardModel, t: Tables, depth: nat) -> bool {
    forall|d: nat| 1 <= d <= depth ==> #[trigger] nm_ok(b, t, d)
}

/// Iterative deepening: searches at depth one, then one ply deeper each time,
/// keeping the best move of each search that ended before the time allowed
/// ran out, and stops at the first that did not or after the search at
/// `depth`. Without a timer and a duration it gives the move that a search
/// at `depth` gives.
pub fn id_search(
    board: &mut BoardState,
    tables: &Tables,
    zob_keys: &ZobKeys,
    depth: usize,
    timer: Option<Instant>,
    duration: Option<u128>,
    node_count: &mut usize,
) -> (r: MoveRep)
    requires
        tables.wf(),
        depth >= 1,
        id_ok(old(board)@, *tables, depth as nat),
    ensures
        final(board)@ == old(board)@,
        *final(node_count) == *old(node_count),
        moves_of(old(board)@, *tables).contains(r),
        depth == 1 ==> r == nm_spec(old(board)@, *tables, 1).0,
        timer.is_none() || duration.is_none() ==> r == nm_spec(
            old(board)@,
            *tables,
            depth as nat,
        ).0,
{
    let ghost b0 = board@;
    let ghost t = *tables;
    let ghost no_timer = timer.is_none() || duration.is_none();
    assert(nm_ok(b0, t, 1));
    let mut counter: usize = 0;
    let first = negamax(board, tables, zob_keys, 1, None, None, &mut counter);
    let mut best_move = first.unwrap();
    let mut current_depth: usize = 1;
    let mut out_of_time = false;
    while current_depth < depth && !out_of_time
        invariant
            tables.wf(),
            t == *tables,
            board@ == b0,
            1 <= current_depth <= depth,
            id_ok(b0, t, depth as nat),
            no_timer == (timer.is_none() || duration.is_none()),
            no_timer ==> !out_of_time && best_move == nm_spec(b0, t, current_depth as nat).0,
            moves_of(b0, t).contains(best_move),
            depth == 1 ==> best_move == nm_spec(b0, t, 1).0,
        decreases depth - current_depth,
    {
        current_depth = current_depth + 1;
        assert(nm_ok(b0, t, current_depth as nat));
        let mut counter: usize = 0;
        let possible_best = negamax(
            board,
            tables,
            zob_keys,
            current_depth,
            timer,
            duration,
            &mut counter,
        );
        if timer_check(timer, duration) {
            out_of_time = true;
        } else {
            best_move = possible_best.unwrap();
        }
    }
    best_move
}


/// The value of quiescence search without pruning: the static evaluation,
/// and at a depth above zero the best of it and the negated values of the
/// captures.
pub open spec fn q_value(b: BoardModel, t: Tables, depth: nat, last: nat) -> isize
    decreases depth, moves_of(b, t).len() + 1,
{
    let moves = moves_of(b, t);
    let initial = eval_spec(b, moves.len(), last);
    if depth == 0 {
        initial
    } else {
        q_value_loop(b, t, moves, 0, initial, depth, moves.len())
    }
}

/// The best of `best` and the negated full values of the captures among the
/// moves from index `i`.
pub open spec fn q_value_loop(
    b: BoardModel,
    t: Tables,
    moves: Seq<MoveRep>,
    i: int,
    best: isize,
    depth: nat,
    n: nat,
) -> isize
    decreases depth, moves.len() - i,
{
    if i >= moves.len() || depth == 0 {
        best
    } else if moves[i].ending_square & b.occupancy() == 0 {
        q_value_loop(b, t, moves, i + 1, best, depth, n)
    } else {
        let s = neg_sat(q_value(make_spec(b, moves[i]), t, (depth - 1) as nat, n));
        q_value_loop(b, t, moves, i + 1, if s > best { s } else { best }, depth, n)
    }
}

/// What a search inside the window `(alpha, beta)` may return for a position
/// whose full value is `v`: at most `alpha` when `v` is, at least `beta`
/// when `v` is, and `v` itself when it lies inside the window.
pub open spec fn window_ok(r: isize, v: isize, alpha: isize, beta: isize) -> bool {
    &&& v <= alpha ==> r <= alpha
    &&& v >= beta ==> r >= beta
    &&& alpha < v < beta ==> r == v
}

/// A result within the negated window, negated, is within the window.
proof fn lemma_window_negated(r: isize, v: isize, alpha: isize, beta: isize)
    requires
        alpha < beta,
        beta > isize::MIN + 1,
        window_ok(r, v, neg_sat(beta), neg_sat(alpha)),
    ensures
        neg_sat(beta) < neg_sat(alpha),
        neg_sat(alpha) > isize::MIN + 1,
        window_ok(neg_sat(r), neg_sat(v), alpha, beta),
{
}

/// A running best only grows.
proof fn lemma_q_value_loop_grows(
    b: BoardModel,
    t: Tables,
    moves: Seq<MoveRep>,
    i: int,
    best: isize,
    depth: nat,
    n: nat,
)
    ensures
        q_value_loop(b, t, moves, i, best, depth, n) >= best,
    decreases moves.len() - i,
{
    if i < moves.len() && depth > 0 {
        if moves[i].ending_square & b.occupancy() == 0 {
            lemma_q_value_loop_grows(b, t, moves, i + 1, best, depth, n);
        } else {
            let s = neg_sat(q_value(make_spec(b, moves[i]), t, (depth - 1) as nat, n));
            lemma_q_value_loop_grows(b, t, moves, i + 1, if s > best { s } else { best }, depth, n);
        }
    }
}

/// Quiescence search keeps to the window property: what it returns inside
/// the window `(alpha, beta)` is the value it would find without pruning,
/// and outside the window it is on the same side as that value.
pub proof fn lemma_q_window(b: BoardModel, t: Tables, alpha: isize, beta: isize, depth: nat, last: nat)
    requires
        alpha < beta,
        beta > isize::MIN + 1,
    ensures
        window_ok(q_spec(b, t, alpha, beta, depth, last).0, q_value(b, t, depth, last), alpha, beta),
    decreases depth, moves_of(b, t).len() + 1,
{
    let moves = moves_of(b, t);
    let initial = eval_spec(b, moves.len(), last);
    if depth > 0 {
        lemma_q_value_loop_grows(b, t, moves, 0, initial, depth, moves.len());
        if initial < beta {
            let a = if alpha < initial {
                initial
            } else {
                alpha
            };
            lemma_q_loop_window(b, t, moves, 0, a, beta, initial, initial, depth, moves.len());
        }
    }
}

/// The loop of quiescence search keeps to the window property, and never
/// returns less than its running best.
proof fn lemma_q_loop_window(
    b: BoardModel,
    t: Tables,
    moves: Seq<MoveRep>,
    i: int,
    alpha: isize,
    beta: isize,
    best: isize,
    value_best: isize,
    depth: nat,
    n: nat,
)
    requires
        moves == moves_of(b, t),
        best <= alpha < beta,
        value_best <= alpha,
        beta > isize::MIN + 1,
    ensures
        q_loop(b, t, moves, i, alpha, beta, best, depth, n).0 >= best,
        window_ok(
            q_loop(b, t, moves, i, alpha, beta, best, depth, n).0,
            q_value_loop(b, t, moves, i, value_best, depth, n),
            alpha,
            beta,
        ),
    decreases depth, moves.len() - i,
{
    if i < moves.len() && depth > 0 {
        let mv = moves[i];
        if mv.ending_square & b.occupancy() == 0 {
            lemma_q_loop_window(b, t, moves, i + 1, alpha, beta, best, value_best, depth, n);
        } else {
            let child = make_spec(b, mv);
            lemma_q_window(child, t, neg_sat(beta), neg_sat(alpha), (depth - 1) as nat, n);
            lemma_window_negated(
                q_spec(child, t, neg_sat(beta), neg_sat(alpha), (depth - 1) as nat, n).0,
                q_value(child, t, (depth - 1) as nat, n),
                alpha,
                beta,
            );
            let score = neg_sat(q_spec(child, t, neg_sat(beta), neg_sat(alpha), (depth - 1) as nat, n).0);
            let s = neg_sat(q_value(child, t, (depth - 1) as nat, n));
            let vb = if s > value_best { s } else { value_best };
            lemma_q_value_loop_grows(b, t, moves, i + 1, vb, depth, n);
            if score < beta {
                let a2 = if score > alpha { score } else { alpha };
                let b2 = if score > best { score } else { best };
                lemma_q_loop_window(b, t, moves, i + 1, a2, beta, b2, vb, depth, n);
            }
        }
    }
}


/// The value of alpha-beta search without pruning: a draw or a loss
/// (sooner losses worse) without moves, the full quiescence value at depth
/// zero, else the best negated value of the moves.
pub open spec fn nc_value(b: BoardModel, t: Tables, last: nat, depth: nat) -> isize
    decreases depth, moves_of(b, t).len() + 1,
{
    let moves = moves_of(b, t);
    if moves.len() == 0 {
        if !in_check_spec(b, t, b.white_to_move) {
            DRAW
        } else {
            (-WIN * (depth + 1)) as isize
        }
    } else if depth == 0 {
        q_value(b, t, 10, moves.len())
    } else {
        nc_value_loop(b, t, moves, 0, depth, moves.len())
    }
}

/// The best negated full value of the moves from index `i` (the least
/// value when there are none).
pub open spec fn nc_value_loop(
    b: BoardModel,
    t: Tables,
    moves: Seq<MoveRep>,
    i: int,
    depth: nat,
    n: nat,
) -> isize
    decreases depth, moves.len() - i,
{
    if i >= moves.len() || depth == 0 {
        isize::MIN
    } else {
        let s = neg_sat(nc_value(make_spec(b, moves[i]), t, n, (depth - 1) as nat));
        let rest = nc_value_loop(b, t, moves, i + 1, depth, n);
        if s > rest {
            s
        } else {
            rest
        }
    }
}

/// `v` held within `[lo, hi]`.
pub open spec fn clamp(v: isize, lo: isize, hi: isize) -> isize {
    if v <= lo {
        lo
    } else if v >= hi {
        hi
    } else {
        v
    }
}

/// Alpha-beta search keeps to the window property: what it returns inside
/// the window `(alpha, beta)` is the negamax value it would find without
/// pruning, and outside the window it is on the same side as that value.
pub proof fn lemma_nc_window(b: BoardModel, t: Tables, alpha: isize, beta: isize, last: nat, depth: nat)
    requires
        alpha < beta,
        beta > isize::MIN + 1,
    ensures
        window_ok(nc_spec(b, t, alpha, beta, last, depth).0, nc_value(b, t, last, depth), alpha, beta),
    decreases depth, moves_of(b, t).len() + 1,
{
    let moves = moves_of(b, t);
    if moves.len() > 0 {
        if depth == 0 {
            lemma_q_window(b, t, alpha, beta, 10, moves.len());
        } else {
            lemma_nc_loop_clamp(b, t, moves, 0, alpha, beta, depth, moves.len());
        }
    }
}

/// The loop of alpha-beta search gives the full value held within the
/// window.
proof fn lemma_nc_loop_clamp(
    b: BoardModel,
    t: Tables,
    moves: Seq<MoveRep>,
    i: int,
    alpha: isize,
    beta: isize,
    depth: nat,
    n: nat,
)
    requires
        moves == moves_of(b, t),
        alpha < beta,
        beta > isize::MIN + 1,
        depth >= 1,
    ensures
        nc_loop(b, t, moves, i, alpha, beta, depth, n).0 == clamp(
            nc_value_loop(b, t, moves, i, depth, n),
            alpha,
            beta,
        ),
    decreases depth, moves.len() - i,
{
    if i < moves.len() {
        let child = make_spec(b, moves[i]);
        lemma_nc_window(child, t, neg_sat(beta), neg_sat(alpha), n, (depth - 1) as nat);
        lemma_window_negated(
            nc_spec(child, t, neg_sat(beta), neg_sat(alpha), n, (depth - 1) as nat).0,
            nc_value(child, t, n, (depth - 1) as nat),
            alpha,
            beta,
        );
        let score = neg_sat(nc_spec(child, t, neg_sat(beta), neg_sat(alpha), n, (depth - 1) as nat).0);
        if score < beta {
            let a2 = if score > alpha { score } else { alpha };
            lemma_nc_loop_clamp(b, t, moves, i + 1, a2, beta, depth, n);
        }
    }
}


/// The full negamax score of the `j`-th move at the root: the negated value,
/// without pruning, of the board after it.
pub open spec fn root_score(b: BoardModel, t: Tables, depth: nat, j: int) -> isize {
    let moves = moves_of(b, t);
    neg_sat(nc_value(make_spec(b, moves[j]), t, moves.len(), (depth - 1) as nat))
}

/// The root loop picks the first move of greatest full score.
proof fn lemma_nm_loop_best(
    b: BoardModel,
    t: Tables,
    moves: Seq<MoveRep>,
    i: int,
    alpha: isize,
    best: MoveRep,
    chosen: int,
    depth: nat,
    n: nat,
)
    requires
        moves == moves_of(b, t),
        n == moves.len(),
        moves.len() > 0,
        depth >= 1,
        0 <= i <= moves.len(),
        0 <= chosen < moves.len(),
        best == moves[chosen],
        alpha < isize::MAX,
        i == 0 ==> alpha == isize::MIN && chosen == 0,
        i > 0 ==> {
            &&& chosen < i
            &&& alpha == root_score(b, t, depth, chosen)
            &&& forall|k: int| 0 <= k < i ==> #[trigger] root_score(b, t, depth, k) <= alpha
            &&& forall|k: int| 0 <= k < chosen ==> #[trigger] root_score(b, t, depth, k) < alpha
        },
    ensures
        exists|j: int|
            0 <= j < moves.len() && nm_loop(b, t, moves, i, alpha, best, depth, n).0 == moves[j]
                && (forall|k: int|
                0 <= k < moves.len() ==> #[trigger] root_score(b, t, depth, k) <= root_score(
                    b,
                    t,
                    depth,
                    j,
                )) && (forall|k: int|
                0 <= k < j ==> #[trigger] root_score(b, t, depth, k) < root_score(b, t, depth, j)),
    decreases moves.len() - i,
{
    if i >= moves.len() {
        assert(nm_loop(b, t, moves, i, alpha, best, depth, n).0 == moves[chosen]);
    } else {
        let child = make_spec(b, moves[i]);
        let d1 = (depth - 1) as nat;
        lemma_nc_window(child, t, neg_sat(isize::MAX), neg_sat(alpha), n, d1);
        lemma_window_negated(
            nc_spec(child, t, neg_sat(isize::MAX), neg_sat(alpha), n, d1).0,
            nc_value(child, t, n, d1),
            alpha,
            isize::MAX,
        );
        let score = neg_sat(nc_spec(child, t, neg_sat(isize::MAX), neg_sat(alpha), n, d1).0);
        let si = root_score(b, t, depth, i);
        assert(si == neg_sat(nc_value(child, t, n, d1)));
        if score > alpha && score >= isize::MAX {
            assert(si == isize::MAX);
            assert(nm_loop(b, t, moves, i, alpha, best, depth, n).0 == moves[i]);
            assert forall|k: int| 0 <= k < i implies #[trigger] root_score(b, t, depth, k) < si by {
            }
        } else if score > alpha {
            assert(si == score);
            lemma_nm_loop_best(b, t, moves, i + 1, score, moves[i], i, depth, n);
        } else {
            assert(si <= alpha);
            lemma_nm_loop_best(b, t, moves, i + 1, alpha, best, chosen, depth, n);
        }
    }
}

/// Pruning does not change the move found: the move alpha-beta search picks
/// at the root (with no clock) is the first move, in the order generation
/// gives them, whose full-width negamax score is the greatest.
pub proof fn lemma_alpha_beta_picks_best(b: BoardModel, t: Tables, depth: nat)
    requires
        depth >= 1,
        moves_of(b, t).len() > 0,
    ensures
        exists|j: int|
            0 <= j < moves_of(b, t).len() && nm_spec(b, t, depth).0 == moves_of(b, t)[j] && (forall|
                k: int,
            |
                0 <= k < moves_of(b, t).len() ==> #[trigger] root_score(b, t, depth, k)
                    <= root_score(b, t, depth, j)) && (forall|k: int|
                0 <= k < j ==> #[trigger] root_score(b, t, depth, k) < root_score(b, t, depth, j)),
{
    let moves = moves_of(b, t);
    lemma_nm_loop_best(b, t, moves, 0, isize::MIN, moves[0], 0, depth, moves.len());
}


} // verus!
