use vstd::prelude::*;
use crate::division::{CompetitionLevel, level_quarters};

verus! {

/// Fantasy points for a placement in a division.
pub open spec fn placement_points(placement: int) -> int {
    if placement == 1 {
        100
    } else if placement == 2 {
        85
    } else if placement == 3 {
        75
    } else if placement == 4 {
        69
    } else if placement == 5 {
        64
    } else if placement == 6 {
        60
    } else if placement == 7 {
        57
    } else if 8 <= placement <= 20 {
        54 - (placement - 8) * 2
    } else if 21 <= placement <= 48 {
        50 - placement
    } else if 49 <= placement <= 50 {
        2
    } else {
        0
    }
}

/// Points awarded for a placement: 100 for the winner, falling to 2 at places 49 and 50, and
/// nothing from place 51 on (nor for the unplaced value 0).
pub fn placement_to_score(placement: u16) -> (score: u16)
    ensures
        score == placement_points(placement as int),
{
    match placement {
        1 => 100,
        2 => 85,
        3 => 75,
        4 => 69,
        5 => 64,
        6 => 60,
        7 => 57,
        8..=20 => 54 - (placement - 8) * 2,
        21..=48 => 50 - placement,
        49..=50 => 2,
        _ => 0,
    }
}

/// How many other players share a player's placement.
#[derive(Clone, Copy, Debug, PartialEq, Eq, Structural)]
pub enum Tied {
    Tied(usize),
    NotTied,
}

/// The sum of the points of placements `placement`, `placement + 1`, ..., `placement + extra`.
pub open spec fn tie_points_sum(placement: int, extra: int) -> int
    decreases extra,
{
    if extra < 0 {
        0
    } else if extra == 0 {
        placement_points(placement)
    } else {
        tie_points_sum(placement, extra - 1) + placement_points(placement + extra)
    }
}

/// The points of a placement before the level is applied: tied players share the places they
/// occupy, each getting the rounded-down average of their points.
pub open spec fn round_points(placement: int, tied: Tied) -> int {
    match tied {
        Tied::Tied(others) => tie_points_sum(placement, others as int) / (others + 1),
        Tied::NotTied => placement_points(placement),
    }
}

/// Points scaled by the level's multiplier, rounded to the nearest whole point (halves up).
pub open spec fn level_points(points: int, level: CompetitionLevel) -> int {
    (points * level_quarters(level) + 2) / 4
}

/// The fantasy points of a placement in a competition of a given level.
pub open spec fn fantasy_points(placement: int, tied: Tied, level: CompetitionLevel) -> int {
    level_points(round_points(placement, tied), level)
}

pub open spec fn tie_fits(placement: int, tied: Tied) -> bool {
    match tied {
        Tied::Tied(others) => placement + others <= u16::MAX,
        Tied::NotTied => true,
    }
}

proof fn lemma_tie_sum_bounds(placement: int, extra: int)
    requires
        extra >= 0,
    ensures
        0 <= tie_points_sum(placement, extra) <= 100 * (extra + 1),
    decreases extra,
{
    if extra > 0 {
        lemma_tie_sum_bounds(placement, extra - 1);
    }
}

/// The points of a placement, before the level, averaged over a tie.
pub fn tied_round_points(placement: u16, tied: Tied) -> (points: u32)
    requires
        tie_fits(placement as int, tied),
    ensures
        points == round_points(placement as int, tied),
        points <= 100,
{
    match tied {
        Tied::Tied(others) => {
            let mut sum: u32 = 0;
            let mut i: usize = 0;
            while i <= others
                invariant
                    placement as int + others <= u16::MAX,
                    i <= others + 1,
                    sum == tie_points_sum(placement as int, i - 1),
                decreases others + 1 - i,
            {
                proof {
                    lemma_tie_sum_bounds(placement as int, i as int);
                }
                sum = sum + placement_to_score(placement + i as u16) as u32;
                i = i + 1;
            }
            let count = (others + 1) as u32;
            proof {
                lemma_tie_sum_bounds(placement as int, others as int);
                assert(sum / count <= 100) by (nonlinear_arith)
                    requires
                        sum <= 100 * count,
                        count >= 1,
                ;
            }
            sum / count
        },
        Tied::NotTied => placement_to_score(placement) as u32,
    }
}

/// Points scaled by a competition level and rounded to a whole number (halves up).
pub fn apply_level(points: u32, level: CompetitionLevel) -> (scaled: u16)
    requires
        points <= 100,
    ensures
        scaled == level_points(points as int, level),
        scaled <= 200,
{
    let q = level.multiplier_quarters() as u32;
    assert(points * q <= 800) by (nonlinear_arith)
        requires
            points <= 100,
            q <= 8,
    ;
    let scaled = (points * q + 2) / 4;
    scaled as u16
}

/// The fantasy points a placement earns in a competition of a given level.
pub fn user_score(placement: u16, tied: Tied, level: CompetitionLevel) -> (score: u16)
    requires
        tie_fits(placement as int, tied),
    ensures
        score == fantasy_points(placement as int, tied, level),
        score <= 200,
{
    let points = tied_round_points(placement, tied);
    apply_level(points, level)
}

/// A better (smaller, non-zero) placement never earns fewer points.
pub proof fn law_points_never_rise_with_placement(better: int, worse: int)
    requires
        1 <= better <= worse,
    ensures
        placement_points(worse) <= placement_points(better),
{
}

/// The winner earns 100 points, and no placement earns more.
pub proof fn law_points_bounded(placement: int)
    ensures
        0 <= placement_points(placement) <= 100,
        placement_points(1) == 100,
        placement > 50 || placement < 1 ==> placement_points(placement) == 0,
{
}

/// Tied players earn no more than the best of the places they share and no less than the
/// worst.
pub proof fn law_tie_between_shared_places(placement: int, others: usize)
    requires
        placement >= 1,
    ensures
        placement_points(placement + others) <= round_points(placement, Tied::Tied(others))
            <= placement_points(placement),
{
    lemma_tie_sum_between(placement, others as int);
    let s = tie_points_sum(placement, others as int);
    let n = others + 1;
    let lo = placement_points(placement + others);
    let hi = placement_points(placement);
    assert(lo <= s / n <= hi) by (nonlinear_arith)
        requires
            n >= 1,
            lo * n <= s <= hi * n,
    ;
}

proof fn lemma_tie_sum_between(placement: int, extra: int)
    requires
        placement >= 1,
        extra >= 0,
    ensures
        placement_points(placement + extra) * (extra + 1) <= tie_points_sum(placement, extra)
            <= placement_points(placement) * (extra + 1),
    decreases extra,
{
    if extra > 0 {
        lemma_tie_sum_between(placement, extra - 1);
        law_points_never_rise_with_placement(placement + extra - 1, placement + extra);
        law_points_never_rise_with_placement(placement, placement + extra);
        let a = placement_points(placement + extra);
        let b = placement_points(placement + extra - 1);
        let hi = placement_points(placement);
        let prev = tie_points_sum(placement, extra - 1);
        assert(tie_points_sum(placement, extra) == prev + a);
        assert(a * (extra + 1) <= prev + a && prev + a <= hi * (extra + 1)) by (nonlinear_arith)
            requires
                a <= b,
                a <= hi,
                extra >= 1,
                b * extra <= prev,
                prev <= hi * extra,
        ;
    }
}

/// A tie with nobody else is scored as the plain placement.
pub proof fn law_tie_of_one_is_placement(placement: int)
    ensures
        round_points(placement, Tied::Tied(0)) == placement_points(placement),
{
    let s = tie_points_sum(placement, 0);
    assert(s / 1 == s);
}

/// Elite competitions score the plain points; majors double them.
pub proof fn law_level_scaling(points: int)
    requires
        points >= 0,
    ensures
        level_points(points, CompetitionLevel::Elite) == points,
        level_points(points, CompetitionLevel::Major) == 2 * points,
        level_points(points, CompetitionLevel::Silver) <= points,
{
}

} // verus!
