//! GF3258 point-neighborhood support and status rehabilitation.
use vstd::prelude::*;

use crate::arith;
use crate::text;

verus! {

pub const GF3258_POINT_SUPPORT_REVISION: &'static str = "gf3258-bdd40-v1";

pub const GF3258_FEATURE_POINT_STRIDE: usize = 0x3c;

/// Neighbours farther than this squared distance do not count.
pub const GF3258_SUPPORT_MAX_DISTANCE_SQ: i32 = 0xff;

/// Neighbours of higher quality count one and a half times.
pub const GF3258_SUPPORT_QUALITY_BOOST_THRESHOLD: i8 = 0x32;

pub const GF3258_SUPPORT_MAX: u8 = 100;

/// Weight of a neighbour, indexed by `255 - distance_squared`.
pub const GF3258_SUPPORT_PROXIMITY_TABLE: [i32; 256] = [
    1, 1, 1, 1, 1, 1, 1, 1, 1, 1, 1, 1, 2, 2, 2, 2, 2, 2, 2, 2, 2, 2, 2, 2, 2, 2, 2, 2, 2, 3, 3, 3,
    3, 3, 3, 3, 3, 3, 3, 3, 3, 3, 4, 4, 4, 4, 4, 4, 4, 4, 4, 4, 4, 5, 5, 5, 5, 5, 5, 5, 5, 5, 6, 6,
    6, 6, 6, 6, 6, 6, 7, 7, 7, 7, 7, 7, 7, 8, 8, 8, 8, 8, 8, 8, 9, 9, 9, 9, 9, 9, 10, 10, 10, 10,
    10, 10, 11, 11, 11, 11, 11, 12, 12, 12, 12, 12, 12, 13, 13, 13, 13, 13, 14, 14, 14, 14, 14, 15,
    15, 15, 15, 16, 16, 16, 16, 16, 17, 17, 17, 17, 18, 18, 18, 18, 18, 19, 19, 19, 19, 20, 20, 20,
    20, 21, 21, 21, 21, 22, 22, 22, 22, 22, 23, 23, 23, 23, 24, 24, 24, 24, 25, 25, 25, 25, 26, 26,
    26, 26, 27, 27, 27, 27, 28, 28, 28, 28, 28, 29, 29, 29, 29, 30, 30, 30, 30, 31, 31, 31, 31, 31,
    32, 32, 32, 32, 32, 33, 33, 33, 33, 33, 34, 34, 34, 34, 34, 35, 35, 35, 35, 35, 35, 36, 36, 36,
    36, 36, 36, 36, 37, 37, 37, 37, 37, 37, 37, 38, 38, 38, 38, 38, 38, 38, 38, 38, 38, 39, 39, 39,
    39, 39, 39, 39, 39, 39, 39, 39, 39, 39, 39, 39, 39, 39, 39, 39, 39, 39,
];

/// Position of a feature point in Q8.
#[derive(Debug, Clone, Copy, PartialEq, Eq)]
pub struct Gf3258SupportPoint {
    pub x_q8: u16,
    pub y_q8: u16,
}

impl Gf3258SupportPoint {
    pub fn x_integer(self) -> (x: u8)
        ensures
            x == self.x_q8 / 256,
    {
        (self.x_q8 / 256) as u8
    }

    pub fn y_integer(self) -> (y: u8)
        ensures
            y == self.y_q8 / 256,
    {
        (self.y_q8 / 256) as u8
    }
}

#[derive(Debug, Clone, PartialEq, Eq)]
pub struct Gf3258PointSupportResult {
    pub neighborhood_support: Vec<u8>,
    /// Averages kept as bytes; callers read them as signed.
    pub neighborhood_average: Vec<u8>,
}

#[derive(Debug, Clone, PartialEq, Eq)]
pub enum Gf3258PointSupportError {
    CountMismatch { what: &'static str, expected: usize, actual: usize },
}

/// Squared distance of the integer positions of two points.
pub open spec fn support_distance_sq(a: Gf3258SupportPoint, b: Gf3258SupportPoint) -> int {
    let dx = b.x_q8 as int / 256 - a.x_q8 as int / 256;
    let dy = a.y_q8 as int / 256 - b.y_q8 as int / 256;
    dx * dx + dy * dy
}

/// Weight of neighbour quality and distance.
pub open spec fn support_weight(distance_sq: int, quality: i8) -> int {
    let weight = GF3258_SUPPORT_PROXIMITY_TABLE@[GF3258_SUPPORT_MAX_DISTANCE_SQ - distance_sq] as int;
    if quality > GF3258_SUPPORT_QUALITY_BOOST_THRESHOLD {
        weight * 3 / 2
    } else {
        weight
    }
}

/// Running sums over the neighbours of a point, in 32 bits.
#[derive(Clone, Copy)]
pub struct NeighborSums {
    /// One plus a hundred for every neighbour.
    pub denominator: i32,
    pub quality_sum: i32,
    pub support_sum: i32,
}

/// The sums over the first `n` points around point `i`. Points at the same
/// integer position do not count, so a point is not its own neighbour.
pub open spec fn neighbor_sums(
    points: Seq<Gf3258SupportPoint>,
    quality: Seq<i8>,
    source_quality: Seq<i8>,
    i: int,
    n: nat,
) -> NeighborSums
    decreases n,
{
    if n == 0 {
        NeighborSums { denominator: 1, quality_sum: 0, support_sum: 0 }
    } else {
        let s = neighbor_sums(points, quality, source_quality, i, (n - 1) as nat);
        let j = n - 1;
        let d = support_distance_sq(points[i], points[j]);
        if d == 0 || d > GF3258_SUPPORT_MAX_DISTANCE_SQ {
            s
        } else {
            NeighborSums {
                denominator: s.denominator.wrapping_add(100),
                quality_sum: s.quality_sum.wrapping_add(source_quality[j] as i32),
                support_sum: s.support_sum.wrapping_add(support_weight(d, quality[j]) as i32),
            }
        }
    }
}

/// An eighth of the support sum, at most one hundred, as a byte.
pub open spec fn support_byte(s: NeighborSums) -> u8 {
    let scaled = s.support_sum as int / 8;
    (if scaled > GF3258_SUPPORT_MAX { GF3258_SUPPORT_MAX as i32 } else { scaled as i32 }) as u8
}

/// A hundred quality sums divided by the denominator, as a byte.
pub open spec fn average_byte(s: NeighborSums) -> u8 {
    (arith::trunc_div(s.quality_sum.wrapping_mul(100) as int, s.denominator as int) as i32) as u8
}

pub open spec fn all_neighbors(
    points: Seq<Gf3258SupportPoint>,
    quality: Seq<i8>,
    source_quality: Seq<i8>,
    i: int,
) -> NeighborSums {
    neighbor_sums(points, quality, source_quality, i, points.len())
}

fn sum_neighbors(
    points: &[Gf3258SupportPoint],
    quality_164: &[i8],
    source_quality: &[i8],
    i: usize,
) -> (s: NeighborSums)
    requires
        quality_164@.len() == points@.len(),
        source_quality@.len() == points@.len(),
        i < points@.len(),
    ensures
        s == all_neighbors(points@, quality_164@, source_quality@, i as int),
        s.denominator as int % 4 == 1,
{
    let xi: i32 = points[i].x_integer() as i32;
    let yi: i32 = points[i].y_integer() as i32;
    let mut s: NeighborSums = NeighborSums { denominator: 1, quality_sum: 0, support_sum: 0 };
    for j in 0..points.len()
        invariant
            quality_164@.len() == points@.len(),
            source_quality@.len() == points@.len(),
            i < points@.len(),
            xi == points@[i as int].x_q8 / 256,
            yi == points@[i as int].y_q8 / 256,
            0 <= xi <= 255,
            0 <= yi <= 255,
            s == neighbor_sums(points@, quality_164@, source_quality@, i as int, j as nat),
            s.denominator as int % 4 == 1,
    {
        let xj: i32 = points[j].x_integer() as i32;
        let yj: i32 = points[j].y_integer() as i32;
        let dx: i32 = xj - xi;
        let dy: i32 = yi - yj;
        proof {
            arith::lemma_mul_bound(dx as int, dx as int, 255, 255);
            arith::lemma_mul_bound(dy as int, dy as int, 255, 255);
            assert(dx * dx >= 0 && dy * dy >= 0) by (nonlinear_arith);
        }
        let distance_sq: i32 = dx * dx + dy * dy;
        if distance_sq != 0 && distance_sq <= GF3258_SUPPORT_MAX_DISTANCE_SQ {
            let mut weight: i32 = GF3258_SUPPORT_PROXIMITY_TABLE[(GF3258_SUPPORT_MAX_DISTANCE_SQ
                - distance_sq) as usize];
            proof {
                lemma_proximity_range(GF3258_SUPPORT_MAX_DISTANCE_SQ - distance_sq);
            }
            if quality_164[j] > GF3258_SUPPORT_QUALITY_BOOST_THRESHOLD {
                weight = weight * 3 / 2;
            }
            s = NeighborSums {
                denominator: s.denominator.wrapping_add(100),
                quality_sum: s.quality_sum.wrapping_add(source_quality[j] as i32),
                support_sum: s.support_sum.wrapping_add(weight),
            };
        }
    }
    s
}

proof fn lemma_proximity_range(k: int)
    requires
        0 <= k < 256,
    ensures
        1 <= GF3258_SUPPORT_PROXIMITY_TABLE@[k] <= 39,
{
}

/// Support and average quality of the neighbourhood of every point.
pub fn gf3258_point_support(
    points: &[Gf3258SupportPoint],
    quality_164: &[i8],
    source_quality: &[i8],
    enabled: bool,
) -> (result: Result<Gf3258PointSupportResult, Gf3258PointSupportError>)
    ensures
        quality_164@.len() != points@.len() ==> result == Err::<
            Gf3258PointSupportResult,
            Gf3258PointSupportError,
        >(
            Gf3258PointSupportError::CountMismatch {
                what: "feature+0x164 quality",
                expected: points@.len() as usize,
                actual: quality_164@.len() as usize,
            },
        ),
        quality_164@.len() == points@.len() && source_quality@.len() != points@.len() ==> result
            == Err::<Gf3258PointSupportResult, Gf3258PointSupportError>(
            Gf3258PointSupportError::CountMismatch {
                what: "source quality",
                expected: points@.len() as usize,
                actual: source_quality@.len() as usize,
            },
        ),
        quality_164@.len() == points@.len() && source_quality@.len() == points@.len() ==> {
            &&& result is Ok
            &&& result->Ok_0.neighborhood_support@ == Seq::new(
                points@.len(),
                |i: int|
                    if enabled {
                        support_byte(all_neighbors(points@, quality_164@, source_quality@, i))
                    } else {
                        0u8
                    },
            )
            &&& result->Ok_0.neighborhood_average@ == Seq::new(
                points@.len(),
                |i: int|
                    if enabled {
                        average_byte(all_neighbors(points@, quality_164@, source_quality@, i))
                    } else {
                        0u8
                    },
            )
        },
{
    let count: usize = points.len();
    if quality_164.len() != count {
        return Err(
            Gf3258PointSupportError::CountMismatch {
                what: "feature+0x164 quality",
                expected: count,
                actual: quality_164.len(),
            },
        );
    }
    if source_quality.len() != count {
        return Err(
            Gf3258PointSupportError::CountMismatch {
                what: "source quality",
                expected: count,
                actual: source_quality.len(),
            },
        );
    }
    let mut support: Vec<u8> = Vec::with_capacity(count);
    let mut average: Vec<u8> = Vec::with_capacity(count);
    for i in 0..count
        invariant
            count == points@.len(),
            quality_164@.len() == points@.len(),
            source_quality@.len() == points@.len(),
            support@.len() == i,
            average@.len() == i,
            forall|j: int|
                0 <= j < i ==> #[trigger] support@[j] == (if enabled {
                    support_byte(all_neighbors(points@, quality_164@, source_quality@, j))
                } else {
                    0u8
                }),
            forall|j: int|
                0 <= j < i ==> #[trigger] average@[j] == (if enabled {
                    average_byte(all_neighbors(points@, quality_164@, source_quality@, j))
                } else {
                    0u8
                }),
    {
        if enabled {
            let s: NeighborSums = sum_neighbors(points, quality_164, source_quality, i);
            let hundredfold: i32 = s.quality_sum.wrapping_mul(100);
            proof {
                arith::lemma_trunc_div_bound(hundredfold as int, s.denominator as int);
                vstd::arithmetic::power2::lemma2_to64();
                arith::lemma_i64_shr(s.support_sum as i64, 3);
            }
            let averaged: i32 = hundredfold / s.denominator;
            average.push(averaged as u8);
            let scaled: i32 = s.support_sum >> 3u32;
            if scaled > GF3258_SUPPORT_MAX as i32 {
                support.push(GF3258_SUPPORT_MAX);
            } else {
                support.push(scaled as u8);
            }
        } else {
            average.push(0);
            support.push(0);
        }
    }
    Ok(
        Gf3258PointSupportResult { neighborhood_support: support, neighborhood_average: average },
    )
}

/// A nonzero status is cleared when every quality is strictly above its threshold.
pub open spec fn rehabilitated(
    status: u8,
    quality_164: i8,
    neighborhood_average: i8,
    source_quality: i8,
    neighborhood_support: u8,
) -> u8 {
    if status != 0 && quality_164 > 30 && neighborhood_average > 65 && source_quality > 65
        && neighborhood_support > 35 {
        0
    } else {
        status
    }
}

pub fn gf3258_rehabilitate_point_status(
    status: u8,
    quality_164: i8,
    neighborhood_average: i8,
    source_quality: i8,
    neighborhood_support: u8,
) -> (r: u8)
    ensures
        r == rehabilitated(
            status,
            quality_164,
            neighborhood_average,
            source_quality,
            neighborhood_support,
        ),
{
    if status != 0 && quality_164 > 30 && neighborhood_average > 65 && source_quality > 65
        && neighborhood_support > 35 {
        0
    } else {
        status
    }
}

/// Rehabilitating a status twice is rehabilitating it once.
pub proof fn lemma_rehabilitation_idempotent(
    status: u8,
    quality_164: i8,
    neighborhood_average: i8,
    source_quality: i8,
    neighborhood_support: u8,
)
    ensures
        ({
            let once = rehabilitated(
                status,
                quality_164,
                neighborhood_average,
                source_quality,
                neighborhood_support,
            );
            &&& once == 0 || once == status
            &&& rehabilitated(
                once,
                quality_164,
                neighborhood_average,
                source_quality,
                neighborhood_support,
            ) == once
        }),
{
}

/// The first of the four lists whose length differs from `count`.
pub open spec fn count_mismatch(
    count: nat,
    quality: nat,
    average: nat,
    source: nat,
    support: nat,
) -> Option<Gf3258PointSupportError> {
    if quality != count {
        Some(
            Gf3258PointSupportError::CountMismatch {
                what: "feature+0x164 quality",
                expected: count as usize,
                actual: quality as usize,
            },
        )
    } else if average != count {
        Some(
            Gf3258PointSupportError::CountMismatch {
                what: "neighborhood average",
                expected: count as usize,
                actual: average as usize,
            },
        )
    } else if source != count {
        Some(
            Gf3258PointSupportError::CountMismatch {
                what: "source quality",
                expected: count as usize,
                actual: source as usize,
            },
        )
    } else if support != count {
        Some(
            Gf3258PointSupportError::CountMismatch {
                what: "neighborhood support",
                expected: count as usize,
                actual: support as usize,
            },
        )
    } else {
        None
    }
}

/// Rehabilitates the status of every point.
pub fn gf3258_rehabilitate_point_statuses(
    statuses: &[u8],
    quality_164: &[i8],
    neighborhood_average: &[u8],
    source_quality: &[i8],
    neighborhood_support: &[u8],
) -> (result: Result<Vec<u8>, Gf3258PointSupportError>)
    ensures
        match count_mismatch(
            statuses@.len(),
            quality_164@.len(),
            neighborhood_average@.len(),
            source_quality@.len(),
            neighborhood_support@.len(),
        ) {
            Some(error) => result == Err::<Vec<u8>, Gf3258PointSupportError>(error),
            None => result is Ok && result->Ok_0@ == Seq::new(
                statuses@.len(),
                |i: int|
                    rehabilitated(
                        statuses@[i],
                        quality_164@[i],
                        neighborhood_average@[i] as i8,
                        source_quality@[i],
                        neighborhood_support@[i],
                    ),
            ),
        },
{
    let count: usize = statuses.len();
    if quality_164.len() != count {
        return Err(
            Gf3258PointSupportError::CountMismatch {
                what: "feature+0x164 quality",
                expected: count,
                actual: quality_164.len(),
            },
        );
    }
    if neighborhood_average.len() != count {
        return Err(
            Gf3258PointSupportError::CountMismatch {
                what: "neighborhood average",
                expected: count,
                actual: neighborhood_average.len(),
            },
        );
    }
    if source_quality.len() != count {
        return Err(
            Gf3258PointSupportError::CountMismatch {
                what: "source quality",
                expected: count,
                actual: source_quality.len(),
            },
        );
    }
    if neighborhood_support.len() != count {
        return Err(
            Gf3258PointSupportError::CountMismatch {
                what: "neighborhood support",
                expected: count,
                actual: neighborhood_support.len(),
            },
        );
    }
    let mut out: Vec<u8> = Vec::with_capacity(count);
    for i in 0..count
        invariant
            count == statuses@.len(),
            quality_164@.len() == count,
            neighborhood_average@.len() == count,
            source_quality@.len() == count,
            neighborhood_support@.len() == count,
            out@.len() == i,
            forall|j: int|
                0 <= j < i ==> #[trigger] out@[j] == rehabilitated(
                    statuses@[j],
                    quality_164@[j],
                    neighborhood_average@[j] as i8,
                    source_quality@[j],
                    neighborhood_support@[j],
                ),
    {
        out.push(
            gf3258_rehabilitate_point_status(
                statuses[i],
                quality_164[i],
                neighborhood_average[i] as i8,
                source_quality[i],
                neighborhood_support[i],
            ),
        );
    }
    Ok(out)
}

impl Gf3258PointSupportError {
    pub open spec fn message_spec(&self) -> Seq<char> {
        match self {
            Gf3258PointSupportError::CountMismatch { what, expected, actual } => {
                "GF3258 point-support "@ + what@ + " has "@ + text::decimal(*actual as nat)
                    + " entries; expected "@ + text::decimal(*expected as nat)
            },
        }
    }

    /// The message of this error.
    pub fn message(&self) -> (text: String)
        ensures
            text@ == self.message_spec(),
    {
        match self {
            Gf3258PointSupportError::CountMismatch { what, expected, actual } => {
                let mut out: String = "GF3258 point-support ".to_owned();
                out.append(what);
                out.append(" has ");
                text::push_decimal(&mut out, *actual as u64);
                out.append(" entries; expected ");
                text::push_decimal(&mut out, *expected as u64);
                out
            },
        }
    }
}

} // verus!
