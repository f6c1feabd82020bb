//! How many bytes one barcode symbol carries in byte mode, for each density
//! level (1 to 40, the symbol's version) and redundancy level, and the payload
//! a frame can carry once its header is taken out.

use vstd::prelude::*;
use crate::header::HEADER_SIZE;

verus! {

/// Error-correction redundancy, from the weakest to the strongest.
#[derive(Clone, Copy, Debug, PartialEq, Eq, Structural)]
pub enum Redundancy {
    L,
    M,
    Q,
    H,
}

pub const MIN_DENSITY: u8 = 1;

pub const MAX_DENSITY: u8 = 40;

/// Position of a redundancy level in the order L, M, Q, H.
pub open spec fn strength(l: Redundancy) -> int {
    match l {
        Redundancy::L => 0,
        Redundancy::M => 1,
        Redundancy::Q => 2,
        Redundancy::H => 3,
    }
}

pub open spec fn valid_density(d: int) -> bool {
    MIN_DENSITY <= d <= MAX_DENSITY
}

/// Byte capacities of density level `d` for L, M, Q and H. The last row is
/// kept two bytes under the symbol's nominal maximum.
pub open spec fn capacity_row(d: int) -> Seq<u16> {
    if d == 1 {
        seq![17, 14, 11, 7]
    } else if d == 2 {
        seq![32, 26, 20, 14]
    } else if d == 3 {
        seq![53, 42, 32, 24]
    } else if d == 4 {
        seq![78, 62, 46, 34]
    } else if d == 5 {
        seq![106, 84, 60, 44]
    } else if d == 6 {
        seq![134, 106, 74, 58]
    } else if d == 7 {
        seq![154, 122, 86, 64]
    } else if d == 8 {
        seq![192, 152, 108, 84]
    } else if d == 9 {
        seq![230, 180, 130, 98]
    } else if d == 10 {
        seq![271, 213, 151, 119]
    } else if d == 11 {
        seq![321, 251, 177, 137]
    } else if d == 12 {
        seq![367, 287, 203, 155]
    } else if d == 13 {
        seq![425, 311, 241, 177]
    } else if d == 14 {
        seq![458, 362, 258, 194]
    } else if d == 15 {
        seq![520, 412, 292, 220]
    } else if d == 16 {
        seq![586, 450, 322, 250]
    } else if d == 17 {
        seq![644, 504, 364, 280]
    } else if d == 18 {
        seq![718, 560, 394, 310]
    } else if d == 19 {
        seq![792, 624, 442, 338]
    } else if d == 20 {
        seq![858, 666, 482, 382]
    } else if d == 21 {
        seq![929, 711, 509, 403]
    } else if d == 22 {
        seq![1003, 779, 565, 439]
    } else if d == 23 {
        seq![1091, 857, 611, 461]
    } else if d == 24 {
        seq![1171, 911, 661, 511]
    } else if d == 25 {
        seq![1273, 997, 715, 535]
    } else if d == 26 {
        seq![1367, 1059, 751, 593]
    } else if d == 27 {
        seq![1465, 1125, 805, 625]
    } else if d == 28 {
        seq![1528, 1190, 868, 658]
    } else if d == 29 {
        seq![1628, 1264, 908, 698]
    } else if d == 30 {
        seq![1732, 1370, 982, 742]
    } else if d == 31 {
        seq![1840, 1452, 1030, 790]
    } else if d == 32 {
        seq![1952, 1538, 1112, 842]
    } else if d == 33 {
        seq![2068, 1628, 1168, 898]
    } else if d == 34 {
        seq![2188, 1722, 1228, 958]
    } else if d == 35 {
        seq![2303, 1809, 1283, 983]
    } else if d == 36 {
        seq![2431, 1911, 1351, 1051]
    } else if d == 37 {
        seq![2563, 1989, 1423, 1093]
    } else if d == 38 {
        seq![2699, 2099, 1499, 1139]
    } else if d == 39 {
        seq![2809, 2213, 1579, 1219]
    } else {
        seq![2951, 2329, 1661, 1271]
    }}

/// Bytes one symbol of density `d` and redundancy `l` carries.
pub open spec fn capacity(d: int, l: Redundancy) -> int {
    capacity_row(d)[strength(l)] as int
}

fn row(d: u8) -> (r: [u16; 4])
    requires
        valid_density(d as int),
    ensures
        r@ == capacity_row(d as int),
{
    let r: [u16; 4] = match d {
        1 => [17, 14, 11, 7],
        2 => [32, 26, 20, 14],
        3 => [53, 42, 32, 24],
        4 => [78, 62, 46, 34],
        5 => [106, 84, 60, 44],
        6 => [134, 106, 74, 58],
        7 => [154, 122, 86, 64],
        8 => [192, 152, 108, 84],
        9 => [230, 180, 130, 98],
        10 => [271, 213, 151, 119],
        11 => [321, 251, 177, 137],
        12 => [367, 287, 203, 155],
        13 => [425, 311, 241, 177],
        14 => [458, 362, 258, 194],
        15 => [520, 412, 292, 220],
        16 => [586, 450, 322, 250],
        17 => [644, 504, 364, 280],
        18 => [718, 560, 394, 310],
        19 => [792, 624, 442, 338],
        20 => [858, 666, 482, 382],
        21 => [929, 711, 509, 403],
        22 => [1003, 779, 565, 439],
        23 => [1091, 857, 611, 461],
        24 => [1171, 911, 661, 511],
        25 => [1273, 997, 715, 535],
        26 => [1367, 1059, 751, 593],
        27 => [1465, 1125, 805, 625],
        28 => [1528, 1190, 868, 658],
        29 => [1628, 1264, 908, 698],
        30 => [1732, 1370, 982, 742],
        31 => [1840, 1452, 1030, 790],
        32 => [1952, 1538, 1112, 842],
        33 => [2068, 1628, 1168, 898],
        34 => [2188, 1722, 1228, 958],
        35 => [2303, 1809, 1283, 983],
        36 => [2431, 1911, 1351, 1051],
        37 => [2563, 1989, 1423, 1093],
        38 => [2699, 2099, 1499, 1139],
        39 => [2809, 2213, 1579, 1219],
        _ => [2951, 2329, 1661, 1271],    };
    assert(r@ =~= capacity_row(d as int));
    r
}

fn index_of(l: Redundancy) -> (r: usize)
    ensures
        r as int == strength(l),
{
    match l {
        Redundancy::L => 0,
        Redundancy::M => 1,
        Redundancy::Q => 2,
        Redundancy::H => 3,
    }
}

/// The redundancy level at position `v` of the order L, M, Q, H, if any.
pub fn to_ec_level(v: u16) -> (r: Option<Redundancy>)
    ensures
        r is Some <==> v < 4,
        r matches Some(l) ==> strength(l) == v,
{
    match v {
        0 => Some(Redundancy::L),
        1 => Some(Redundancy::M),
        2 => Some(Redundancy::Q),
        3 => Some(Redundancy::H),
        _ => None,
    }
}

/// Bytes one symbol carries at density `d` and redundancy `l`; `None` when
/// `d` is not a density level.
pub fn compute_block_size(d: u8, l: Redundancy) -> (r: Option<u16>)
    ensures
        r is Some <==> valid_density(d as int),
        r matches Some(n) ==> n == capacity(d as int, l),
{
    if d < MIN_DENSITY || d > MAX_DENSITY {
        return None;
    }
    let r = row(d);
    Some(r[index_of(l)])
}

/// Every symbol carries more than a header.
pub proof fn lemma_capacity_above_header(d: int, l: Redundancy)
    requires
        valid_density(d),
    ensures
        HEADER_SIZE < capacity(d, l) <= 2951,
{
}

proof fn lemma_capacity_step(d: int, l: Redundancy)
    requires
        MIN_DENSITY <= d < MAX_DENSITY,
    ensures
        capacity(d, l) <= capacity(d + 1, l),
{
}

/// At a fixed redundancy level, capacity never falls as density rises.
pub proof fn lemma_capacity_monotone_density(d1: int, d2: int, l: Redundancy)
    requires
        valid_density(d1),
        valid_density(d2),
        d1 <= d2,
    ensures
        capacity(d1, l) <= capacity(d2, l),
    decreases d2 - d1,
{
    if d1 < d2 {
        lemma_capacity_step(d1, l);
        lemma_capacity_monotone_density(d1 + 1, d2, l);
    }
}

/// At a fixed density level, capacity never rises as redundancy gets
/// stronger (L, then M, then Q, then H).
pub proof fn lemma_capacity_monotone_redundancy(d: int, l1: Redundancy, l2: Redundancy)
    requires
        valid_density(d),
        strength(l1) <= strength(l2),
    ensures
        capacity(d, l1) >= capacity(d, l2),
{
}

} // verus!
