use vstd::prelude::*;

verus! {

/// How close each hole lies to the centre of the board (hole 18).
pub const CENTRALITY: [i64; 37] = [
    0, 0, 0, 0, 1, 0, 0, 1, 1, 0,
    1, 2, 1, 0, 2, 2, 0, 1, 3, 1,
    0, 2, 2, 0, 1, 2, 1, 0, 1, 1,
    0, 0, 1, 0, 0, 0, 0,
];

/// How close each hole lies to the middle line from hole 0 to hole 36.
pub const MIDDLE_PROXIMITY: [i64; 37] = [
    6, 3, 3, 1, 6, 1, 0, 3, 3, 0,
    1, 6, 1, 0, 3, 3, 0, 1, 6, 1,
    0, 3, 3, 0, 1, 6, 1, 0, 3, 3,
    0, 1, 6, 1, 3, 3, 6,
];

/// How close each hole lies to black's home, hole 0.
pub const BLACK_PROXIMITY: [i64; 37] = [
    5, 4, 4, 3, 4, 3, 2, 3, 3, 2,
    2, 3, 2, 1, 2, 2, 1, 1, 2, 1,
    0, 1, 1, 0, 0, 1, 0, 0, 0, 0,
    0, 0, 0, 0, 0, 0, 0,
];

/// How close each hole lies to white's home, hole 36.
pub const WHITE_PROXIMITY: [i64; 37] = [
    0, 0, 0, 0, 0, 0, 0, 0, 0, 0,
    0, 1, 0, 0, 1, 1, 0, 1, 2, 1,
    1, 2, 2, 1, 2, 3, 2, 2, 3, 3,
    2, 3, 4, 3, 4, 4, 5,
];

/// The row of each hole, counted from black's home: 0 for hole 0, 12 for
/// hole 36.
pub const BLACK_PROXIMITY_ROW: [i64; 37] = [
    0, 1, 1, 2, 2, 2, 3, 3, 3, 3,
    4, 4, 4, 5, 5, 5, 5, 6, 6, 6,
    7, 7, 7, 7, 8, 8, 8, 9, 9, 9,
    9, 10, 10, 10, 11, 11, 12,
];

/// The value of a table at a hole, as a mathematical integer.
pub open spec fn table_value(table: [i64; 37], location: usize) -> int {
    table@[location as int] as int
}

/// The hole's own number, for a map that prefers no hole over another.
pub fn location_agnostic(location: &usize) -> (value: i64)
    ensures
        value == *location as i64,
        *location <= i64::MAX ==> value == *location,
{
    #[verifier::truncate]
    (*location as i64)
}

/// The hole's entry in [`CENTRALITY`].
pub fn centrality(location: &usize) -> (value: i64)
    requires
        *location < 37,
    ensures
        value == table_value(CENTRALITY, *location),
        0 <= value <= 3,
{
    CENTRALITY[*location]
}

/// Three less the hole's centrality: large at the rim of the board.
pub fn anti_centrality(location: &usize) -> (value: i64)
    requires
        *location < 37,
    ensures
        value == 3 - table_value(CENTRALITY, *location),
        0 <= value <= 3,
{
    3 - centrality(location)
}

/// The hole's entry in [`MIDDLE_PROXIMITY`].
pub fn middle_proximity(location: &usize) -> (value: i64)
    requires
        *location < 37,
    ensures
        value == table_value(MIDDLE_PROXIMITY, *location),
        0 <= value <= 6,
{
    MIDDLE_PROXIMITY[*location]
}

/// The hole's entry in [`BLACK_PROXIMITY`].
pub fn black_proximity(location: &usize) -> (value: i64)
    requires
        *location < 37,
    ensures
        value == table_value(BLACK_PROXIMITY, *location),
        0 <= value <= 5,
{
    BLACK_PROXIMITY[*location]
}

/// The hole's entry in [`WHITE_PROXIMITY`].
pub fn white_proximity(location: &usize) -> (value: i64)
    requires
        *location < 37,
    ensures
        value == table_value(WHITE_PROXIMITY, *location),
        0 <= value <= 5,
{
    WHITE_PROXIMITY[*location]
}

/// The hole's row counted from black's home.
pub fn black_proximity_row(location: usize) -> (value: i64)
    requires
        location < 37,
    ensures
        value == table_value(BLACK_PROXIMITY_ROW, location),
        0 <= value <= 12,
{
    BLACK_PROXIMITY_ROW[location]
}

/// The hole's row counted from white's home.
pub fn white_proximity_row(location: usize) -> (value: i64)
    requires
        location < 37,
    ensures
        value == 12 - table_value(BLACK_PROXIMITY_ROW, location),
        0 <= value <= 12,
{
    12 - black_proximity_row(location)
}

} // verus!
