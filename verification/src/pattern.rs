use vstd::prelude::*;

verus! {

/// Which of the two colours of a pattern shows at a place.
#[derive(Clone, Copy, Debug, PartialEq, Eq, Structural)]
pub enum Tone {
    First,
    Second,
}

/// The tone of a cell by its number: the first in even cells, the second in
/// odd ones.
pub open spec fn tone_of(cell: int) -> Tone {
    if cell % 2 == 0 {
        Tone::First
    } else {
        Tone::Second
    }
}

/// The tone of a stripe: `x` is the whole part, rounded down, of the place
/// across the stripes.
pub fn stripe_tone(x: i64) -> (tone: Tone)
    ensures
        tone == tone_of(x as int),
{
    if x % 2 == 0 {
        Tone::First
    } else {
        Tone::Second
    }
}

/// The tone of a ring: `radius` is the whole part, rounded down, of the
/// distance from the axis of the rings.
pub fn ring_tone(radius: i64) -> (tone: Tone)
    ensures
        tone == tone_of(radius as int),
{
    stripe_tone(radius)
}

/// The tone of a cube of a checkerboard in space: `x`, `y` and `z` are the
/// whole parts, rounded down, of the place. Cubes that share a face differ.
pub fn checkers_tone(x: i64, y: i64, z: i64) -> (tone: Tone)
    ensures
        tone == tone_of(x + y + z),
{
    let odd_x: bool = x % 2 != 0;
    let odd_y: bool = y % 2 != 0;
    let odd_z: bool = z % 2 != 0;
    if (odd_x != odd_y) != odd_z {
        Tone::Second
    } else {
        Tone::First
    }
}

/// Stepping from a cell to the next changes the tone.
pub proof fn lemma_tones_alternate(cell: int)
    ensures
        tone_of(cell + 1) != tone_of(cell),
{
}

} // verus!
