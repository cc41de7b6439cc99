use vstd::prelude::*;

verus! {

/// A switch for the glow drawn over keys.
#[derive(Debug, Clone, Copy, PartialEq, Eq, Structural)]
pub struct SimpleEffects {
    pub enabled: bool,
}

impl SimpleEffects {
    /// Effects switched on.
    pub fn new() -> (r: SimpleEffects)
        ensures
            r.enabled,
    {
        SimpleEffects { enabled: true }
    }
}

/// The colour of each pitch class, C to B, as red, green and blue: red,
/// orange, golden yellow, green yellow, lime green, teal green, sky blue,
/// dodger blue, blue violet, deep pink, hot pink and orange.
pub open spec fn pitch_colour(pitch_class: int) -> (u8, u8, u8) {
    if pitch_class == 0 {
        (255, 85, 85)
    } else if pitch_class == 1 {
        (255, 140, 70)
    } else if pitch_class == 2 {
        (255, 215, 0)
    } else if pitch_class == 3 {
        (173, 255, 47)
    } else if pitch_class == 4 {
        (50, 205, 50)
    } else if pitch_class == 5 {
        (0, 191, 165)
    } else if pitch_class == 6 {
        (70, 130, 255)
    } else if pitch_class == 7 {
        (30, 144, 255)
    } else if pitch_class == 8 {
        (138, 43, 226)
    } else if pitch_class == 9 {
        (255, 20, 147)
    } else if pitch_class == 10 {
        (255, 105, 180)
    } else {
        (255, 165, 0)
    }
}

/// The colour in which a note lights up: that of its pitch class.
pub fn note_to_rgb(midi_note: u8) -> (r: (u8, u8, u8))
    ensures
        r == pitch_colour(midi_note as int % 12),
{
    match midi_note % 12 {
        0 => (255, 85, 85),
        1 => (255, 140, 70),
        2 => (255, 215, 0),
        3 => (173, 255, 47),
        4 => (50, 205, 50),
        5 => (0, 191, 165),
        6 => (70, 130, 255),
        7 => (30, 144, 255),
        8 => (138, 43, 226),
        9 => (255, 20, 147),
        10 => (255, 105, 180),
        _ => (255, 165, 0),
    }
}

} // verus!
