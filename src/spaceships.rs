//! The catalogue of spaceships that can be stamped onto a universe.

use vstd::prelude::*;

verus! {

/// The most common spaceships.
#[derive(Clone, Copy, Debug, PartialEq, Eq, Structural)]
pub enum CommonSpaceships {
    Glider,
    Lightweight,
    Middleweight,
    Heavyweight,
}

/// The template of a spaceship, row-major: its cells, its width, its height.
pub open spec fn pattern_of(s: CommonSpaceships) -> (Seq<bool>, nat, nat) {
    match s {
        CommonSpaceships::Glider => (
            seq![
                false, true, false,
                false, false, true,
                true, true, true,
            ],
            3,
            3,
        ),
        CommonSpaceships::Lightweight => (
            seq![
                false, true, true, true, true,
                true, false, false, false, true,
                false, false, false, false, true,
                true, false, false, true, false,
            ],
            5,
            4,
        ),
        CommonSpaceships::Middleweight => (
            seq![
                false, true, true, true, true, true,
                true, false, false, false, false, true,
                false, false, false, false, false, true,
                true, false, false, false, true, false,
                false, false, true, false, false, false,
            ],
            6,
            5,
        ),
        CommonSpaceships::Heavyweight => (
            seq![
                false, true, true, true, true, true, true,
                true, false, false, false, false, false, true,
                false, false, false, false, false, false, true,
                true, false, false, false, false, true, false,
                false, false, true, true, false, false, false,
            ],
            7,
            5,
        ),
    }
}

impl CommonSpaceships {
    /// Returns the pattern of the spaceship, the width and the height.
    pub fn pattern(&self) -> (r: (Vec<bool>, usize, usize))
        ensures
            r.0@ == pattern_of(*self).0,
            r.1 == pattern_of(*self).1,
            r.2 == pattern_of(*self).2,
            r.0@.len() == r.1 * r.2,
            r.1 > 0,
    {
        match self {
            CommonSpaceships::Glider => {
                let v = vec![
                    false, true, false,
                    false, false, true,
                    true, true, true,
                ];
                assert(v@ =~= pattern_of(*self).0);
                assert(v@.len() == 3 * 3);
                (v, 3, 3)
            },
            CommonSpaceships::Lightweight => {
                let v = vec![
                    false, true, true, true, true,
                    true, false, false, false, true,
                    false, false, false, false, true,
                    true, false, false, true, false,
                ];
                assert(v@ =~= pattern_of(*self).0);
                assert(v@.len() == 5 * 4);
                (v, 5, 4)
            },
            CommonSpaceships::Middleweight => {
                let v = vec![
                    false, true, true, true, true, true,
                    true, false, false, false, false, true,
                    false, false, false, false, false, true,
                    true, false, false, false, true, false,
                    false, false, true, false, false, false,
                ];
                assert(v@ =~= pattern_of(*self).0);
                assert(v@.len() == 6 * 5);
                (v, 6, 5)
            },
            CommonSpaceships::Heavyweight => {
                let v = vec![
                    false, true, true, true, true, true, true,
                    true, false, false, false, false, false, true,
                    false, false, false, false, false, false, true,
                    true, false, false, false, false, true, false,
                    false, false, true, true, false, false, false,
                ];
                assert(v@ =~= pattern_of(*self).0);
                assert(v@.len() == 7 * 5);
                (v, 7, 5)
            },
        }
    }
}

} // verus!
