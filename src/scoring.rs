use vstd::prelude::*;

verus! {

/// Points for clearing `count` rows at once.
pub open spec fn points_for(count: u16) -> u32 {
    if count == 0 {
        0
    } else if count == 1 {
        100
    } else if count == 2 {
        300
    } else if count == 3 {
        700
    } else if count == 4 {
        1500
    } else {
        10000
    }
}

/// Points for clearing `count` rows at once; more than four rows, which the
/// classic rules never give, earn 10000.
pub fn line_clear_score(count: u16) -> (r: u32)
    ensures
        r == points_for(count),
{
    match count {
        0 => 0,
        1 => 100,
        2 => 300,
        3 => 700,
        4 => 1500,
        _ => 10000,
    }
}

/// Rows cleared and points earned in the current game.
#[derive(Copy, Clone, Eq, PartialEq, Debug, Structural)]
pub struct Tally {
    pub lines_count: u32,
    pub score: u64,
}

impl Tally {
    pub fn new() -> (r: Tally)
        ensures
            r.lines_count == 0,
            r.score == 0,
    {
        Tally { lines_count: 0, score: 0 }
    }

    /// Counts a clear of `count` rows and its points.
    pub fn add_lines(&mut self, count: u16)
        requires
            old(self).lines_count + count <= u32::MAX,
            old(self).score + points_for(count) <= u64::MAX,
        ensures
            final(self).lines_count == old(self).lines_count + count,
            final(self).score == old(self).score + points_for(count),
    {
        self.lines_count = self.lines_count + count as u32;
        let score = line_clear_score(count);
        self.score = self.score + score as u64;
    }
}

} // verus!
