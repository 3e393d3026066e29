use vstd::prelude::*;

verus! {

/// The screen to show after the current one.
#[derive(Copy, Clone, Eq, PartialEq, Debug, Structural)]
pub enum NextScreen {
    Welcome,
    Gaming,
    Pause,
}

/// A screen that runs until the player leaves it.
pub trait LoadScreen {
    fn load(&mut self) -> NextScreen;
}

/// The sound cues of the game.
#[derive(Copy, Clone, Eq, PartialEq, Debug, Structural)]
pub enum SoundTypes {
    Welcome,
    Gaming,
    Pause,
    Change,
    LineClean(u16),
}

/// The file that holds the cue; clears of more than four rows share the
/// four-row cue.
pub open spec fn sound_path(t: SoundTypes) -> Seq<char> {
    match t {
        SoundTypes::Welcome => "asset/welcome.mp3"@,
        SoundTypes::Gaming => "asset/game.mp3"@,
        SoundTypes::Pause => "asset/pause.mp3"@,
        SoundTypes::Change => "asset/change.mp3"@,
        SoundTypes::LineClean(count) => if count == 1 {
            "asset/line_clean_1.mp3"@
        } else if count == 2 {
            "asset/line_clean_2.mp3"@
        } else if count == 3 {
            "asset/line_clean_3.mp3"@
        } else {
            "asset/line_clean_4.mp3"@
        },
    }
}

/// The file that holds the cue.
pub fn get_filename(t: SoundTypes) -> (r: &'static str)
    ensures
        r@ == sound_path(t),
{
    match t {
        SoundTypes::Welcome => "asset/welcome.mp3",
        SoundTypes::Gaming => "asset/game.mp3",
        SoundTypes::Pause => "asset/pause.mp3",
        SoundTypes::Change => "asset/change.mp3",
        SoundTypes::LineClean(count) => match count {
            1 => "asset/line_clean_1.mp3",
            2 => "asset/line_clean_2.mp3",
            3 => "asset/line_clean_3.mp3",
            _ => "asset/line_clean_4.mp3",
        },
    }
}

} // verus!
