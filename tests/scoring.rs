use tetris::scoring::{line_clear_score, Tally};
use tetris::screens::{get_filename, SoundTypes};

#[test]
fn score_table() {
    assert_eq!(line_clear_score(0), 0);
    assert_eq!(line_clear_score(1), 100);
    assert_eq!(line_clear_score(2), 300);
    assert_eq!(line_clear_score(3), 700);
    assert_eq!(line_clear_score(4), 1500);
    assert_eq!(line_clear_score(5), 10000);
    assert_eq!(line_clear_score(u16::MAX), 10000);
}

#[test]
fn tally_adds_lines_and_points() {
    let mut tally = Tally::new();
    tally.add_lines(1);
    tally.add_lines(4);
    tally.add_lines(0);
    assert_eq!(tally.lines_count, 5);
    assert_eq!(tally.score, 1600);
}

#[test]
fn sound_files() {
    assert_eq!(get_filename(SoundTypes::Welcome), "asset/welcome.mp3");
    assert_eq!(get_filename(SoundTypes::Gaming), "asset/game.mp3");
    assert_eq!(get_filename(SoundTypes::Pause), "asset/pause.mp3");
    assert_eq!(get_filename(SoundTypes::Change), "asset/change.mp3");
    assert_eq!(get_filename(SoundTypes::LineClean(1)), "asset/line_clean_1.mp3");
    assert_eq!(get_filename(SoundTypes::LineClean(3)), "asset/line_clean_3.mp3");
    assert_eq!(get_filename(SoundTypes::LineClean(9)), "asset/line_clean_4.mp3");
}
