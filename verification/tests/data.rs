use chaos_theory::data::{StoredData, MUSIC_BIT, SOUNDS_BIT};
use chaos_theory::level::Level;
use chaos_theory::main_game::MainGame;
use chaos_theory::win::Win;

#[test]
fn new_player_hears_everything_and_has_the_tutorial_ahead() {
    let data = StoredData::default();
    assert!(!data.passed_tutorial);
    assert!(data.sounds_enabled);
    assert!(data.music_enabled);
}

#[test]
fn sound_mask_has_a_bit_for_sounds_and_one_for_music() {
    assert_eq!((SOUNDS_BIT, MUSIC_BIT), (1, 2));
    let mut data = StoredData::default();
    assert_eq!(data.get_enabled_sounds(), 3);
    data.sounds_enabled = false;
    assert_eq!(data.get_enabled_sounds(), 2);
    data.music_enabled = false;
    assert_eq!(data.get_enabled_sounds(), 0);
    data.sounds_enabled = true;
    assert_eq!(data.get_enabled_sounds(), 1);
}

#[test]
fn sound_mask_does_not_depend_on_the_tutorial() {
    let mut data = StoredData::default();
    data.passed_tutorial = true;
    assert_eq!(data.get_enabled_sounds(), 3);
}

#[test]
fn win_ends_a_session() {
    let game = MainGame::new(Level::tutorial_level());
    assert_eq!(Win::new(game), Win {});
}
