use clim::app::MoveSubcommand;
use clim::error::Error;
use clim::game::{Game, GlobalConfig};

fn fresh_game(mods: &[(&str, bool)]) -> Game {
    let mut gc = GlobalConfig::default();
    let mut game = gc
        .init_game(
            "skyrim".to_string(),
            "/games/skyrim".to_string(),
            Some("Data".to_string()),
            Some("/games/skyrim/plugins.txt".to_string()),
            None,
        )
        .expect("fresh game");
    for (name, enabled) in mods {
        let added = game.add(name.to_string(), format!("/store/{}.7z", name), *enabled);
        assert!(added);
    }
    game
}

fn order(game: &Game) -> Vec<String> {
    game.config.mods.keys().cloned().collect()
}

#[test]
fn init_game_records_and_activates() {
    let mut gc = GlobalConfig::default();
    let game = gc
        .init_game("oblivion".to_string(), "/games/oblivion".to_string(), None, None, None)
        .expect("init");
    assert_eq!(game.name, "oblivion");
    assert_eq!(game.config.game_folder, "/games/oblivion");
    assert!(game.config.mods.is_empty());
    assert_eq!(gc.active_game().expect("active"), "oblivion");
}

#[test]
fn init_game_twice_is_already_managed() {
    let mut gc = GlobalConfig::default();
    gc.init_game("oblivion".to_string(), "/g".to_string(), None, None, None).expect("first");
    let second = gc.init_game("oblivion".to_string(), "/h".to_string(), None, None, None);
    assert_eq!(second.err().expect("refused"), Error::AlreadyManaged("oblivion".to_string()));
    assert_eq!(gc.games, vec!["oblivion".to_string()]);
}

#[test]
fn no_active_game_is_an_error() {
    let gc = GlobalConfig::default();
    assert_eq!(gc.active_game().err().expect("none"), Error::NoActiveGame);
}

#[test]
fn set_active_requires_known_game() {
    let mut gc = GlobalConfig::default();
    gc.init_game("a".to_string(), "/a".to_string(), None, None, None).expect("init");
    assert_eq!(
        gc.set_active("b".to_string()).err().expect("unknown"),
        Error::UnknownGame("b".to_string())
    );
    gc.set_active("a".to_string()).expect("known");
    assert_eq!(gc.active_game().expect("active"), "a");
}

#[test]
fn get_mod_matches_case_insensitive_substring() {
    let game = fresh_game(&[("Alpha", true), ("Beta", false)]);
    assert_eq!(game.get_mod("LPH").expect("substring"), 0);
    assert_eq!(game.get_mod("beta").expect("exact lower"), 1);
    assert_eq!(game.get_mod("A").expect("first match wins"), 0);
}

#[test]
fn get_mod_unknown_carries_lowered_selector() {
    let game = fresh_game(&[("Alpha", true)]);
    assert_eq!(
        game.get_mod("ZeTa").err().expect("unknown"),
        Error::UnknownMod("zeta".to_string())
    );
}

#[test]
fn add_existing_name_updates_enable_flag_in_place() {
    let mut game = fresh_game(&[("Alpha", false), ("Beta", false)]);
    let added = game.add("Alpha".to_string(), "/store/Alpha.7z".to_string(), true);
    assert!(!added);
    assert_eq!(order(&game), vec!["Alpha".to_string(), "Beta".to_string()]);
    assert!(game.config.mods["Alpha"].enabled);
    assert!(!game.config.mods["Beta"].enabled);
}

#[test]
fn enable_and_disable_by_selector() {
    let mut game = fresh_game(&[("Alpha", false), ("Beta", true)]);
    assert_eq!(game.enable("alp").expect("enable"), 0);
    assert!(game.config.mods["Alpha"].enabled);
    assert_eq!(game.disable("bet").expect("disable"), 1);
    assert!(!game.config.mods["Beta"].enabled);
    assert_eq!(
        game.enable("nope").err().expect("unknown"),
        Error::UnknownMod("nope".to_string())
    );
}

#[test]
fn enable_all_and_disable_all_touch_every_mod() {
    let mut game = fresh_game(&[("A", false), ("B", true), ("C", false)]);
    game.enable_all();
    assert!(game.config.mods.values().all(|m| m.enabled));
    game.disable_all();
    assert!(game.config.mods.values().all(|m| !m.enabled));
    assert_eq!(order(&game), vec!["A".to_string(), "B".to_string(), "C".to_string()]);
}

#[test]
fn uninstall_disables_and_clears_extraction() {
    let mut game = fresh_game(&[("A", true)]);
    game.config.mods[0].extracted = Some("/cache/A".to_string());
    game.uninstall("a", false).expect("uninstall");
    let mm = &game.config.mods["A"];
    assert!(!mm.enabled);
    assert_eq!(mm.extracted, None);
    assert_eq!(order(&game), vec!["A".to_string()]);
}

#[test]
fn uninstall_with_archive_deletion_drops_the_entry() {
    let mut game = fresh_game(&[("A", true), ("B", true)]);
    game.uninstall("a", true).expect("uninstall");
    assert_eq!(order(&game), vec!["B".to_string()]);
}

#[test]
fn uninstall_all_clears_or_keeps_entries() {
    let mut game = fresh_game(&[("A", true), ("B", true)]);
    game.config.mods[0].extracted = Some("/cache/A".to_string());
    game.uninstall_all(false);
    assert_eq!(order(&game), vec!["A".to_string(), "B".to_string()]);
    assert!(game.config.mods.values().all(|m| !m.enabled && m.extracted.is_none()));
    game.uninstall_all(true);
    assert!(game.config.mods.is_empty());
}

#[test]
fn move_above_reorders() {
    let mut game = fresh_game(&[("A", true), ("B", true), ("C", true)]);
    game.move_mod("C", &MoveSubcommand::Above { name: "A".to_string() }).expect("move");
    assert_eq!(order(&game), vec!["C".to_string(), "A".to_string(), "B".to_string()]);
}

#[test]
fn move_bottom_appends() {
    let mut game = fresh_game(&[("A", true), ("B", true), ("C", true)]);
    game.move_mod("A", &MoveSubcommand::Bottom).expect("move");
    assert_eq!(order(&game), vec!["B".to_string(), "C".to_string(), "A".to_string()]);
}

#[test]
fn move_above_self_fails_and_changes_nothing() {
    let mut game = fresh_game(&[("A", true), ("B", true), ("C", true)]);
    let result = game.move_mod("A", &MoveSubcommand::Above { name: "A".to_string() });
    assert_eq!(result.err().expect("self move"), Error::SelfRelativeMove("A".to_string()));
    assert_eq!(order(&game), vec!["A".to_string(), "B".to_string(), "C".to_string()]);
}

#[test]
fn move_below_and_top() {
    let mut game = fresh_game(&[("A", true), ("B", true), ("C", true)]);
    game.move_mod("A", &MoveSubcommand::Below { name: "B".to_string() }).expect("below");
    assert_eq!(order(&game), vec!["B".to_string(), "A".to_string(), "C".to_string()]);
    game.move_mod("C", &MoveSubcommand::Top).expect("top");
    assert_eq!(order(&game), vec!["C".to_string(), "B".to_string(), "A".to_string()]);
}

#[test]
fn move_down_and_up_clamp_at_the_ends() {
    let mut game = fresh_game(&[("A", true), ("B", true), ("C", true)]);
    game.move_mod("A", &MoveSubcommand::Down { n: None }).expect("down one");
    assert_eq!(order(&game), vec!["B".to_string(), "A".to_string(), "C".to_string()]);
    game.move_mod("B", &MoveSubcommand::Down { n: Some(9) }).expect("down clamped");
    assert_eq!(order(&game), vec!["A".to_string(), "C".to_string(), "B".to_string()]);
    game.move_mod("B", &MoveSubcommand::Up { n: Some(9) }).expect("up clamped");
    assert_eq!(order(&game), vec!["B".to_string(), "A".to_string(), "C".to_string()]);
}

#[test]
fn move_unknown_target_fails_unchanged() {
    let mut game = fresh_game(&[("A", true), ("B", true)]);
    let result = game.move_mod("A", &MoveSubcommand::Above { name: "zz".to_string() });
    assert_eq!(result.err().expect("unknown"), Error::UnknownMod("zz".to_string()));
    assert_eq!(order(&game), vec!["A".to_string(), "B".to_string()]);
}
