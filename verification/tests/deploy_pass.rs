use std::collections::HashMap;

use clim::deploy::{DeployAction, ModListing, PartListing};
use clim::extract::{extraction_result, extractor_output_flag, hoist_target};
use clim::error::Error;
use clim::game::{install_dir, Game, GlobalConfig};

fn path(parts: &[&str]) -> Vec<String> {
    parts.iter().map(|p| p.to_string()).collect()
}

fn listing(root: &str, has_data_folder: bool, files: &[&[&str]]) -> ModListing {
    ModListing {
        parts: vec![PartListing {
            root: root.to_string(),
            has_data_folder,
            files: files.iter().map(|f| path(f)).collect(),
        }],
    }
}

fn empty_listing() -> ModListing {
    ModListing { parts: Vec::new() }
}

fn fresh_game(mods: &[(&str, bool)]) -> Game {
    let mut gc = GlobalConfig::default();
    let mut game = gc
        .init_game(
            "skyrim".to_string(),
            "/games/skyrim".to_string(),
            Some("Data".to_string()),
            None,
            None,
        )
        .expect("fresh game");
    for (name, enabled) in mods {
        game.add(name.to_string(), format!("/store/{}.7z", name), *enabled);
        let extracted = format!("/cache/{}", name);
        let idx = game.get_mod(name).expect("added");
        game.config.mods[idx].extracted = Some(extracted);
    }
    game
}

/// The model of the install tree: destination path to link source.
type Tree = HashMap<Vec<String>, (String, Vec<String>)>;

fn run_pass(game: &Game, listings: &Vec<ModListing>, tree: &mut Tree) {
    for action in game.undeploy_plan(listings) {
        match action {
            DeployAction::Remove { dest } => {
                tree.remove(&dest);
            }
            DeployAction::Link { .. } => panic!("undeploy never links"),
        }
    }
    for action in game.install_plan(listings) {
        match action {
            DeployAction::Link { dest, source_root, source_rel } => {
                tree.insert(dest, (source_root, source_rel));
            }
            DeployAction::Remove { .. } => panic!("install never removes"),
        }
    }
}

#[test]
fn later_mod_wins_the_collision() {
    let game = fresh_game(&[("A", true), ("B", true)]);
    let listings = vec![
        listing("/cache/A", false, &[&["Textures", "tree.dds"], &["a.esp"]]),
        listing("/cache/B", false, &[&["Textures", "tree.dds"]]),
    ];
    let mut tree = Tree::new();
    run_pass(&game, &listings, &mut tree);
    let winner = tree.get(&path(&["Data", "Textures", "tree.dds"])).expect("present");
    assert_eq!(winner.0, "/cache/B");
    let only_a = tree.get(&path(&["Data", "a.esp"])).expect("present");
    assert_eq!(only_a.0, "/cache/A");
}

#[test]
fn pass_is_idempotent() {
    let game = fresh_game(&[("A", true), ("B", true)]);
    let listings = vec![
        listing("/cache/A", false, &[&["meshes", "m.nif"], &["shared.esp"]]),
        listing("/cache/B", true, &[&["Data", "shared.esp"]]),
    ];
    let mut tree = Tree::new();
    tree.insert(path(&["foreign.ini"]), ("/elsewhere".to_string(), path(&["foreign.ini"])));
    run_pass(&game, &listings, &mut tree);
    let once = tree.clone();
    run_pass(&game, &listings, &mut tree);
    assert_eq!(tree, once);
    assert!(tree.contains_key(&path(&["foreign.ini"])));
}

#[test]
fn data_folder_detection_selects_the_install_root() {
    let game = fresh_game(&[("A", true), ("B", true)]);
    let listings = vec![
        listing("/cache/A", false, &[&["a.esp"]]),
        listing("/cache/B", true, &[&["Data", "b.esp"]]),
    ];
    let mut tree = Tree::new();
    run_pass(&game, &listings, &mut tree);
    assert!(tree.contains_key(&path(&["Data", "a.esp"])));
    assert!(tree.contains_key(&path(&["Data", "b.esp"])));
    assert_eq!(tree.len(), 2);
}

#[test]
fn disabling_removes_unique_paths_and_keeps_shared_ones() {
    let mut game = fresh_game(&[("A", true), ("B", true)]);
    let listings = vec![
        listing("/cache/A", false, &[&["only_a.esp"], &["shared.esp"]]),
        listing("/cache/B", false, &[&["shared.esp"]]),
    ];
    let mut tree = Tree::new();
    run_pass(&game, &listings, &mut tree);
    assert!(tree.contains_key(&path(&["Data", "only_a.esp"])));
    game.disable("A").expect("disable");
    run_pass(&game, &listings, &mut tree);
    assert!(!tree.contains_key(&path(&["Data", "only_a.esp"])));
    assert!(tree.contains_key(&path(&["Data", "shared.esp"])));
    assert_eq!(tree[&path(&["Data", "shared.esp"])].0, "/cache/B");
}

#[test]
fn failed_extraction_spares_the_other_mods() {
    let mut game = fresh_game(&[("A", true), ("B", true)]);
    // B's extraction failed: nothing recorded, nothing listed.
    let idx = game.get_mod("B").expect("present");
    game.config.mods[idx].extracted = None;
    let listings = vec![
        listing("/cache/A", false, &[&["a.esp"]]),
        empty_listing(),
    ];
    let mut tree = Tree::new();
    run_pass(&game, &listings, &mut tree);
    assert!(tree.contains_key(&path(&["Data", "a.esp"])));
    assert_eq!(tree.len(), 1);
}

#[test]
fn disabled_mods_are_undeployed_but_not_installed() {
    let game = fresh_game(&[("A", false)]);
    let listings = vec![listing("/cache/A", false, &[&["a.esp"]])];
    let mut tree = Tree::new();
    // A stale link from an earlier run.
    tree.insert(path(&["Data", "a.esp"]), ("/cache/A".to_string(), path(&["a.esp"])));
    run_pass(&game, &listings, &mut tree);
    assert!(tree.is_empty());
}

#[test]
fn install_plan_follows_registry_order() {
    let game = fresh_game(&[("A", true), ("B", true)]);
    let listings = vec![
        listing("/cache/A", false, &[&["x.esp"]]),
        listing("/cache/B", false, &[&["x.esp"]]),
    ];
    let plan = game.install_plan(&listings);
    assert_eq!(
        plan,
        vec![
            DeployAction::Link {
                dest: path(&["Data", "x.esp"]),
                source_root: "/cache/A".to_string(),
                source_rel: path(&["x.esp"]),
            },
            DeployAction::Link {
                dest: path(&["Data", "x.esp"]),
                source_root: "/cache/B".to_string(),
                source_rel: path(&["x.esp"]),
            },
        ]
    );
}

#[test]
fn extract_queue_lists_enabled_unextracted_mods_once() {
    let mut game = fresh_game(&[("A", true), ("B", true), ("C", false)]);
    for idx in 0..game.config.mods.len() {
        game.config.mods[idx].extracted = None;
    }
    // First pass: A and B need the tool, C is disabled.
    let queue = game.extract_queue();
    assert_eq!(queue, vec![0, 1]);
    // The tool ran for both; record the results.
    let mut invocations = 0;
    for idx in queue {
        invocations += 1;
        let (name, _) = game.config.mods.get_index(idx).expect("index");
        let dir = format!("/cache/{}", name);
        game.config.mods[idx].record_extracted(dir);
    }
    assert_eq!(invocations, 2);
    // Second pass without deleting the cache: nothing to extract.
    assert_eq!(game.extract_queue(), Vec::<usize>::new());
}

#[test]
fn extraction_failure_reports_archive_and_code() {
    let archive = "/store/A.7z".to_string();
    assert_eq!(extraction_result(&archive, true, Some(0)), Ok(()));
    assert_eq!(
        extraction_result(&archive, false, Some(2)),
        Err(Error::Extraction { archive: archive.clone(), code: Some(2) })
    );
}

#[test]
fn extractor_flag_names_the_destination() {
    assert_eq!(extractor_output_flag("/cache/A"), "-o/cache/A");
}

#[test]
fn hoist_only_single_non_data_wrapper() {
    let data = Some("Data".to_string());
    assert_eq!(hoist_target(&path(&["wrapper"]), &data), Some("wrapper".to_string()));
    assert_eq!(hoist_target(&path(&["Data"]), &data), None);
    assert_eq!(hoist_target(&path(&["a", "b"]), &data), None);
    assert_eq!(hoist_target(&path(&["Data"]), &None), Some("Data".to_string()));
    assert_eq!(hoist_target(&Vec::new(), &data), None);
}

#[test]
fn deploy_plan_is_undeploy_then_install() {
    let game = fresh_game(&[("A", true), ("B", false)]);
    let listings = vec![
        listing("/cache/A", false, &[&["a.esp"]]),
        listing("/cache/B", false, &[&["b.esp"]]),
    ];
    let mut expected = game.undeploy_plan(&listings);
    expected.extend(game.install_plan(&listings));
    assert_eq!(game.deploy_plan(&listings), expected);
}

#[test]
fn empty_registry_plans_nothing() {
    let game = fresh_game(&[]);
    let listings: Vec<ModListing> = Vec::new();
    assert_eq!(game.undeploy_plan(&listings), Vec::<DeployAction>::new());
    assert_eq!(game.install_plan(&listings), Vec::<DeployAction>::new());
    assert_eq!(game.extract_queue(), Vec::<usize>::new());
}

#[test]
fn no_data_folder_installs_into_the_game_folder() {
    let mut gc = GlobalConfig::default();
    let mut game = gc
        .init_game("g".to_string(), "/g".to_string(), None, None, None)
        .expect("game");
    game.add("A".to_string(), "/store/A.7z".to_string(), true);
    game.config.mods[0].extracted = Some("/cache/A".to_string());
    let listings = vec![listing("/cache/A", false, &[&["a.esp"]])];
    let mut tree = Tree::new();
    run_pass(&game, &listings, &mut tree);
    assert!(tree.contains_key(&path(&["a.esp"])));
    assert_eq!(tree.len(), 1);
}

#[test]
fn install_dir_honors_data_folder() {
    let data = "Data".to_string();
    assert_eq!(install_dir("/g", Some(&data), false), "/g/Data");
    assert_eq!(install_dir("/g", Some(&data), true), "/g");
    assert_eq!(install_dir("/g", None, false), "/g");
}
