use clim::deploy::{ModListing, PartListing};
use clim::fomod::{answer_choice, is_descriptor_name, is_option_dir};
use clim::game::{GlobalConfig, ManagedMod};
use clim::library::{archives_dir, clim_dir, extracted_dir, game_config_file, game_dir, global_config};
use clim::plugins::plugin_name;
use clim::utils::{ancestors, capitalize_path, contains_str, mod_name, name_has_extension, name_stem};

fn path(parts: &[&str]) -> Vec<String> {
    parts.iter().map(|p| p.to_string()).collect()
}

fn listing(root: &str, files: &[&[&str]]) -> ModListing {
    ModListing {
        parts: vec![PartListing {
            root: root.to_string(),
            has_data_folder: false,
            files: files.iter().map(|f| path(f)).collect(),
        }],
    }
}

#[test]
fn plugin_list_dedups_by_first_occurrence() {
    let mut gc = GlobalConfig::default();
    let mut game = gc
        .init_game("g".to_string(), "/g".to_string(), None, Some("/g/plugins.txt".to_string()), None)
        .expect("game");
    game.add("X".to_string(), "/store/X.7z".to_string(), true);
    game.add("Y".to_string(), "/store/Y.7z".to_string(), true);
    let listings = vec![
        listing("/cache/X", &[&["foo.esp"]]),
        listing("/cache/Y", &[&["bar.esp"], &["sub", "foo.esp"]]),
    ];
    assert_eq!(game.plugins(&listings), vec!["foo.esp".to_string(), "bar.esp".to_string()]);
    let lines = game.plugin_lines(&listings);
    assert_eq!(lines, vec!["*foo.esp".to_string(), "*bar.esp".to_string()]);
    let mut contents = String::new();
    for line in lines {
        contents.push_str(&line);
        contents.push('\n');
    }
    assert_eq!(contents, "*foo.esp\n*bar.esp\n");
}

#[test]
fn disabled_mods_contribute_no_plugins() {
    let mut gc = GlobalConfig::default();
    let mut game = gc
        .init_game("g".to_string(), "/g".to_string(), None, None, None)
        .expect("game");
    game.add("X".to_string(), "/store/X.7z".to_string(), false);
    let listings = vec![listing("/cache/X", &[&["foo.esp"]])];
    assert_eq!(game.plugins(&listings), Vec::<String>::new());
}

#[test]
fn plugin_names_need_a_stem_and_a_known_extension() {
    assert!(plugin_name("a.esp"));
    assert!(plugin_name("b.esm"));
    assert!(plugin_name("c.esl"));
    assert!(plugin_name("tale.of.two.esp"));
    assert!(!plugin_name(".esp"));
    assert!(!plugin_name("a.ESP"));
    assert!(!plugin_name("a.esx"));
    assert!(!plugin_name("esp"));
    assert!(!plugin_name("a.esp.bak"));
}

#[test]
fn capitalize_path_titles_each_component() {
    let capped = capitalize_path(&path(&["textures", "landscape", "x.dds"]));
    assert_eq!(capped, path(&["Textures", "Landscape", "X.dds"]));
    assert_eq!(capitalize_path(&path(&["", "a"])), path(&["", "A"]));
}

#[test]
fn substring_search_is_exact() {
    assert!(contains_str("hello world", "lo wo"));
    assert!(contains_str("hello", ""));
    assert!(contains_str("hello", "hello"));
    assert!(!contains_str("hello", "hello!"));
    assert!(!contains_str("abc", "cb"));
}

#[test]
fn mod_name_is_the_file_stem_of_the_last_component() {
    assert_eq!(mod_name(&path(&["downloads", "Cool Mod-1.2.7z"])), Some("Cool Mod-1.2".to_string()));
    assert_eq!(mod_name(&path(&["archive"])), Some("archive".to_string()));
    assert_eq!(mod_name(&Vec::new()), None);
}

#[test]
fn stems_and_extensions_follow_path_rules() {
    assert_eq!(name_stem("a.esp"), "a");
    assert_eq!(name_stem(".hidden"), ".hidden");
    assert_eq!(name_stem("plain"), "plain");
    assert_eq!(name_stem("a.b.c"), "a.b");
    assert!(name_has_extension("a.esp"));
    assert!(name_has_extension("a."));
    assert!(!name_has_extension(".hidden"));
    assert!(!name_has_extension("plain"));
}

#[test]
fn ancestors_list_proper_prefixes_deepest_first() {
    assert_eq!(
        ancestors(&path(&["a", "b", "c.esp"])),
        vec![path(&["a", "b"]), path(&["a"])]
    );
    assert_eq!(ancestors(&path(&["top.esp"])), Vec::<Vec<String>>::new());
    assert_eq!(ancestors(&Vec::new()), Vec::<Vec<String>>::new());
}

#[test]
fn library_paths_join_under_the_home_directory() {
    assert_eq!(clim_dir("/home/u"), "/home/u/.clim");
    assert_eq!(global_config("/home/u"), "/home/u/.clim/config.toml");
    assert_eq!(game_dir("/home/u", "skyrim"), "/home/u/.clim/skyrim");
    assert_eq!(game_config_file("/home/u", "skyrim"), "/home/u/.clim/skyrim/clim.toml");
    assert_eq!(archives_dir("/home/u", "skyrim"), "/home/u/.clim/skyrim/archives");
    assert_eq!(extracted_dir("/home/u", "skyrim", "Alpha"), "/home/u/.clim/skyrim/extracted/Alpha");
}

#[test]
fn descriptor_and_option_dir_detection() {
    assert!(is_descriptor_name("ModuleConfig.xml"));
    assert!(!is_descriptor_name("moduleconfig.xml"));
    assert!(!is_descriptor_name("config.xml"));
    assert!(is_option_dir("0 Base Textures"));
    assert!(is_option_dir("2K"));
    assert!(!is_option_dir("Optional"));
    assert!(!is_option_dir(""));
}

#[test]
fn answers_are_read_case_insensitively() {
    assert_eq!(answer_choice("yes"), Some(true));
    assert_eq!(answer_choice("Y"), Some(true));
    assert_eq!(answer_choice("NO"), Some(false));
    assert_eq!(answer_choice("never"), Some(false));
    assert_eq!(answer_choice("maybe"), None);
    assert_eq!(answer_choice(""), None);
}

#[test]
fn new_mods_start_disabled_and_unextracted() {
    let mm = ManagedMod::new("/store/A.7z".to_string());
    assert!(!mm.enabled);
    assert_eq!(mm.extracted, None);
    assert_eq!(mm.archive, "/store/A.7z");
    assert!(mm.parts.is_empty());
    assert!(mm.part_paths().is_empty());
    assert!(!mm.needs_extraction());
}

#[test]
fn part_paths_fall_back_to_the_extracted_tree() {
    let mut mm = ManagedMod::new("/store/A.7z".to_string());
    mm.enabled = true;
    assert!(mm.needs_extraction());
    mm.record_extracted("/cache/A".to_string());
    assert!(!mm.needs_extraction());
    assert_eq!(mm.part_paths(), vec!["/cache/A".to_string()]);
    mm.parts = vec!["/cache/A/0 Base".to_string()];
    assert_eq!(mm.part_paths(), vec!["/cache/A/0 Base".to_string()]);
}

#[test]
fn part_resolution_is_sticky() {
    let mut mm = ManagedMod::new("/store/A.7z".to_string());
    mm.record_extracted("/cache/A".to_string());
    // No descriptor: the whole tree is the one root, nothing recorded.
    let roots = mm.resolve_parts(false, &Vec::new());
    assert_eq!(roots, vec!["/cache/A".to_string()]);
    assert!(mm.parts.is_empty());
    // A descriptor: the chosen subset is recorded.
    let chosen = vec!["/cache/A/0 Base".to_string(), "/cache/A/1 Extra".to_string()];
    let roots = mm.resolve_parts(true, &chosen);
    assert_eq!(roots, chosen);
    assert_eq!(mm.parts, chosen);
    // Recorded parts are never recomputed.
    let other = vec!["/cache/A/2 Other".to_string()];
    let roots = mm.resolve_parts(true, &other);
    assert_eq!(roots, chosen);
    assert_eq!(mm.parts, chosen);
}
