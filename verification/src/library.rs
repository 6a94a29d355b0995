//! Layout of the manager's own directory tree under the user's home
//! directory: one store per game, holding the archive store, the extraction
//! cache and the game's configuration file.
//!
//! The caller supplies the home directory and creates the directories; these
//! functions only build the paths.

use vstd::prelude::*;

verus! {

/// The manager's root directory: `<home>/.clim`.
pub fn clim_dir(home: &str) -> (r: String)
    ensures
        r@ == home@ + "/.clim"@,
{
    let mut r = home.to_owned();
    r.append("/.clim");
    r
}

/// The global configuration file: `<home>/.clim/config.toml`.
pub fn global_config(home: &str) -> (r: String)
    ensures
        r@ == home@ + "/.clim"@ + "/config.toml"@,
{
    let mut r = clim_dir(home);
    r.append("/config.toml");
    r
}

/// A game's directory: `<home>/.clim/<game>`.
pub fn game_dir(home: &str, game: &str) -> (r: String)
    ensures
        r@ == home@ + "/.clim"@ + "/"@ + game@,
{
    let mut r = clim_dir(home);
    r.append("/");
    r.append(game);
    r
}

/// A game's configuration file: `<home>/.clim/<game>/clim.toml`.
pub fn game_config_file(home: &str, game: &str) -> (r: String)
    ensures
        r@ == home@ + "/.clim"@ + "/"@ + game@ + "/clim.toml"@,
{
    let mut r = game_dir(home, game);
    r.append("/clim.toml");
    r
}

/// A game's archive store: `<home>/.clim/<game>/archives`.
pub fn archives_dir(home: &str, game: &str) -> (r: String)
    ensures
        r@ == home@ + "/.clim"@ + "/"@ + game@ + "/archives"@,
{
    let mut r = game_dir(home, game);
    r.append("/archives");
    r
}

/// A mod's extraction cache: `<home>/.clim/<game>/extracted/<mod>`.
pub fn extracted_dir(home: &str, game: &str, mod_name: &str) -> (r: String)
    ensures
        r@ == home@ + "/.clim"@ + "/"@ + game@ + "/extracted/"@ + mod_name@,
{
    let mut r = game_dir(home, game);
    r.append("/extracted/");
    r.append(mod_name);
    r
}

} // verus!
