use std::path::Path;

use adequate_booru_viewer::configuration::{resolve_key_path, DanbooruAccountConfig};
use adequate_booru_viewer::xdg::{compact_path, ApplicationPaths, Lair, ViewerPaths};

fn dirs() -> ApplicationPaths {
    ApplicationPaths {
        config: "/home/u/.config/abv".to_owned(),
        local_data: "/home/u/.local/share/abv".to_owned(),
        state: "/home/u/.local/state/abv".to_owned(),
        cache: "/home/u/.cache/abv".to_owned(),
    }
}

#[test]
fn viewer_files_sit_in_their_directories() {
    let dirs = dirs();
    let at = |dir: &str, leaf: &str| Path::new(dir).join(leaf).to_string_lossy().into_owned();
    assert_eq!(dirs.config_path(), at(&dirs.config, "config.toml"));
    assert_eq!(dirs.filter_library_path(), at(&dirs.local_data, "filters.toml"));
    assert_eq!(dirs.session_state_path(), at(&dirs.state, "slate.toml"));
    assert_eq!(dirs.index_path(), at(&dirs.local_data, "index.redb"));
    assert_eq!(dirs.favorites_path(), at(&dirs.local_data, "favorites.roar"));
    assert_eq!(dirs.media_dir(), at(&dirs.cache, "media"));
    assert_eq!(dirs.model_dir(), at(&dirs.local_data, "models"));
    assert_eq!(dirs.debug_dir(), at(&dirs.state, "debug"));
    assert!(dirs.session_state_path().ends_with("slate.toml"));
}

#[test]
fn bayonet_files_sit_in_their_directories() {
    let lair = Lair {
        config: "/c".to_owned(),
        data: "/d".to_owned(),
        cache: "/k".to_owned(),
    };
    assert_eq!(lair.index_path(), Path::new("/d").join("index.redb").to_string_lossy());
    assert_eq!(lair.media_dir(), Path::new("/k").join("media").to_string_lossy());
    assert_eq!(lair.model_dir(), Path::new("/d").join("models").to_string_lossy());
    assert_eq!(compact_path("/d/index.redb"), "/d/index.redb");
}

#[test]
fn relative_key_files_resolve_beside_the_configuration() {
    let relative = DanbooruAccountConfig {
        login: "example_user".to_owned(),
        api_key_file: "danbooru.token".to_owned(),
    };
    assert_eq!(
        relative.resolve_api_key("/home/u/.config/abv"),
        Path::new("/home/u/.config/abv").join("danbooru.token").to_string_lossy()
    );
    let tilde = DanbooruAccountConfig {
        login: "example_user".to_owned(),
        api_key_file: "~/keys/danbooru.token".to_owned(),
    };
    assert_eq!(
        tilde.resolve_api_key("/home/u/.config/abv"),
        Path::new("/home/u/.config/abv").join("~/keys/danbooru.token").to_string_lossy()
    );
    let absolute = DanbooruAccountConfig {
        login: "example_user".to_owned(),
        api_key_file: "/home/example/security/danbooru.token".to_owned(),
    };
    assert_eq!(absolute.resolve_api_key("/home/u/.config/abv"), "/home/example/security/danbooru.token");
}

#[test]
fn an_absolute_key_path_is_kept_and_a_relative_one_joined() {
    assert_eq!(resolve_key_path("/keys/danbooru.token", "/cfg", true), "/keys/danbooru.token");
    assert_eq!(
        resolve_key_path("danbooru.token", "/cfg", false),
        Path::new("/cfg").join("danbooru.token").to_string_lossy()
    );
}

#[test]
fn a_rooted_key_path_is_kept_whatever_the_platform_says_of_it() {
    let rooted = DanbooruAccountConfig {
        login: "example_user".to_owned(),
        api_key_file: "/srv/keys/danbooru.token".to_owned(),
    };
    assert_eq!(rooted.resolve_api_key("/cfg"), "/srv/keys/danbooru.token");
    assert_eq!(rooted.resolve_api_key(""), "/srv/keys/danbooru.token");
    assert_eq!(resolve_key_path("/srv/keys/danbooru.token", "/cfg", false), "/srv/keys/danbooru.token");
}
