use bevy_granite::asset_path::{
    absolute_asset_to_rel, rel_asset_to_absolute, to_forward_slashes, AssetRoot,
};

fn dir(s: &str) -> AssetRoot {
    AssetRoot::Directory { assets_dir: s.to_string() }
}

#[test]
fn backslashes_become_slashes() {
    assert_eq!(to_forward_slashes("materials\\internal\\default.mat"), "materials/internal/default.mat");
    assert_eq!(to_forward_slashes(""), "");
    assert_eq!(to_forward_slashes("é\\ü"), "é/ü");
}

#[test]
fn bundled_rel_is_only_normalized() {
    assert_eq!(rel_asset_to_absolute("scenes\\dungeon.scene", &AssetRoot::Bundled), "scenes/dungeon.scene");
}

#[test]
fn bundled_abs_strips_assets_prefix() {
    assert_eq!(absolute_asset_to_rel("assets\\scenes\\a.scene".to_string(), &AssetRoot::Bundled), "scenes/a.scene");
    assert_eq!(absolute_asset_to_rel("other/assets/a".to_string(), &AssetRoot::Bundled), "other/assets/a");
    assert_eq!(absolute_asset_to_rel("assets".to_string(), &AssetRoot::Bundled), "assets");
}

#[test]
fn bundled_round_trip() {
    let rel = "scenes\\dungeon.scene";
    let abs = rel_asset_to_absolute(rel, &AssetRoot::Bundled);
    assert_eq!(absolute_asset_to_rel(abs, &AssetRoot::Bundled), "scenes/dungeon.scene");
}

#[test]
fn web_places_relative_paths_under_assets() {
    assert_eq!(rel_asset_to_absolute("scenes\\dungeon.scene", &dir("assets")), "assets/scenes/dungeon.scene");
    assert_eq!(rel_asset_to_absolute("", &dir("assets")), "assets/");
}

#[test]
fn native_places_relative_paths_under_assets_dir() {
    assert_eq!(rel_asset_to_absolute("a/b.mat", &dir("/game/assets")), "/game/assets/a/b.mat");
    assert_eq!(rel_asset_to_absolute("a/b.mat", &dir("/game/assets/")), "/game/assets/a/b.mat");
    assert_eq!(rel_asset_to_absolute("a\\b.mat", &dir("C:\\game\\assets")), "C:/game/assets/a/b.mat");
}

#[test]
fn absolute_paths_are_kept() {
    assert_eq!(rel_asset_to_absolute("/tmp/x.scene", &dir("/game/assets")), "/tmp/x.scene");
}

#[test]
fn absolute_dir_mapping_is_a_fixed_point() {
    let root = dir("/game/assets");
    let once = rel_asset_to_absolute("scenes/a.scene", &root);
    let twice = rel_asset_to_absolute(&once, &root);
    assert_eq!(once, twice);
}

#[test]
fn directory_abs_to_rel_strips_the_folder() {
    assert_eq!(absolute_asset_to_rel("/game/assets/scenes/a.scene".to_string(), &dir("/game/assets")), "scenes/a.scene");
    assert_eq!(absolute_asset_to_rel("assets/scenes/a.scene".to_string(), &dir("assets")), "scenes/a.scene");
}

#[test]
fn directory_abs_to_rel_keeps_paths_elsewhere() {
    assert_eq!(absolute_asset_to_rel("/elsewhere/a.scene".to_string(), &dir("/game/assets")), "/elsewhere/a.scene");
    // Whole components only: "assetsX" is not under "assets".
    assert_eq!(absolute_asset_to_rel("assetsX/a".to_string(), &dir("assets")), "assetsX/a");
}

#[test]
fn directory_round_trip() {
    let root = dir("/game/assets");
    let abs = rel_asset_to_absolute("scenes\\a.scene", &root);
    assert_eq!(absolute_asset_to_rel(abs, &root), "scenes/a.scene");
}

#[test]
fn relative_paths_join_the_folder_as_paths_join() {
    assert_eq!(rel_asset_to_absolute("a", &dir("")), "a");
    assert_eq!(rel_asset_to_absolute("b", &dir("a")), "a/b");
    assert_eq!(rel_asset_to_absolute("b", &dir("a/")), "a/b");
    assert_eq!(rel_asset_to_absolute("/b", &dir("a")), "/b");
    assert_eq!(rel_asset_to_absolute("b/", &dir("a")), "a/b/");
}

#[test]
fn web_round_trip() {
    let root = dir("assets");
    let abs = rel_asset_to_absolute("scenes/dungeon.scene", &root);
    assert_eq!(abs, "assets/scenes/dungeon.scene");
    assert_eq!(absolute_asset_to_rel(abs, &root), "scenes/dungeon.scene");
}
