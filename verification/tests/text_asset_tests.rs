use bevy_granite::text_asset::{text_from_bytes, AssetLoadError, SceneAssetLoader, StringAsset, StringAssetLoader};

#[test]
fn loads_utf8_text() {
    let asset = StringAssetLoader.load_bytes("héllo".as_bytes().to_vec()).ok().unwrap();
    assert_eq!(asset.contents, "héllo");
}

#[test]
fn rejects_invalid_utf8() {
    assert_eq!(StringAssetLoader.load_bytes(vec![0x66, 0xff, 0x6f]).err(), Some(AssetLoadError::InvalidUtf8));
    assert_eq!(text_from_bytes(vec![0xc0, 0x80]).err(), Some(AssetLoadError::InvalidUtf8));
}

#[test]
fn empty_file_is_empty_text() {
    assert_eq!(text_from_bytes(vec![]).ok(), Some(String::new()));
}

#[test]
fn new_keeps_contents() {
    assert_eq!(StringAsset::new("abc".to_string()).contents, "abc");
}

#[test]
fn loader_extensions() {
    assert_eq!(StringAssetLoader.extensions(), vec!["txt", "mat", "toml", "json", "xml", "md", "ron"]);
    assert_eq!(SceneAssetLoader.extensions(), vec!["scene"]);
}
