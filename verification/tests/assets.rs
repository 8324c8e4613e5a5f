use lsdblox::asset::{
    asset_file_path, check_item_row, check_texture_row, has_obj_extension, AssetError, AssetRow,
};
use lsdblox::preview::parse_preview_args;

fn row(item_type: i8, location: Option<&str>, texture: Option<i32>) -> AssetRow {
    AssetRow { item_type, location: location.map(|s| s.to_string()), texture }
}

#[test]
fn obj_extension_as_path_reads_it() {
    assert!(has_obj_extension("models/hat.obj"));
    assert!(has_obj_extension("hat.obj"));
    assert!(has_obj_extension("x.obj/"));
    assert!(has_obj_extension("a.obj/."));
    assert!(has_obj_extension("..obj"));
    assert!(has_obj_extension("/srv//a.b.obj"));
    assert!(!has_obj_extension("hat.OBJ"));
    assert!(!has_obj_extension(".obj"));
    assert!(!has_obj_extension("a/.obj"));
    assert!(!has_obj_extension("a.obj/.."));
    assert!(!has_obj_extension("dir.obj/file"));
    assert!(!has_obj_extension("hat.mesh"));
    assert!(!has_obj_extension("obj"));
    assert!(!has_obj_extension(""));
    assert!(!has_obj_extension("/"));
}

#[test]
fn item_row_accepted() {
    let m = check_item_row(row(9, Some("uploads/hat.obj"), Some(12))).ok().unwrap();
    assert_eq!(m.mesh_location, "uploads/hat.obj");
    assert_eq!(m.texture_id, Some(12));
}

#[test]
fn item_row_errors_in_order() {
    assert_eq!(check_item_row(row(3, None, None)).err(), Some(AssetError::MeshLocationMissing));
    assert_eq!(
        check_item_row(row(3, Some("hat.txt"), None)).err(),
        Some(AssetError::UnsupportedItemType)
    );
    assert_eq!(check_item_row(row(9, Some("hat.mesh"), None)).err(), Some(AssetError::NotObjFile));
}

#[test]
fn texture_row() {
    assert_eq!(check_texture_row(row(1, Some("tex.png"), None)).ok().unwrap(), "tex.png");
    assert_eq!(
        check_texture_row(row(1, None, None)).err(),
        Some(AssetError::TextureLocationMissing)
    );
}

#[test]
fn error_messages() {
    assert_eq!(
        AssetError::MeshLocationMissing.message(),
        "Mesh location field is NULL in the database. THIS SHOULD NEVER HAPPEN."
    );
    assert_eq!(AssetError::UnsupportedItemType.message(), "Item type is not implemented.");
    assert_eq!(AssetError::NotObjFile.message(), "Obj file not valid. May be in the old format?");
    assert_eq!(
        AssetError::TextureLocationMissing.message(),
        "Mesh location field is NULL in the database."
    );
}

#[test]
fn server_file_paths() {
    assert_eq!(asset_file_path("uploads/hat.obj"), "/srv/http/uploads/hat.obj");
    assert_eq!(asset_file_path(""), "/srv/http/");
}

#[test]
fn previewer_arguments() {
    let args = |v: &[&str]| v.iter().map(|s| s.to_string()).collect::<Vec<String>>();
    assert!(parse_preview_args(&args(&["asset_preview"])).is_none());
    let a = parse_preview_args(&args(&["asset_preview", "hat.obj"])).unwrap();
    assert_eq!(a.asset, "hat.obj");
    assert_eq!(a.texture, None);
    let b = parse_preview_args(&args(&["asset_preview", "hat.obj", "hat.png", "extra"])).unwrap();
    assert_eq!(b.texture.as_deref(), Some("hat.png"));
}
