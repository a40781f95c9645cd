use indexmap::IndexMap;
use vmf_forge::errors::VmfError;
use vmf_forge::vmf::metadata::{VersionInfo, ViewSettings, VisGroup, VisGroups};
use vmf_forge::VmfBlock;
use vmf_forge::VmfSerializable;

fn kv(pairs: &[(&str, &str)]) -> IndexMap<String, String> {
    let mut m = IndexMap::new();
    for (k, v) in pairs {
        m.insert(k.to_string(), v.to_string());
    }
    m
}

fn blk(name: &str, pairs: &[(&str, &str)], blocks: Vec<VmfBlock>) -> VmfBlock {
    VmfBlock { name: name.to_string(), key_values: kv(pairs), blocks }
}

#[test]
fn version_info_try_from_valid_block() {
    let block = blk(
        "versioninfo",
        &[("editorversion", "400"), ("editorbuild", "8000"), ("mapversion", "1"), ("formatversion", "100"), ("prefab", "0")],
        Vec::new(),
    );
    let version_info = VersionInfo::from_block(block).unwrap();

    assert_eq!(version_info.editor_version, 400);
    assert_eq!(version_info.editor_build, 8000);
    assert_eq!(version_info.map_version, 1);
    assert_eq!(version_info.format_version, 100);
    assert_eq!(version_info.prefab, false);
}

#[test]
fn version_info_try_from_missing_key() {
    let block = blk(
        "versioninfo",
        &[("editorbuild", "8000"), ("mapversion", "1"), ("formatversion", "100"), ("prefab", "0")],
        Vec::new(),
    );
    let result = VersionInfo::from_block(block);
    assert!(matches!(result, Err(VmfError::InvalidFormat(_))));
}

#[test]
fn version_info_try_from_invalid_type() {
    let block = blk(
        "versioninfo",
        &[("editorversion", "400"), ("editorbuild", "abc"), ("mapversion", "1"), ("formatversion", "100"), ("prefab", "0")],
        Vec::new(),
    );
    let result = VersionInfo::from_block(block);
    assert!(matches!(result, Err(VmfError::ParseInt { source: _, key: _ })));
}

#[test]
fn version_info_to_vmf_string() {
    let version_info = VersionInfo { editor_version: 400, editor_build: 8000, map_version: 1, format_version: 100, prefab: false };

    let expected = "\
        versioninfo\n\
        {\n\
        \t\"editorversion\" \"400\"\n\
        \t\"editorbuild\" \"8000\"\n\
        \t\"mapversion\" \"1\"\n\
        \t\"formatversion\" \"100\"\n\
        \t\"prefab\" \"0\"\n\
        }\n";

    assert_eq!(version_info.to_vmf_string(0), expected);
}

#[test]
fn version_info_into_vmf_block() {
    let version_info = VersionInfo { editor_version: 400, editor_build: 8000, map_version: 1, format_version: 100, prefab: false };

    let block = version_info.into_block();

    assert_eq!(block.name, "versioninfo");
    assert_eq!(block.key_values.get("editorversion"), Some(&"400".to_string()));
    assert_eq!(block.key_values.get("editorbuild"), Some(&"8000".to_string()));
    assert_eq!(block.key_values.get("mapversion"), Some(&"1".to_string()));
    assert_eq!(block.key_values.get("formatversion"), Some(&"100".to_string()));
    assert_eq!(block.key_values.get("prefab"), Some(&"0".to_string()));
    assert!(block.blocks.is_empty());
}

#[test]
fn version_info_missing_key_message_names_the_key() {
    let block = blk("versioninfo", &[], Vec::new());
    match VersionInfo::from_block(block) {
        Err(VmfError::InvalidFormat(m)) => assert_eq!(m, "'editorversion' key not found"),
        other => panic!("unexpected {:?}", other),
    }
}

#[test]
fn visgroup_nested_round_trip_text() {
    let block = blk(
        "visgroups",
        &[],
        vec![blk(
            "visgroup",
            &[("name", "Parent"), ("visgroupid", "1"), ("color", "255 0 0")],
            vec![blk("visgroup", &[("name", "Child"), ("visgroupid", "2"), ("color", "0 255 0")], vec![])],
        )],
    );
    let groups = VisGroups::from_block(block).unwrap();
    assert_eq!(groups.groups.len(), 1);
    let parent = &groups.groups[0];
    assert_eq!(parent.id, 1);
    assert_eq!(parent.children.as_ref().unwrap()[0].name, "Child");
    assert!(parent.children.as_ref().unwrap()[0].children.is_none());

    let expected = "visgroups\n{\n\tvisgroup\n\t{\n\t\t\"name\" \"Parent\"\n\t\t\"visgroupid\" \"1\"\n\t\t\"color\" \"255 0 0\"\n\
\t\tvisgroup\n\t\t{\n\t\t\t\"name\" \"Child\"\n\t\t\t\"visgroupid\" \"2\"\n\t\t\t\"color\" \"0 255 0\"\n\t\t}\n\t}\n}\n";
    assert_eq!(groups.to_vmf_string(0), expected);
}

#[test]
fn visgroup_missing_color_fails() {
    let block = blk("visgroup", &[("name", "A"), ("visgroupid", "1")], vec![]);
    assert!(matches!(VisGroup::from_block(block), Err(VmfError::InvalidFormat(_))));
}

#[test]
fn visgroup_into_block_keeps_children() {
    let g = VisGroup {
        name: "P".to_string(),
        id: 1,
        color: "1 2 3".to_string(),
        children: Some(vec![VisGroup { name: "C".to_string(), id: 2, color: "4 5 6".to_string(), children: None }]),
    };
    let b = g.into_block();
    assert_eq!(b.name, "visgroup");
    assert_eq!(b.key_values.get("visgroupid"), Some(&"1".to_string()));
    assert_eq!(b.blocks.len(), 1);
    assert_eq!(b.blocks[0].key_values.get("name"), Some(&"C".to_string()));
}

#[test]
fn view_settings_lenient_spacing_and_optional_3d_grid() {
    let block = blk(
        "viewsettings",
        &[("bSnapToGrid", "1"), ("bShowGrid", "0"), ("bShowLogicalGrid", "1"), ("nGridSpacing", "huge")],
        vec![],
    );
    let v = ViewSettings::from_block(block).unwrap();
    assert_eq!(
        v,
        ViewSettings { snap_to_grid: true, show_grid: false, show_logical_grid: true, grid_spacing: 64, show_3d_grid: false }
    );
    let text = v.to_vmf_string(0);
    assert_eq!(
        text,
        "viewsettings\n{\n\t\"bSnapToGrid\" \"1\"\n\t\"bShowGrid\" \"0\"\n\t\"bShowLogicalGrid\" \"1\"\n\t\"nGridSpacing\" \"64\"\n\t\"bShow3DGrid\" \"0\"\n}\n"
    );
    let missing = blk("viewsettings", &[("bSnapToGrid", "1")], vec![]);
    assert!(matches!(ViewSettings::from_block(missing), Err(VmfError::InvalidFormat(_))));
    assert_eq!(ViewSettings::default().grid_spacing, 8);
}
