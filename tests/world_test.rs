use indexmap::IndexMap;
use vmf_forge::errors::VmfError;
use vmf_forge::vmf::common::Editor;
use vmf_forge::vmf::world::{DispInfo, DispRows, Group, Side, Solid, World};
use vmf_forge::VmfBlock;
use vmf_forge::VmfSerializable;

fn kv(pairs: &[(&str, &str)]) -> IndexMap<String, String> {
    let mut m = IndexMap::new();
    for (k, v) in pairs {
        m.insert(k.to_string(), v.to_string());
    }
    m
}

fn blk(name: &str, pairs: &[(&str, &str)], blocks: Vec<VmfBlock>) -> VmfBlock {
    VmfBlock { name: name.to_string(), key_values: kv(pairs), blocks }
}

fn plain_solid(id: u64) -> Solid {
    Solid { id, sides: vec![], editor: Editor::default() }
}

fn sample_world() -> World {
    World {
        key_values: kv(&[("classname", "worldspawn")]),
        solids: vec![plain_solid(1), plain_solid(2)],
        hidden: vec![plain_solid(3)],
        group: Some(Group { id: 10, editor: Editor::default() }),
    }
}

const SIDE_PAIRS: [(&str, &str); 7] = [
    ("id", "1"),
    ("plane", "(0 0 0) (1 0 0) (0 1 0)"),
    ("material", "test_material"),
    ("uaxis", "[1 0 0 0.5] 0.25"),
    ("vaxis", "[0 1 0 0.5] 0.25"),
    ("lightmapscale", "16"),
    ("smoothing_groups", "1"),
];

fn sample_side() -> Side {
    Side {
        id: 1,
        plane: "(0 0 0) (1 0 0) (0 1 0)".to_string(),
        material: "test_material".to_string(),
        u_axis: "[1 0 0 0.5] 0.25".to_string(),
        v_axis: "[0 1 0 0.5] 0.25".to_string(),
        rotation: None,
        lightmap_scale: 16,
        smoothing_groups: 1,
        flags: None,
        dispinfo: None,
    }
}

#[test]
fn world_try_from_valid_block() {
    let mut block = blk("world", &[("classname", "worldspawn")], Vec::new());
    block.blocks.push(blk("solid", &[("id", "1")], vec![]));
    block.blocks.push(blk("solid", &[("id", "2")], vec![]));
    block.blocks.push(blk("hidden", &[], vec![blk("solid", &[("id", "3")], vec![])]));
    block.blocks.push(blk("group", &[("id", "10")], vec![]));

    let world = World::from_block(block).unwrap();

    assert_eq!(world.key_values.get("classname").unwrap(), "worldspawn");
    assert_eq!(world.solids.len(), 2);
    assert_eq!(world.solids[0].id, 1);
    assert_eq!(world.solids[1].id, 2);
    assert_eq!(world.hidden.len(), 1);
    assert_eq!(world.hidden[0].id, 3);
    assert_eq!(world.group.as_ref().unwrap().id, 10);
}

#[test]
fn world_try_from_invalid_type() {
    let block = blk("world", &[("classname", "worldspawn")], vec![blk("solid", &[("id", "abc")], vec![])]);
    assert!(matches!(World::from_block(block), Err(VmfError::ParseInt { .. })));
}

#[test]
fn world_to_vmf_string() {
    let editor = "\t\teditor\n\t\t{\n\t\t\t\"color\" \"255 255 255\"\n\t\t\t\"visgroupshown\" \"1\"\n\t\t\t\"visgroupautoshown\" \"1\"\n\t\t}\n";
    let hidden_editor = "\t\t\teditor\n\t\t\t{\n\t\t\t\t\"color\" \"255 255 255\"\n\t\t\t\t\"visgroupshown\" \"1\"\n\t\t\t\t\"visgroupautoshown\" \"1\"\n\t\t\t}\n";
    let expected = format!(
        "world\n{{\n\t\"classname\" \"worldspawn\"\n\
\tsolid\n\t{{\n\t\t\"id\" \"1\"\n{e}\t}}\n\
\tsolid\n\t{{\n\t\t\"id\" \"2\"\n{e}\t}}\n\
\thidden\n\t{{\n\t\tsolid\n\t\t{{\n\t\t\t\"id\" \"3\"\n{h}\t\t}}\n\t}}\n\
\tgroup\n\t{{\n\t\t\"id\" \"10\"\n{e}\t}}\n}}\n",
        e = editor,
        h = hidden_editor
    );
    assert_eq!(sample_world().to_vmf_string(0), expected);
}

#[test]
fn world_into_vmf_block() {
    let block = sample_world().into_block();
    assert_eq!(block.name, "world");
    assert_eq!(block.key_values.get("classname"), Some(&"worldspawn".to_string()));
    assert_eq!(block.blocks.len(), 4);
    assert_eq!(block.blocks[0].name, "solid");
    assert_eq!(block.blocks[1].name, "solid");
    assert_eq!(block.blocks[2].name, "hidden");
    assert_eq!(block.blocks[3].name, "group");
}

#[test]
fn solid_try_from_valid_block() {
    let solid = Solid::from_block(blk("solid", &[("id", "1")], vec![])).unwrap();
    assert_eq!(solid.id, 1);
}

#[test]
fn solid_try_from_missing_key() {
    let result = Solid::from_block(blk("solid", &[], vec![]));
    assert!(matches!(result, Err(VmfError::InvalidFormat(_))));
}

#[test]
fn solid_try_from_invalid_type() {
    let result = Solid::from_block(blk("solid", &[("id", "abc")], vec![]));
    assert!(matches!(result, Err(VmfError::ParseInt { .. })));
}

#[test]
fn solid_to_vmf_string() {
    let expected = "\
    solid\n\
    {\n\
    \t\"id\" \"1\"\n\
    \teditor\n\
    \t{\n\
    \t\t\"color\" \"255 255 255\"\n\
    \t\t\"visgroupshown\" \"1\"\n\
    \t\t\"visgroupautoshown\" \"1\"\n\
    \t}\n\
    }\n";
    assert_eq!(plain_solid(1).to_vmf_string(0), expected);
}

#[test]
fn solid_into_vmf_block() {
    let block = plain_solid(1).into_block();
    assert_eq!(block.name, "solid");
    assert_eq!(block.key_values.get("id"), Some(&"1".to_string()));
    assert!(block.blocks.len() == 1);
    assert_eq!(block.blocks[0].name, "editor");
}

#[test]
fn side_try_from_valid_block() {
    let side = Side::from_block(blk("side", &SIDE_PAIRS, Vec::new())).unwrap();
    assert_eq!(side.id, 1);
    assert_eq!(side.plane, "(0 0 0) (1 0 0) (0 1 0)");
    assert_eq!(side.material, "test_material");
    assert_eq!(side.u_axis, "[1 0 0 0.5] 0.25");
    assert_eq!(side.v_axis, "[0 1 0 0.5] 0.25");
    assert_eq!(side.lightmap_scale, 16);
    assert_eq!(side.smoothing_groups, 1);
}

#[test]
fn side_try_from_missing_key() {
    let result = Side::from_block(blk("side", &SIDE_PAIRS[1..], Vec::new()));
    assert!(matches!(result, Err(VmfError::InvalidFormat(_))));
}

#[test]
fn side_try_from_invalid_type() {
    let mut pairs = SIDE_PAIRS;
    pairs[0] = ("id", "abc");
    let result = Side::from_block(blk("side", &pairs, Vec::new()));
    assert!(matches!(result, Err(VmfError::ParseInt { .. })));
}

#[test]
fn side_to_vmf_string() {
    let expected = "\
    side\n\
    {\n\
    \t\"id\" \"1\"\n\
    \t\"plane\" \"(0 0 0) (1 0 0) (0 1 0)\"\n\
    \t\"material\" \"test_material\"\n\
    \t\"uaxis\" \"[1 0 0 0.5] 0.25\"\n\
    \t\"vaxis\" \"[0 1 0 0.5] 0.25\"\n\
    \t\"lightmapscale\" \"16\"\n\
    \t\"smoothing_groups\" \"1\"\n\
    }\n";
    assert_eq!(sample_side().to_vmf_string(0), expected);
}

#[test]
fn side_into_vmf_block() {
    let block = sample_side().into_block();
    assert_eq!(block.name, "side");
    assert_eq!(block.key_values.get("id"), Some(&"1".to_string()));
    assert_eq!(block.key_values.get("plane"), Some(&"(0 0 0) (1 0 0) (0 1 0)".to_string()));
    assert_eq!(block.key_values.get("material"), Some(&"test_material".to_string()));
    assert_eq!(block.key_values.get("uaxis"), Some(&"[1 0 0 0.5] 0.25".to_string()));
    assert_eq!(block.key_values.get("vaxis"), Some(&"[0 1 0 0.5] 0.25".to_string()));
    assert_eq!(block.key_values.get("lightmapscale"), Some(&"16".to_string()));
    assert_eq!(block.key_values.get("smoothing_groups"), Some(&"1".to_string()));
    assert!(block.blocks.is_empty());
}

#[test]
fn group_try_from_valid_block() {
    let group = Group::from_block(blk("group", &[("id", "1")], vec![])).unwrap();
    assert_eq!(group.id, 1);
}

#[test]
fn group_try_from_missing_key() {
    assert!(matches!(Group::from_block(blk("group", &[], vec![])), Err(VmfError::InvalidFormat(_))));
}

#[test]
fn group_try_from_invalid_type() {
    assert!(matches!(Group::from_block(blk("group", &[("id", "abc")], vec![])), Err(VmfError::ParseInt { .. })));
}

#[test]
fn group_to_vmf_string() {
    let group = Group { id: 1, editor: Editor::default() };
    let expected = "\
    group\n\
    {\n\
    \t\"id\" \"1\"\n\
    \teditor\n\
    \t{\n\
    \t\t\"color\" \"255 255 255\"\n\
    \t\t\"visgroupshown\" \"1\"\n\
    \t\t\"visgroupautoshown\" \"1\"\n\
    \t}\n\
    }\n";
    assert_eq!(group.to_vmf_string(0), expected);
}

#[test]
fn group_into_vmf_block() {
    let block = Group { id: 1, editor: Editor::default() }.into_block();
    assert_eq!(block.name, "group");
    assert_eq!(block.key_values.get("id"), Some(&"1".to_string()));
    assert!(block.blocks.len() == 1);
    assert_eq!(block.blocks[0].name, "editor");
}

#[test]
fn group_editor_name_is_case_insensitive() {
    let block = blk("group", &[("id", "5")], vec![blk("Editor", &[("color", "1 2 3"), ("visgroupshown", "1")], vec![])]);
    let group = Group::from_block(block).unwrap();
    assert_eq!(group.editor.color, "1 2 3");
    assert!(group.editor.visgroup_shown);
    assert!(!group.editor.visgroup_auto_shown);
}

fn rows_block(name: &str, pairs: &[(&str, &str)]) -> VmfBlock {
    blk(name, pairs, vec![])
}

fn dispinfo_block(extra: Vec<VmfBlock>) -> VmfBlock {
    let mut children = vec![
        rows_block("normals", &[("row0", "0 0 1")]),
        rows_block("distances", &[("row0", "0"), ("row3", "3")]),
        rows_block("alphas", &[("row0", "0")]),
        rows_block("triangle_tags", &[("row0", "9")]),
        blk("allowed_verts", &[("10", "-1 -1 -1")], vec![]),
    ];
    children.extend(extra);
    blk(
        "dispinfo",
        &[("power", "2"), ("startposition", "[0 0 0]"), ("elevation", "0.5"), ("subdiv", "0")],
        children,
    )
}

#[test]
fn dispinfo_sparse_rows_and_optional_offsets() {
    let d = DispInfo::from_block(dispinfo_block(vec![])).unwrap();
    assert_eq!(d.power, 2);
    assert_eq!(d.elevation, "0.5");
    assert_eq!(d.distances.rows, vec!["0".to_string(), String::new(), String::new(), "3".to_string()]);
    assert!(d.offsets.rows.is_empty());
    assert!(d.offset_normals.rows.is_empty());
    assert_eq!(d.allowed_verts.get("10"), Some(&vec![-1, -1, -1]));
}

#[test]
fn dispinfo_missing_required_child() {
    let mut b = dispinfo_block(vec![]);
    b.blocks.remove(0);
    match DispInfo::from_block(b) {
        Err(VmfError::InvalidFormat(m)) => assert_eq!(m, "Missing normals block in dispinfo"),
        other => panic!("unexpected {:?}", other),
    }
}

#[test]
fn dispinfo_bad_elevation_is_float_error() {
    let mut b = dispinfo_block(vec![]);
    b.key_values.insert("elevation".to_string(), "high".to_string());
    assert!(matches!(DispInfo::from_block(b), Err(VmfError::ParseFloat { .. })));
}

#[test]
fn dispinfo_bad_row_index() {
    let r = DispRows::from_block(rows_block("normals", &[("rowx", "1")]));
    assert!(matches!(r, Err(VmfError::ParseInt { .. })));
}

#[test]
fn dispinfo_text() {
    let d = DispInfo::from_block(dispinfo_block(vec![])).unwrap();
    let text = d.to_vmf_string(0);
    let expected = "dispinfo\n{\n\t\"power\" \"2\"\n\t\"startposition\" \"[0 0 0]\"\n\t\"elevation\" \"0.5\"\n\t\"subdiv\" \"0\"\n\
\tnormals\n\t{\n\t\t\"row0\" \"0 0 1\"\n\t}\n\
\tdistances\n\t{\n\t\t\"row0\" \"0\"\n\t\t\"row1\" \"\"\n\t\t\"row2\" \"\"\n\t\t\"row3\" \"3\"\n\t}\n\
\toffsets\n\t{\n\t}\n\toffset_normals\n\t{\n\t}\n\
\talphas\n\t{\n\t\t\"row0\" \"0\"\n\t}\n\
\ttriangle_tags\n\t{\n\t\t\"row0\" \"9\"\n\t}\n\
\tallowed_verts\n\t{\n\t\t\"10\" \"-1 -1 -1\"\n\t}\n}\n";
    assert_eq!(text, expected);
    let b = d.into_block();
    assert_eq!(b.blocks.len(), 7);
    assert_eq!(b.blocks[1].key_values.get("row3"), Some(&"3".to_string()));
}

#[test]
fn disp_rows_to_vmf_string() {
    let r = DispRows { rows: vec!["a".to_string(), "b".to_string()] };
    assert_eq!(r.to_vmf_string(1, "alphas"), "\talphas\n\t{\n\t\t\"row0\" \"a\"\n\t\t\"row1\" \"b\"\n\t}\n");
}

#[test]
fn side_rotation_leniency_and_required_lightmapscale() {
    let mut pairs: Vec<(&str, &str)> = SIDE_PAIRS.to_vec();
    pairs.push(("rotation", "abc"));
    let side = Side::from_block(blk("side", &pairs, vec![])).unwrap();
    assert_eq!(side.rotation, None);

    let mut pairs: Vec<(&str, &str)> = SIDE_PAIRS.to_vec();
    pairs.push(("rotation", "90"));
    pairs.push(("flags", "x"));
    let side = Side::from_block(blk("side", &pairs, vec![])).unwrap();
    assert_eq!(side.rotation, Some("90".to_string()));
    assert_eq!(side.flags, None);

    let pairs: Vec<(&str, &str)> = SIDE_PAIRS.iter().copied().filter(|p| p.0 != "lightmapscale").collect();
    match Side::from_block(blk("side", &pairs, vec![])) {
        Err(VmfError::InvalidFormat(m)) => assert_eq!(m, "'lightmapscale' key not found"),
        other => panic!("unexpected {:?}", other),
    }
}

#[test]
fn world_with_bad_group_fails() {
    let block = blk("world", &[("classname", "worldspawn")], vec![blk("group", &[("id", "abc")], vec![])]);
    match World::from_block(block) {
        Err(VmfError::ParseInt { key, .. }) => assert_eq!(key, "id"),
        other => panic!("unexpected {:?}", other),
    }
}

#[test]
fn solid_error_names_first_bad_side() {
    let mut pairs: Vec<(&str, &str)> = SIDE_PAIRS.to_vec();
    pairs[5] = ("lightmapscale", "big");
    let block = blk("solid", &[("id", "1")], vec![blk("side", &SIDE_PAIRS, vec![]), blk("side", &pairs, vec![])]);
    match Solid::from_block(block) {
        Err(VmfError::ParseInt { key, source }) => {
            assert_eq!(key, "lightmapscale");
            assert_eq!(source.text, "big");
        },
        other => panic!("unexpected {:?}", other),
    }
}
