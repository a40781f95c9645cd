use vmf_forge::errors::VmfError;
use vmf_forge::parser::parse_vmf;
use vmf_forge::vmf_file::VmfFile;

const CANONICAL: &str = "\
versioninfo\n\
{\n\
\t\"editorversion\" \"400\"\n\
\t\"editorbuild\" \"8000\"\n\
\t\"mapversion\" \"1\"\n\
\t\"formatversion\" \"100\"\n\
\t\"prefab\" \"0\"\n\
}\n\
visgroups\n\
{\n\
}\n\
viewsettings\n\
{\n\
\t\"bSnapToGrid\" \"0\"\n\
\t\"bShowGrid\" \"0\"\n\
\t\"bShowLogicalGrid\" \"0\"\n\
\t\"nGridSpacing\" \"0\"\n\
\t\"bShow3DGrid\" \"0\"\n\
}\n\
world\n\
{\n\
\t\"id\" \"1\"\n\
\t\"classname\" \"worldspawn\"\n\
\tgroup\n\
\t{\n\
\t\t\"id\" \"0\"\n\
\t\teditor\n\
\t\t{\n\
\t\t\t\"color\" \"255 255 255\"\n\
\t\t\t\"visgroupshown\" \"1\"\n\
\t\t\t\"visgroupautoshown\" \"1\"\n\
\t\t}\n\
\t}\n\
}\n\
cameras\n\
{\n\
\t\"activecamera\" \"0\"\n\
}\n\
cordons\n\
{\n\
\t\"active\" \"0\"\n\
}\n";

#[test]
fn to_vmf_string_matches_original() {
    let vmf_file = VmfFile::parse(CANONICAL).unwrap();
    let output = vmf_file.to_vmf_string();
    assert_eq!(output, CANONICAL);
}

#[test]
fn parse_vmf_with_many_entities() {
    let mut input = String::from("versioninfo\n{\n\t\"editorversion\" \"400\"\n\t\"editorbuild\" \"8000\"\n\t\"mapversion\" \"1\"\n\t\"formatversion\" \"100\"\n\t\"prefab\" \"0\"\n}\nworld\n{\n\t\"id\" \"1\"\n\t\"classname\" \"worldspawn\"\n}\n");
    for i in 0..1000 {
        input.push_str(&format!(
            "entity\n{{\n\t\"id\" \"{}\"\n\t\"classname\" \"info_player_start\"\n\t\"origin\" \"0 0 0\"\n}}\n",
            i + 2
        ));
    }

    let vmf_file = VmfFile::parse(&input).unwrap();
    assert_eq!(vmf_file.entities.len(), 1000);
}

#[test]
fn parse_vmf_with_hidden_blocks() {
    let input = "\
    versioninfo\n\
    {\n\
    \t\"editorversion\" \"400\"\n\
    \t\"editorbuild\" \"8000\"\n\
    \t\"mapversion\" \"1\"\n\
    \t\"formatversion\" \"100\"\n\
    \t\"prefab\" \"0\"\n\
    }\n\
    world\n\
    {\n\
    \t\"id\" \"1\"\n\
    \t\"classname\" \"worldspawn\"\n\
    }\n\
    entity\n\
    {\n\
    \t\"id\" \"2\"\n\
    \t\"classname\" \"func_detail\"\n\
    \thidden\n\
    \t{\n\
    \t\tsolid\n\
    \t\t{\n\
    \t\t\t\"id\" \"3\"\n\
    \t\t}\n\
    \t}\n\
    }\n";
    let vmf_file = VmfFile::parse(input).unwrap();

    assert_eq!(vmf_file.entities.len(), 1);
    assert_eq!(vmf_file.hiddens.len(), 0);
    let entity = &vmf_file.entities.0[0];
    assert!(entity.solids.is_some());
    assert_eq!(entity.solids.as_ref().unwrap().len(), 1);
    assert_eq!(entity.solids.as_ref().unwrap()[0].id, 3);
}

#[test]
fn parse_vmf_with_cordons() {
    let input = "\
    versioninfo\n\
    {\n\
    \t\"editorversion\" \"400\"\n\
    \t\"editorbuild\" \"8000\"\n\
    \t\"mapversion\" \"1\"\n\
    \t\"formatversion\" \"100\"\n\
    \t\"prefab\" \"0\"\n\
    }\n\
    cordons\n\
    {\n\
    \t\"active\" \"1\"\n\
    \tcordon\n\
    \t{\n\
    \t\t\"name\" \"cordon_1\"\n\
    \t\t\"active\" \"1\"\n\
    \t\tbox\n\
    \t\t{\n\
    \t\t\t\"mins\" \"(-64 -64 -64)\"\n\
    \t\t\t\"maxs\" \"(64 64 64)\"\n\
    \t\t}\n\
    \t}\n\
    }\n";

    let vmf_file = VmfFile::parse(input).unwrap();

    assert_eq!(vmf_file.cordons.active, 1);
    assert_eq!(vmf_file.cordons.cordons.len(), 1);
    assert_eq!(vmf_file.cordons.cordons[0].name, "cordon_1");
    assert_eq!(vmf_file.cordons.cordons[0].active, true);
    assert_eq!(vmf_file.cordons.cordons[0].min, "(-64 -64 -64)");
    assert_eq!(vmf_file.cordons.cordons[0].max, "(64 64 64)");
}

#[test]
fn parse_vmf_with_cameras() {
    let input = "\
    versioninfo\n\
    {\n\
        \"editorversion\" \"400\"\n\
        \"editorbuild\" \"8000\"\n\
        \"mapversion\" \"1\"\n\
        \"formatversion\" \"100\"\n\
        \"prefab\" \"0\"\n\
    }\n\
    cameras\n\
    {\n\
        \"activecamera\" \"1\"\n\
        camera\n\
        {\n\
            \"position\" \"[0 0 0]\"\n\
            \"look\" \"[1 0 0]\"\n\
        }\n\
        camera\n\
        {\n\
            \"position\" \"[0 1 0]\"\n\
            \"look\" \"[0 1 1]\"\n\
        }\n\
    }\n";

    let vmf_file = VmfFile::parse(input).unwrap();

    assert_eq!(vmf_file.cameras.active, 1);
    assert_eq!(vmf_file.cameras.cams.len(), 2);
    assert_eq!(vmf_file.cameras.cams[0].position, "[0 0 0]");
    assert_eq!(vmf_file.cameras.cams[0].look, "[1 0 0]");
    assert_eq!(vmf_file.cameras.cams[1].position, "[0 1 0]");
    assert_eq!(vmf_file.cameras.cams[1].look, "[0 1 1]");
}

#[test]
fn parse_vmf_valid_input() {
    let input = "\
    versioninfo\n\
    {\n\
    \t\"editorversion\" \"400\"\n\
    \t\"editorbuild\" \"8000\"\n\
    \t\"mapversion\" \"1\"\n\
    \t\"formatversion\" \"100\"\n\
    \t\"prefab\" \"0\"\n\
    }\n\
    world\n\
    {\n\
    \t\"classname\" \"worldspawn\"\n\
    }\n";
    let vmf = parse_vmf(input).unwrap();
    assert_eq!(vmf.versioninfo.editor_version, 400);
    assert_eq!(vmf.world.key_values.get("classname").unwrap(), "worldspawn");
}

#[test]
fn parse_vmf_invalid_input() {
    let input = "\
    versioninfo\n\
    {\n\
    \t\"editorversion\" \"abc\"\n\
    \t\"editorbuild\" \"8000\"\n\
    \t\"mapversion\" \"1\"\n\
    \t\"formatversion\" \"100\"\n\
    \t\"prefab\" \"0\"\n\
    }\n\
    world\n\
    {\n\
    \t\"classname\" \"worldspawn\"\n\
    }\n";

    let result = parse_vmf(input);
    assert!(matches!(result, Err(VmfError::ParseInt { source: _, key: _ })));
}

#[test]
fn parse_vmf_empty_input() {
    let vmf = parse_vmf("").unwrap();
    assert_eq!(vmf.entities.len(), 0);
}

#[test]
fn versioninfo_scenario_round_trips() {
    let input = "versioninfo\n{\n\t\"editorversion\" \"400\"\n\t\"editorbuild\" \"8000\"\n\t\"mapversion\" \"1\"\n\t\"formatversion\" \"100\"\n\t\"prefab\" \"0\"\n}\n";
    let f = parse_vmf(input).unwrap();
    assert_eq!(f.versioninfo.editor_version, 400);
    assert_eq!(f.versioninfo.editor_build, 8000);
    assert_eq!(f.versioninfo.map_version, 1);
    assert_eq!(f.versioninfo.format_version, 100);
    assert!(!f.versioninfo.prefab);
    let text = vmf_forge::VmfSerializable::to_vmf_string(&f.versioninfo, 0);
    assert_eq!(text, input);
}

const RICH: &str = "\
versioninfo\n{\n\t\"editorversion\" \"400\"\n\t\"editorbuild\" \"9672\"\n\t\"mapversion\" \"2\"\n\t\"formatversion\" \"100\"\n\t\"prefab\" \"0\"\n}\n\
visgroups\n{\n\tvisgroup\n\t{\n\t\t\"name\" \"Parent\"\n\t\t\"visgroupid\" \"1\"\n\t\t\"color\" \"255 0 0\"\n\
\t\tvisgroup\n\t\t{\n\t\t\t\"name\" \"Child\"\n\t\t\t\"visgroupid\" \"2\"\n\t\t\t\"color\" \"0 255 0\"\n\t\t}\n\t}\n}\n\
viewsettings\n{\n\t\"bSnapToGrid\" \"1\"\n\t\"bShowGrid\" \"1\"\n\t\"bShowLogicalGrid\" \"0\"\n\t\"nGridSpacing\" \"64\"\n\t\"bShow3DGrid\" \"0\"\n}\n\
world\n{\n\t\"id\" \"1\"\n\t\"classname\" \"worldspawn\"\n\
\tsolid\n\t{\n\t\t\"id\" \"2\"\n\
\t\tside\n\t\t{\n\t\t\t\"id\" \"1\"\n\t\t\t\"plane\" \"(0 0 0) (1 0 0) (0 1 0)\"\n\t\t\t\"material\" \"DEV/DEV_MEASUREGENERIC01B\"\n\t\t\t\"uaxis\" \"[1 0 0 0] 0.25\"\n\t\t\t\"vaxis\" \"[0 -1 0 0] 0.25\"\n\t\t\t\"rotation\" \"0\"\n\t\t\t\"lightmapscale\" \"16\"\n\t\t\t\"smoothing_groups\" \"0\"\n\t\t}\n\
\t\teditor\n\t\t{\n\t\t\t\"color\" \"0 180 0\"\n\t\t\t\"visgroupid\" \"2\"\n\t\t\t\"visgroupshown\" \"1\"\n\t\t\t\"visgroupautoshown\" \"1\"\n\t\t}\n\t}\n\
\thidden\n\t{\n\t\tsolid\n\t\t{\n\t\t\t\"id\" \"3\"\n\t\t\teditor\n\t\t\t{\n\t\t\t\t\"color\" \"0 180 0\"\n\t\t\t\t\"visgroupshown\" \"0\"\n\t\t\t\t\"visgroupautoshown\" \"1\"\n\t\t\t}\n\t\t}\n\t}\n}\n\
entity\n{\n\t\"id\" \"4\"\n\t\"classname\" \"logic_relay\"\n\tconnections\n\t{\n\t\t\"OnTrigger\" \"a\x1BOpen\x1B\x1B0\x1B-1\"\n\t\t\"OnTrigger\" \"b\x1BClose\x1B\x1B0\x1B-1\"\n\t}\n\
\teditor\n\t{\n\t\t\"color\" \"220 30 220\"\n\t\t\"visgroupshown\" \"1\"\n\t\t\"visgroupautoshown\" \"1\"\n\t\t\"logicalpos\" \"[0 500]\"\n\t}\n}\n\
hidden\n{\n\tentity\n\t{\n\t\t\"id\" \"5\"\n\t\t\"classname\" \"info_target\"\n\t\teditor\n\t\t{\n\t\t\t\"color\" \"1 2 3\"\n\t\t\t\"visgroupshown\" \"1\"\n\t\t\t\"visgroupautoshown\" \"1\"\n\t\t}\n\t}\n}\n\
cameras\n{\n\t\"activecamera\" \"0\"\n\tcamera\n\t{\n\t\t\"position\" \"[0 0 0]\"\n\t\t\"look\" \"[1 0 0]\"\n\t}\n}\n\
cordons\n{\n\t\"active\" \"0\"\n\tcordon\n\t{\n\t\t\"name\" \"c\"\n\t\t\"active\" \"1\"\n\t\tbox\n\t\t{\n\t\t\t\"mins\" \"(0 0 0)\"\n\t\t\t\"maxs\" \"(1 1 1)\"\n\t\t}\n\t}\n}\n";

#[test]
fn canonical_text_round_trips_byte_for_byte() {
    let f = VmfFile::parse(RICH).unwrap();
    assert_eq!(f.to_vmf_string(), RICH);
    assert_eq!(f.hiddens.len(), 1);
    assert!(f.hiddens.0[0].is_hidden);
    assert_eq!(f.entities.0[0].connections.as_ref().unwrap().len(), 2);
}

#[test]
fn reparse_gives_equal_document() {
    let f = VmfFile::parse(RICH).unwrap();
    let g = VmfFile::parse(&f.to_vmf_string()).unwrap();
    assert_eq!(f, g);
    let empty = VmfFile::parse("").unwrap();
    let again = VmfFile::parse(&empty.to_vmf_string()).unwrap();
    assert_eq!(empty, again);
}

#[test]
fn unknown_top_level_block_is_skipped() {
    let with = format!("{}mystery\n{{\n\t\"x\" \"y\"\n\tinner\n\t{{\n\t}}\n}}\n", CANONICAL);
    let a = VmfFile::parse(&with).unwrap();
    let b = VmfFile::parse(CANONICAL).unwrap();
    assert_eq!(a, b);
}

#[test]
fn malformed_input_is_a_parse_error() {
    for bad in ["world\n{\n", "world\n{\n\t\"a\" \"b\"\n", "world\n}\n", "world\n{\n\t\"a\"\n}\n", "world\n{\n\t\"a\" \"b\n}\n"] {
        assert!(matches!(VmfFile::parse(bad), Err(VmfError::Parse(_))), "{:?}", bad);
    }
}

#[test]
fn merge_appends_lists() {
    let mut a = VmfFile::parse(RICH).unwrap();
    let b = VmfFile::parse(RICH).unwrap();
    a.merge(b);
    assert_eq!(a.entities.len(), 2);
    assert_eq!(a.hiddens.len(), 2);
    assert_eq!(a.world.solids.len(), 2);
    assert_eq!(a.world.hidden.len(), 2);
    assert_eq!(a.visgroups.groups.len(), 2);
    assert_eq!(a.cordons.cordons.len(), 2);
    assert_eq!(a.cameras.cams.len(), 1);
}

#[test]
fn lone_cordon_blocks_append_and_case_is_ignored() {
    let input = "CORDONS\n{\n\t\"active\" \"1\"\n}\ncordon\n{\n\t\"name\" \"x\"\n\t\"active\" \"0\"\n\t\"mins\" \"0\"\n\t\"maxs\" \"1\"\n}\n";
    let f = VmfFile::parse(input).unwrap();
    assert_eq!(f.cordons.active, 1);
    assert_eq!(f.cordons.cordons.len(), 1);
    assert_eq!(f.cordons.cordons[0].name, "x");
}

#[test]
fn duplicate_outputs_stay_separate() {
    let input = "entity\n{\n\t\"classname\" \"logic_relay\"\n\tconnections\n\t{\n\t\t\"OnTrigger\" \"x\"\n\t\t\"OnTrigger\" \"y\"\n\t}\n}\n";
    let f = VmfFile::parse(input).unwrap();
    let cs = f.entities.0[0].connections.clone().unwrap();
    assert_eq!(cs, vec![("OnTrigger".to_string(), "x".to_string()), ("OnTrigger".to_string(), "y".to_string())]);
    let text = vmf_forge::VmfSerializable::to_vmf_string(&f.entities.0[0], 0);
    assert!(text.contains("\t\t\"OnTrigger\" \"x\"\n\t\t\"OnTrigger\" \"y\"\n"));
}

#[test]
fn prefab_flag_round_trip() {
    let input = "versioninfo\n{\n\t\"editorversion\" \"1\"\n\t\"editorbuild\" \"1\"\n\t\"mapversion\" \"1\"\n\t\"formatversion\" \"1\"\n\t\"prefab\" \"0\"\n}\n";
    let f = VmfFile::parse(input).unwrap();
    assert!(!f.versioninfo.prefab);
    let text = vmf_forge::VmfSerializable::to_vmf_string(&f.versioninfo, 0);
    assert!(text.contains("\"prefab\" \"0\""));
    assert!(!text.contains("false"));
}

#[test]
fn first_failing_block_gives_the_error() {
    let input = "versioninfo\n{\n\t\"editorversion\" \"abc\"\n\t\"editorbuild\" \"8000\"\n\t\"mapversion\" \"1\"\n\t\"formatversion\" \"100\"\n\t\"prefab\" \"0\"\n}\nworld\n{\n\tsolid\n\t{\n\t\t\"id\" \"x\"\n\t}\n}\n";
    match parse_vmf(input) {
        Err(VmfError::ParseInt { key, .. }) => assert_eq!(key, "editorversion"),
        other => panic!("unexpected {:?}", other),
    }
    let entity = "entity\n{\n\t\"classname\" \"logic_relay\"\n\tsolid\n\t{\n\t\t\"id\" \"abc\"\n\t}\n}\n";
    match parse_vmf(entity) {
        Err(VmfError::ParseInt { key, .. }) => assert_eq!(key, "id"),
        other => panic!("unexpected {:?}", other),
    }
}

#[test]
fn from_str_parses() {
    let f: VmfFile = CANONICAL.parse().unwrap();
    assert_eq!(f.versioninfo.editor_version, 400);
}

#[test]
fn unknown_block_in_the_middle_is_skipped() {
    let split = CANONICAL.find("world\n").unwrap();
    let with = format!("{}mystery\n{{\n}}\n{}", &CANONICAL[..split], &CANONICAL[split..]);
    assert_eq!(VmfFile::parse(&with).unwrap(), VmfFile::parse(CANONICAL).unwrap());
}
