use indexmap::IndexMap;
use vmf_forge::errors::VmfError;
use vmf_forge::vmf::regions::{Camera, Cameras, Cordon, Cordons};
use vmf_forge::VmfBlock;
use vmf_forge::VmfSerializable;

fn kv(pairs: &[(&str, &str)]) -> IndexMap<String, String> {
    let mut m = IndexMap::new();
    for (k, v) in pairs {
        m.insert(k.to_string(), v.to_string());
    }
    m
}

fn blk(name: &str, pairs: &[(&str, &str)], blocks: Vec<VmfBlock>) -> VmfBlock {
    VmfBlock { name: name.to_string(), key_values: kv(pairs), blocks }
}

fn two_cameras() -> Cameras {
    Cameras {
        active: 1,
        cams: vec![
            Camera { position: "0 0 0".to_string(), look: "1 0 0".to_string() },
            Camera { position: "0 1 0".to_string(), look: "0 1 0".to_string() },
        ],
    }
}

fn two_cordons() -> Cordons {
    Cordons {
        active: 1,
        cordons: vec![
            Cordon { name: "test_cordon".to_string(), active: true, min: "0 0 0".to_string(), max: "1 1 1".to_string() },
            Cordon { name: "test_cordon_2".to_string(), active: false, min: "2 2 2".to_string(), max: "3 3 3".to_string() },
        ],
    }
}

#[test]
fn cameras_try_from_valid_block() {
    let block = blk(
        "cameras",
        &[("activecamera", "1")],
        vec![
            blk("camera", &[("position", "0 0 0"), ("look", "1 0 0")], vec![]),
            blk("camera", &[("position", "0 1 0"), ("look", "0 1 0")], vec![]),
        ],
    );
    let cameras = Cameras::from_block(block).unwrap();
    assert_eq!(cameras.active, 1);
    assert_eq!(cameras.cams.len(), 2);
    assert_eq!(cameras.cams[0].position, "0 0 0");
    assert_eq!(cameras.cams[0].look, "1 0 0");
    assert_eq!(cameras.cams[1].position, "0 1 0");
    assert_eq!(cameras.cams[1].look, "0 1 0");
}

#[test]
fn cameras_try_from_missing_key() {
    let block = blk("cameras", &[], vec![]);
    assert!(matches!(Cameras::from_block(block), Err(VmfError::InvalidFormat(_))));
}

#[test]
fn cameras_try_from_invalid_type() {
    let block = blk("cameras", &[("activecamera", "abc")], vec![]);
    assert!(matches!(Cameras::from_block(block), Err(VmfError::ParseInt { source: _, key: _ })));
}

#[test]
fn cameras_to_vmf_string() {
    let expected = "\
    cameras\n\
    {\n\
    \t\"activecamera\" \"1\"\n\
    \tcamera\n\
    \t{\n\
    \t\t\"position\" \"0 0 0\"\n\
    \t\t\"look\" \"1 0 0\"\n\
    \t}\n\
    \tcamera\n\
    \t{\n\
    \t\t\"position\" \"0 1 0\"\n\
    \t\t\"look\" \"0 1 0\"\n\
    \t}\n\
    }\n";
    assert_eq!(two_cameras().to_vmf_string(0), expected);
}

#[test]
fn cameras_into_vmf_block() {
    let block = two_cameras().into_block();
    assert_eq!(block.name, "cameras");
    assert_eq!(block.key_values.get("activecamera"), Some(&"1".to_string()));
    assert_eq!(block.blocks.len(), 2);
}

#[test]
fn camera_try_from_valid_block() {
    let block = blk("camera", &[("position", "0 0 0"), ("look", "1 0 0")], vec![]);
    let camera = Camera::from_block(block).unwrap();
    assert_eq!(camera.position, "0 0 0");
    assert_eq!(camera.look, "1 0 0");
}

#[test]
fn camera_try_from_missing_key() {
    let block = blk("camera", &[("look", "1 0 0")], vec![]);
    assert!(matches!(Camera::from_block(block), Err(VmfError::InvalidFormat(_))));
}

#[test]
fn cordons_try_from_valid_block() {
    let block = blk(
        "cordons",
        &[("active", "1")],
        vec![
            blk("cordon", &[("name", "test_cordon"), ("active", "1")], vec![blk("box", &[("mins", "0 0 0"), ("maxs", "1 1 1")], vec![])]),
            blk("cordon", &[("name", "test_cordon_2"), ("active", "0")], vec![blk("box", &[("mins", "2 2 2"), ("maxs", "3 3 3")], vec![])]),
        ],
    );
    let cordons = Cordons::from_block(block).unwrap();
    assert_eq!(cordons.active, 1);
    assert_eq!(cordons.cordons.len(), 2);
    assert_eq!(cordons.cordons[0].name, "test_cordon");
    assert_eq!(cordons.cordons[0].active, true);
    assert_eq!(cordons.cordons[0].min, "0 0 0");
    assert_eq!(cordons.cordons[0].max, "1 1 1");
    assert_eq!(cordons.cordons[1].name, "test_cordon_2");
    assert_eq!(cordons.cordons[1].active, false);
    assert_eq!(cordons.cordons[1].min, "2 2 2");
    assert_eq!(cordons.cordons[1].max, "3 3 3");
}

#[test]
fn cordons_try_from_missing_key() {
    let block = blk("cordons", &[], vec![]);
    assert!(matches!(Cordons::from_block(block), Err(VmfError::InvalidFormat(_))));
}

#[test]
fn cordons_try_from_invalid_type() {
    let block = blk("cordons", &[("active", "abc")], vec![]);
    assert!(matches!(Cordons::from_block(block), Err(VmfError::ParseInt { source: _, key: _ })));
}

#[test]
fn cordons_to_vmf_string() {
    let expected = "\
    cordons\n\
    {\n\
    \t\"active\" \"1\"\n\
    \tcordon\n\
    \t{\n\
    \t\t\"name\" \"test_cordon\"\n\
    \t\t\"active\" \"1\"\n\
    \t\tbox\n\
    \t\t{\n\
    \t\t\t\"mins\" \"0 0 0\"\n\
    \t\t\t\"maxs\" \"1 1 1\"\n\
    \t\t}\n\
    \t}\n\
    \tcordon\n\
    \t{\n\
    \t\t\"name\" \"test_cordon_2\"\n\
    \t\t\"active\" \"0\"\n\
    \t\tbox\n\
    \t\t{\n\
    \t\t\t\"mins\" \"2 2 2\"\n\
    \t\t\t\"maxs\" \"3 3 3\"\n\
    \t\t}\n\
    \t}\n\
    }\n";
    assert_eq!(two_cordons().to_vmf_string(0), expected);
}

#[test]
fn cordons_into_vmf_block() {
    let block = two_cordons().into_block();
    assert_eq!(block.name, "cordons");
    assert_eq!(block.key_values.get("active"), Some(&"1".to_string()));
    assert_eq!(block.blocks.len(), 2);
}

#[test]
fn cordon_try_from_valid_block() {
    let block = blk("cordon", &[("name", "test_cordon"), ("active", "1")], vec![blk("box", &[("mins", "0 0 0"), ("maxs", "1 1 1")], vec![])]);
    let cordon = Cordon::from_block(block).unwrap();
    assert_eq!(cordon.name, "test_cordon");
    assert_eq!(cordon.active, true);
    assert_eq!(cordon.min, "0 0 0");
    assert_eq!(cordon.max, "1 1 1");
}

#[test]
fn cordon_try_from_missing_box_block() {
    let block = blk("cordon", &[("name", "test_cordon"), ("active", "1")], vec![]);
    assert!(matches!(Cordon::from_block(block), Err(VmfError::InvalidFormat(_))));
}

#[test]
fn cordon_try_from_missing_key() {
    let block = blk("cordon", &[("name", "test_cordon")], vec![blk("box", &[("mins", "0 0 0"), ("maxs", "1 1 1")], vec![])]);
    assert!(matches!(Cordon::from_block(block), Err(VmfError::InvalidFormat(_))));
}

#[test]
fn cordon_to_vmf_string() {
    let cordon = Cordon { name: "test_cordon".to_string(), active: true, min: "0 0 0".to_string(), max: "1 1 1".to_string() };
    let expected = "\
    cordon\n\
    {\n\
    \t\"name\" \"test_cordon\"\n\
    \t\"active\" \"1\"\n\
    \tbox\n\
    \t{\n\
    \t\t\"mins\" \"0 0 0\"\n\
    \t\t\"maxs\" \"1 1 1\"\n\
    \t}\n\
    }\n";
    assert_eq!(cordon.to_vmf_string(0), expected);
}

#[test]
fn cordon_into_vmf_block() {
    let cordon = Cordon { name: "test_cordon".to_string(), active: true, min: "0 0 0".to_string(), max: "1 1 1".to_string() };
    let block = cordon.into_block();
    assert_eq!(block.name, "cordon");
    assert_eq!(block.key_values.get("name"), Some(&"test_cordon".to_string()));
    assert_eq!(block.key_values.get("active"), Some(&"1".to_string()));
    assert_eq!(block.blocks.len(), 1);
    assert_eq!(block.blocks[0].name, "box");
}

#[test]
fn cordon_formats_are_equivalent() {
    let nested = blk("cordon", &[("name", "c"), ("active", "1")], vec![blk("box", &[("mins", "(0 0 0)"), ("maxs", "(1 1 1)")], vec![])]);
    let flat = blk("cordon", &[("name", "c"), ("active", "1"), ("mins", "(0 0 0)"), ("maxs", "(1 1 1)")], vec![]);
    assert_eq!(Cordon::from_block(nested).unwrap(), Cordon::from_block(flat).unwrap());
}

#[test]
fn cordon_missing_maxs_message() {
    let block = blk("cordon", &[("name", "c"), ("active", "1"), ("mins", "0")], vec![]);
    match Cordon::from_block(block) {
        Err(VmfError::InvalidFormat(m)) => assert_eq!(m, "Missing 'maxs' key in Cordon block or its 'box' sub-block"),
        other => panic!("unexpected {:?}", other),
    }
}

#[test]
fn cordon_bounds_come_from_the_box_child() {
    let block = blk(
        "cordon",
        &[("name", "c"), ("active", "1")],
        vec![
            blk("other", &[("mins", "9"), ("maxs", "9")], vec![]),
            blk("box", &[("mins", "0 0 0"), ("maxs", "1 1 1")], vec![]),
        ],
    );
    let c = Cordon::from_block(block).unwrap();
    assert_eq!(c.min, "0 0 0");
    assert_eq!(c.max, "1 1 1");
}
